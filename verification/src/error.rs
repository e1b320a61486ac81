//! The error taxonomy: script syntax errors, value parse errors, variable,
//! font and structural errors.  Every error carries enough context (field
//! name, command keyword, line number, offending token) to locate the
//! offending script or data line; no error is recovered locally.

use vstd::prelude::*;

verus! {

/// Specification-level image of an [`Error`], over character sequences.
#[verifier::ext_equal]
pub enum ErrorV {
    /// A required positional field is absent for the command's arity.
    MissingValue { value_name: Seq<char>, command_name: Seq<char>, line_number: int },
    /// The leading keyword of a line is not in the command table.
    UnknownCommand { keyword: Seq<char>, line_number: int },
    /// A positional field expected to be numeric failed to convert.
    BadValue { text: Seq<char>, line_number: int },
    /// A recognized `key=value` option has a malformed value.
    BadOption { key: Seq<char>, text: Seq<char>, line_number: int },
    /// A `$`-variable outside the closed vocabulary, or of the wrong kind.
    UnknownVariable { name: Seq<char> },
    /// A `font_face` name outside the fixed font registry.
    UnknownFont { name: Seq<char> },
    /// A polyline command with an empty vertex list.
    NoPositions,
    /// A polyline whose declared stroke count disagrees with its vertices.
    StrokeMismatch,
    /// A computed coordinate left the representable range.
    CoordinateRange,
    /// A photo placed with a zero reference span, so no scale exists.
    ZeroScaleBase,
}

/// Why a run failed: parsing, resolution or layout.  Fatal in every case;
/// the run aborts and the error unwinds to the caller.
#[derive(Debug, PartialEq, Eq)]
pub enum Error {
    /// A required positional field is absent for the command's arity.
    MissingValue { value_name: String, command_name: String, line_number: usize },
    /// The leading keyword of a line is not in the command table.
    UnknownCommand { keyword: String, line_number: usize },
    /// A positional field expected to be numeric failed to convert.
    BadValue { text: String, line_number: usize },
    /// A recognized `key=value` option has a malformed value.
    BadOption { key: String, text: String, line_number: usize },
    /// A `$`-variable outside the closed vocabulary, or of the wrong kind.
    UnknownVariable { name: String },
    /// A `font_face` name outside the fixed font registry.
    UnknownFont { name: String },
    /// A polyline command with an empty vertex list.
    NoPositions,
    /// A polyline whose declared stroke count disagrees with its vertices.
    StrokeMismatch,
    /// A computed coordinate left the representable range.
    CoordinateRange,
    /// A photo placed with a zero reference span, so no scale exists.
    ZeroScaleBase,
}

impl View for Error {
    type V = ErrorV;

    open spec fn view(&self) -> ErrorV {
        match self {
            Error::MissingValue { value_name, command_name, line_number } => ErrorV::MissingValue {
                value_name: value_name@,
                command_name: command_name@,
                line_number: *line_number as int,
            },
            Error::UnknownCommand { keyword, line_number } => ErrorV::UnknownCommand {
                keyword: keyword@,
                line_number: *line_number as int,
            },
            Error::BadValue { text, line_number } => ErrorV::BadValue {
                text: text@,
                line_number: *line_number as int,
            },
            Error::BadOption { key, text, line_number } => ErrorV::BadOption {
                key: key@,
                text: text@,
                line_number: *line_number as int,
            },
            Error::UnknownVariable { name } => ErrorV::UnknownVariable { name: name@ },
            Error::UnknownFont { name } => ErrorV::UnknownFont { name: name@ },
            Error::NoPositions => ErrorV::NoPositions,
            Error::StrokeMismatch => ErrorV::StrokeMismatch,
            Error::CoordinateRange => ErrorV::CoordinateRange,
            Error::ZeroScaleBase => ErrorV::ZeroScaleBase,
        }
    }
}

} // verus!
