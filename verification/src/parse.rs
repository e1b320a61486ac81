//! The style-script parser.
//!
//! A script is line-oriented: a line starting with `#` is a comment, a
//! blank line is skipped, and every other line is split on commas into a
//! leading command keyword, its required positional fields, and a trailing
//! options region.  An unknown keyword, a missing required field or a
//! malformed value is a parse error naming the offending token and the
//! zero-based line number.  Parsing never mutates earlier commands; the
//! sequence comes out in file order.

use vstd::prelude::*;
use vstd::string::*;

use crate::command::{
    BoxCommand, Command, EducationExperience, History, Line, Lines, MiscBox, MultiLines, Photo,
    Text, TextBox, YMBox,
};
use crate::error::{Error, ErrorV};
use crate::geom::{Point, Size};
use crate::num::{mm_ok, mm_val, parse_mm, parse_u32, u32_ok, u32_val};
use crate::options::{
    bool_ok, bool_val, field_key, field_val, fopts_err, fopts_matches, fopts_ok, is_assign,
    lopts_err, lopts_matches, lopts_ok, opt_lookup, parse_font_options, parse_line_options,
    parse_option, split_assign, strip_key,
};
use crate::scan::{
    first_sep, lemma_first_sep, spec_lines, spec_split, split_lines, split_str, string_eq, sview,
};

verus! {

/// The comma-separated fields of a script line.
pub open spec fn line_fields(l: Seq<char>) -> Seq<Seq<char>> {
    spec_split(l, ',')
}

/// Splitting always yields at least one field.
pub proof fn lemma_split_nonempty(s: Seq<char>, sep: char)
    ensures
        spec_split(s, sep).len() >= 1,
    decreases s.len(),
{
}

/// A minimal valid `string` line: x, y and a value.
pub open spec fn string_ok(fs: Seq<Seq<char>>) -> bool {
    fs.len() > 3 && mm_ok(fs[1]) && mm_ok(fs[2]) && fopts_ok(fs, 4)
}

pub open spec fn string_err(fs: Seq<Seq<char>>, n: int) -> ErrorV {
    if fs.len() <= 1 {
        ErrorV::MissingValue { value_name: "x"@, command_name: "string"@, line_number: n }
    } else if fs.len() <= 2 {
        ErrorV::MissingValue { value_name: "y"@, command_name: "string"@, line_number: n }
    } else if fs.len() <= 3 {
        ErrorV::MissingValue { value_name: "value"@, command_name: "string"@, line_number: n }
    } else if !mm_ok(fs[1]) {
        ErrorV::BadValue { text: fs[1], line_number: n }
    } else if !mm_ok(fs[2]) {
        ErrorV::BadValue { text: fs[2], line_number: n }
    } else {
        fopts_err(fs, 4, n)
    }
}

pub open spec fn string_matches(c: Text, fs: Seq<Seq<char>>) -> bool {
    &&& c.position.x == mm_val(fs[1])
    &&& c.position.y == mm_val(fs[2])
    &&& c.value@ == fs[3]
    &&& fopts_matches(c.font_options, fs, 4)
}

/// A minimal valid `line` line: both endpoints (the second a delta).
pub open spec fn line_cmd_ok(fs: Seq<Seq<char>>) -> bool {
    fs.len() > 4 && mm_ok(fs[1]) && mm_ok(fs[2]) && mm_ok(fs[3]) && mm_ok(fs[4]) && lopts_ok(fs, 5)
}

pub open spec fn line_cmd_err(fs: Seq<Seq<char>>, n: int) -> ErrorV {
    if fs.len() <= 1 {
        ErrorV::MissingValue { value_name: "x1"@, command_name: "line"@, line_number: n }
    } else if fs.len() <= 2 {
        ErrorV::MissingValue { value_name: "y1"@, command_name: "line"@, line_number: n }
    } else if fs.len() <= 3 {
        ErrorV::MissingValue { value_name: "x2"@, command_name: "line"@, line_number: n }
    } else if fs.len() <= 4 {
        ErrorV::MissingValue { value_name: "y2"@, command_name: "line"@, line_number: n }
    } else if !mm_ok(fs[1]) {
        ErrorV::BadValue { text: fs[1], line_number: n }
    } else if !mm_ok(fs[2]) {
        ErrorV::BadValue { text: fs[2], line_number: n }
    } else if !mm_ok(fs[3]) {
        ErrorV::BadValue { text: fs[3], line_number: n }
    } else if !mm_ok(fs[4]) {
        ErrorV::BadValue { text: fs[4], line_number: n }
    } else {
        lopts_err(fs, 5, n)
    }
}

pub open spec fn line_cmd_matches(c: Line, fs: Seq<Seq<char>>) -> bool {
    &&& c.start_position.x == mm_val(fs[1])
    &&& c.start_position.y == mm_val(fs[2])
    &&& c.end_position.x == mm_val(fs[3])
    &&& c.end_position.y == mm_val(fs[4])
    &&& lopts_matches(c.line_options, fs, 5)
}

/// A minimal valid `box` line: position and size.
pub open spec fn box_ok(fs: Seq<Seq<char>>) -> bool {
    fs.len() > 4 && mm_ok(fs[1]) && mm_ok(fs[2]) && mm_ok(fs[3]) && mm_ok(fs[4]) && lopts_ok(fs, 5)
}

pub open spec fn box_err(fs: Seq<Seq<char>>, n: int) -> ErrorV {
    if fs.len() <= 1 {
        ErrorV::MissingValue { value_name: "x"@, command_name: "box"@, line_number: n }
    } else if fs.len() <= 2 {
        ErrorV::MissingValue { value_name: "y"@, command_name: "box"@, line_number: n }
    } else if fs.len() <= 3 {
        ErrorV::MissingValue { value_name: "width"@, command_name: "box"@, line_number: n }
    } else if fs.len() <= 4 {
        ErrorV::MissingValue { value_name: "height"@, command_name: "box"@, line_number: n }
    } else if !mm_ok(fs[1]) {
        ErrorV::BadValue { text: fs[1], line_number: n }
    } else if !mm_ok(fs[2]) {
        ErrorV::BadValue { text: fs[2], line_number: n }
    } else if !mm_ok(fs[3]) {
        ErrorV::BadValue { text: fs[3], line_number: n }
    } else if !mm_ok(fs[4]) {
        ErrorV::BadValue { text: fs[4], line_number: n }
    } else {
        lopts_err(fs, 5, n)
    }
}

pub open spec fn box_matches(c: BoxCommand, fs: Seq<Seq<char>>) -> bool {
    &&& c.position.x == mm_val(fs[1])
    &&& c.position.y == mm_val(fs[2])
    &&& c.size.width == mm_val(fs[3])
    &&& c.size.height == mm_val(fs[4])
    &&& lopts_matches(c.line_options, fs, 5)
}

/// A minimal valid `photo` line: position and size, no options.
pub open spec fn photo_ok(fs: Seq<Seq<char>>) -> bool {
    fs.len() > 4 && mm_ok(fs[1]) && mm_ok(fs[2]) && mm_ok(fs[3]) && mm_ok(fs[4])
}

pub open spec fn photo_err(fs: Seq<Seq<char>>, n: int) -> ErrorV {
    if fs.len() <= 1 {
        ErrorV::MissingValue { value_name: "x"@, command_name: "photo"@, line_number: n }
    } else if fs.len() <= 2 {
        ErrorV::MissingValue { value_name: "y"@, command_name: "photo"@, line_number: n }
    } else if fs.len() <= 3 {
        ErrorV::MissingValue { value_name: "width"@, command_name: "photo"@, line_number: n }
    } else if fs.len() <= 4 {
        ErrorV::MissingValue { value_name: "height"@, command_name: "photo"@, line_number: n }
    } else if !mm_ok(fs[1]) {
        ErrorV::BadValue { text: fs[1], line_number: n }
    } else if !mm_ok(fs[2]) {
        ErrorV::BadValue { text: fs[2], line_number: n }
    } else if !mm_ok(fs[3]) {
        ErrorV::BadValue { text: fs[3], line_number: n }
    } else {
        ErrorV::BadValue { text: fs[4], line_number: n }
    }
}

pub open spec fn photo_matches(c: Photo, fs: Seq<Seq<char>>) -> bool {
    &&& c.position.x == mm_val(fs[1])
    &&& c.position.y == mm_val(fs[2])
    &&& c.size.width == mm_val(fs[3])
    &&& c.size.height == mm_val(fs[4])
}

/// A minimal valid `textbox` line: position, size and a value.
pub open spec fn textbox_ok(fs: Seq<Seq<char>>) -> bool {
    fs.len() > 5 && mm_ok(fs[1]) && mm_ok(fs[2]) && mm_ok(fs[3]) && mm_ok(fs[4]) && fopts_ok(fs, 6)
}

pub open spec fn textbox_err(fs: Seq<Seq<char>>, n: int) -> ErrorV {
    if fs.len() <= 1 {
        ErrorV::MissingValue { value_name: "x"@, command_name: "textbox"@, line_number: n }
    } else if fs.len() <= 2 {
        ErrorV::MissingValue { value_name: "y"@, command_name: "textbox"@, line_number: n }
    } else if fs.len() <= 3 {
        ErrorV::MissingValue { value_name: "width"@, command_name: "textbox"@, line_number: n }
    } else if fs.len() <= 4 {
        ErrorV::MissingValue { value_name: "height"@, command_name: "textbox"@, line_number: n }
    } else if fs.len() <= 5 {
        ErrorV::MissingValue { value_name: "value"@, command_name: "textbox"@, line_number: n }
    } else if !mm_ok(fs[1]) {
        ErrorV::BadValue { text: fs[1], line_number: n }
    } else if !mm_ok(fs[2]) {
        ErrorV::BadValue { text: fs[2], line_number: n }
    } else if !mm_ok(fs[3]) {
        ErrorV::BadValue { text: fs[3], line_number: n }
    } else if !mm_ok(fs[4]) {
        ErrorV::BadValue { text: fs[4], line_number: n }
    } else {
        fopts_err(fs, 6, n)
    }
}

pub open spec fn textbox_matches(c: TextBox, fs: Seq<Seq<char>>) -> bool {
    &&& c.position.x == mm_val(fs[1])
    &&& c.position.y == mm_val(fs[2])
    &&& c.size.width == mm_val(fs[3])
    &&& c.size.height == mm_val(fs[4])
    &&& c.value@ == fs[5]
    &&& fopts_matches(c.font_options, fs, 6)
}

/// A minimal valid `multi_lines` line: start, direction, count, offset.
pub open spec fn multilines_ok(fs: Seq<Seq<char>>) -> bool {
    &&& fs.len() > 7
    &&& mm_ok(fs[1]) && mm_ok(fs[2]) && mm_ok(fs[3]) && mm_ok(fs[4])
    &&& u32_ok(fs[5])
    &&& mm_ok(fs[6]) && mm_ok(fs[7])
}

pub open spec fn multilines_err(fs: Seq<Seq<char>>, n: int) -> ErrorV {
    if fs.len() <= 1 {
        ErrorV::MissingValue { value_name: "x"@, command_name: "multi_lines"@, line_number: n }
    } else if fs.len() <= 2 {
        ErrorV::MissingValue { value_name: "y"@, command_name: "multi_lines"@, line_number: n }
    } else if fs.len() <= 3 {
        ErrorV::MissingValue { value_name: "dx"@, command_name: "multi_lines"@, line_number: n }
    } else if fs.len() <= 4 {
        ErrorV::MissingValue { value_name: "dy"@, command_name: "multi_lines"@, line_number: n }
    } else if fs.len() <= 5 {
        ErrorV::MissingValue {
            value_name: "number of strokes"@,
            command_name: "multi_lines"@,
            line_number: n,
        }
    } else if fs.len() <= 6 {
        ErrorV::MissingValue { value_name: "sx"@, command_name: "multi_lines"@, line_number: n }
    } else if fs.len() <= 7 {
        ErrorV::MissingValue { value_name: "sy"@, command_name: "multi_lines"@, line_number: n }
    } else if !mm_ok(fs[1]) {
        ErrorV::BadValue { text: fs[1], line_number: n }
    } else if !mm_ok(fs[2]) {
        ErrorV::BadValue { text: fs[2], line_number: n }
    } else if !mm_ok(fs[3]) {
        ErrorV::BadValue { text: fs[3], line_number: n }
    } else if !mm_ok(fs[4]) {
        ErrorV::BadValue { text: fs[4], line_number: n }
    } else if !u32_ok(fs[5]) {
        ErrorV::BadValue { text: fs[5], line_number: n }
    } else if !mm_ok(fs[6]) {
        ErrorV::BadValue { text: fs[6], line_number: n }
    } else {
        ErrorV::BadValue { text: fs[7], line_number: n }
    }
}

pub open spec fn multilines_matches(c: MultiLines, fs: Seq<Seq<char>>) -> bool {
    &&& c.start_position.x == mm_val(fs[1])
    &&& c.start_position.y == mm_val(fs[2])
    &&& c.direction.x == mm_val(fs[3])
    &&& c.direction.y == mm_val(fs[4])
    &&& c.stroke_number == u32_val(fs[5])
    &&& c.position_offset.x == mm_val(fs[6])
    &&& c.position_offset.y == mm_val(fs[7])
}

/// A minimal valid `ymbox` line: title, height, count and a value.
pub open spec fn ymbox_ok(fs: Seq<Seq<char>>) -> bool {
    fs.len() > 4 && mm_ok(fs[2]) && u32_ok(fs[3])
}

pub open spec fn ymbox_err(fs: Seq<Seq<char>>, n: int) -> ErrorV {
    if fs.len() <= 1 {
        ErrorV::MissingValue { value_name: "title"@, command_name: "ymbox"@, line_number: n }
    } else if fs.len() <= 2 {
        ErrorV::MissingValue { value_name: "height"@, command_name: "ymbox"@, line_number: n }
    } else if fs.len() <= 3 {
        ErrorV::MissingValue { value_name: "number"@, command_name: "ymbox"@, line_number: n }
    } else if fs.len() <= 4 {
        ErrorV::MissingValue { value_name: "value"@, command_name: "ymbox"@, line_number: n }
    } else if !mm_ok(fs[2]) {
        ErrorV::BadValue { text: fs[2], line_number: n }
    } else {
        ErrorV::BadValue { text: fs[3], line_number: n }
    }
}

pub open spec fn ymbox_matches(c: YMBox, fs: Seq<Seq<char>>) -> bool {
    &&& c.title@ == fs[1]
    &&& c.height == mm_val(fs[2])
    &&& c.num == u32_val(fs[3])
    &&& c.value@ == fs[4]
}

/// A minimal valid `miscbox` line: title, y, height and a value.
pub open spec fn miscbox_ok(fs: Seq<Seq<char>>) -> bool {
    fs.len() > 4 && mm_ok(fs[2]) && mm_ok(fs[3])
}

pub open spec fn miscbox_err(fs: Seq<Seq<char>>, n: int) -> ErrorV {
    if fs.len() <= 1 {
        ErrorV::MissingValue { value_name: "title"@, command_name: "miscbox"@, line_number: n }
    } else if fs.len() <= 2 {
        ErrorV::MissingValue { value_name: "y"@, command_name: "miscbox"@, line_number: n }
    } else if fs.len() <= 3 {
        ErrorV::MissingValue { value_name: "height"@, command_name: "miscbox"@, line_number: n }
    } else if fs.len() <= 4 {
        ErrorV::MissingValue { value_name: "value"@, command_name: "miscbox"@, line_number: n }
    } else if !mm_ok(fs[2]) {
        ErrorV::BadValue { text: fs[2], line_number: n }
    } else {
        ErrorV::BadValue { text: fs[3], line_number: n }
    }
}

pub open spec fn miscbox_matches(c: MiscBox, fs: Seq<Seq<char>>) -> bool {
    &&& c.title@ == fs[1]
    &&& c.y == mm_val(fs[2])
    &&& c.height == mm_val(fs[3])
    &&& c.value@ == fs[4]
}

/// A minimal valid `history` line: y, three column offsets, padding and a
/// list variable.
pub open spec fn history_ok(fs: Seq<Seq<char>>) -> bool {
    &&& fs.len() > 6
    &&& mm_ok(fs[1]) && mm_ok(fs[2]) && mm_ok(fs[3]) && mm_ok(fs[4]) && mm_ok(fs[5])
    &&& fopts_ok(fs, 7)
}

pub open spec fn history_err(fs: Seq<Seq<char>>, n: int) -> ErrorV {
    if fs.len() <= 1 {
        ErrorV::MissingValue { value_name: "y"@, command_name: "history"@, line_number: n }
    } else if fs.len() <= 2 {
        ErrorV::MissingValue { value_name: "year x"@, command_name: "history"@, line_number: n }
    } else if fs.len() <= 3 {
        ErrorV::MissingValue { value_name: "month x"@, command_name: "history"@, line_number: n }
    } else if fs.len() <= 4 {
        ErrorV::MissingValue { value_name: "value x"@, command_name: "history"@, line_number: n }
    } else if fs.len() <= 5 {
        ErrorV::MissingValue { value_name: "dy"@, command_name: "history"@, line_number: n }
    } else if fs.len() <= 6 {
        ErrorV::MissingValue { value_name: "value"@, command_name: "history"@, line_number: n }
    } else if !mm_ok(fs[1]) {
        ErrorV::BadValue { text: fs[1], line_number: n }
    } else if !mm_ok(fs[2]) {
        ErrorV::BadValue { text: fs[2], line_number: n }
    } else if !mm_ok(fs[3]) {
        ErrorV::BadValue { text: fs[3], line_number: n }
    } else if !mm_ok(fs[4]) {
        ErrorV::BadValue { text: fs[4], line_number: n }
    } else if !mm_ok(fs[5]) {
        ErrorV::BadValue { text: fs[5], line_number: n }
    } else {
        fopts_err(fs, 7, n)
    }
}

pub open spec fn history_matches(c: History, fs: Seq<Seq<char>>) -> bool {
    &&& c.y == mm_val(fs[1])
    &&& c.year_x == mm_val(fs[2])
    &&& c.month_x == mm_val(fs[3])
    &&& c.value_x == mm_val(fs[4])
    &&& c.padding == mm_val(fs[5])
    &&& c.value@ == fs[6]
    &&& fopts_matches(c.font_options, fs, 7)
}

/// A minimal valid `education_experience` line: as `history`, plus the two
/// caption offsets.
pub open spec fn eduexp_ok(fs: Seq<Seq<char>>) -> bool {
    &&& fs.len() > 7
    &&& mm_ok(fs[1]) && mm_ok(fs[2]) && mm_ok(fs[3]) && mm_ok(fs[4]) && mm_ok(fs[5]) && mm_ok(
        fs[6],
    ) && mm_ok(fs[7])
    &&& fopts_ok(fs, 8)
}

pub open spec fn eduexp_err(fs: Seq<Seq<char>>, n: int) -> ErrorV {
    if fs.len() <= 1 {
        ErrorV::MissingValue {
            value_name: "y"@,
            command_name: "education_experience"@,
            line_number: n,
        }
    } else if fs.len() <= 2 {
        ErrorV::MissingValue {
            value_name: "year x"@,
            command_name: "education_experience"@,
            line_number: n,
        }
    } else if fs.len() <= 3 {
        ErrorV::MissingValue {
            value_name: "month x"@,
            command_name: "education_experience"@,
            line_number: n,
        }
    } else if fs.len() <= 4 {
        ErrorV::MissingValue {
            value_name: "value x"@,
            command_name: "education_experience"@,
            line_number: n,
        }
    } else if fs.len() <= 5 {
        ErrorV::MissingValue {
            value_name: "dy"@,
            command_name: "education_experience"@,
            line_number: n,
        }
    } else if fs.len() <= 6 {
        ErrorV::MissingValue {
            value_name: "caption x"@,
            command_name: "education_experience"@,
            line_number: n,
        }
    } else if fs.len() <= 7 {
        ErrorV::MissingValue {
            value_name: "ijo x"@,
            command_name: "education_experience"@,
            line_number: n,
        }
    } else if !mm_ok(fs[1]) {
        ErrorV::BadValue { text: fs[1], line_number: n }
    } else if !mm_ok(fs[2]) {
        ErrorV::BadValue { text: fs[2], line_number: n }
    } else if !mm_ok(fs[3]) {
        ErrorV::BadValue { text: fs[3], line_number: n }
    } else if !mm_ok(fs[4]) {
        ErrorV::BadValue { text: fs[4], line_number: n }
    } else if !mm_ok(fs[5]) {
        ErrorV::BadValue { text: fs[5], line_number: n }
    } else if !mm_ok(fs[6]) {
        ErrorV::BadValue { text: fs[6], line_number: n }
    } else if !mm_ok(fs[7]) {
        ErrorV::BadValue { text: fs[7], line_number: n }
    } else {
        fopts_err(fs, 8, n)
    }
}

pub open spec fn eduexp_matches(c: EducationExperience, fs: Seq<Seq<char>>) -> bool {
    &&& c.y == mm_val(fs[1])
    &&& c.year_x == mm_val(fs[2])
    &&& c.month_x == mm_val(fs[3])
    &&& c.value_x == mm_val(fs[4])
    &&& c.padding == mm_val(fs[5])
    &&& c.caption_x == mm_val(fs[6])
    &&& c.ijo_x == mm_val(fs[7])
    &&& fopts_matches(c.font_options, fs, 8)
}

/// How many whole `=`-free field pairs follow index `i`.
pub open spec fn n_pairs_from(fs: Seq<Seq<char>>, i: int) -> nat
    decreases fs.len() - i,
{
    if i < 0 || i + 1 >= fs.len() {
        0
    } else if is_assign(fs[i]) || is_assign(fs[i + 1]) {
        0
    } else {
        1 + n_pairs_from(fs, i + 2)
    }
}

/// Where the options region of a `lines` command begins.
pub open spec fn lines_opts_start(fs: Seq<Seq<char>>) -> int {
    2 + 2 * (n_pairs_from(fs, 2) as int)
}

/// Every consumed delta pair is numeric.
pub open spec fn pairs_ok(fs: Seq<Seq<char>>) -> bool {
    forall|p: int|
        0 <= p < n_pairs_from(fs, 2) ==> mm_ok(#[trigger] fs[2 + 2 * p]) && mm_ok(fs[3 + 2 * p])
}

/// The error for the first malformed delta, x before y within a pair;
/// meaningful only while one exists.
pub open spec fn pairs_err(fs: Seq<Seq<char>>, p: int, n: int) -> ErrorV
    decreases n_pairs_from(fs, 2) - p,
{
    if p < 0 || p >= n_pairs_from(fs, 2) {
        ErrorV::NoPositions
    } else if !mm_ok(fs[2 + 2 * p]) {
        ErrorV::BadValue { text: fs[2 + 2 * p], line_number: n }
    } else if !mm_ok(fs[3 + 2 * p]) {
        ErrorV::BadValue { text: fs[3 + 2 * p], line_number: n }
    } else {
        pairs_err(fs, p + 1, n)
    }
}

/// Every `close` assignment in the options region is a boolean.
pub open spec fn closes_ok(fs: Seq<Seq<char>>, start: int) -> bool {
    forall|k: int|
        start <= k < fs.len() && is_assign(#[trigger] fs[k]) && field_key(fs[k]) == "close"@
            ==> bool_ok(field_val(fs[k]))
}

/// The error for the first malformed `close` assignment; meaningful only
/// while one exists.
pub open spec fn closes_err(fs: Seq<Seq<char>>, start: int, n: int) -> ErrorV
    decreases fs.len() - start,
{
    if start < 0 || start >= fs.len() {
        ErrorV::NoPositions
    } else if is_assign(fs[start]) && field_key(fs[start]) == "close"@ && !bool_ok(
        field_val(fs[start]),
    ) {
        ErrorV::BadOption { key: "close"@, text: field_val(fs[start]), line_number: n }
    } else {
        closes_err(fs, start + 1, n)
    }
}

/// A minimal valid `lines` line: a stroke count, then delta pairs, then
/// options.
pub open spec fn lines_ok(fs: Seq<Seq<char>>) -> bool {
    &&& fs.len() > 1
    &&& pairs_ok(fs)
    &&& closes_ok(fs, lines_opts_start(fs))
    &&& u32_ok(fs[1])
    &&& lopts_ok(fs, lines_opts_start(fs))
}

pub open spec fn lines_err(fs: Seq<Seq<char>>, n: int) -> ErrorV {
    if fs.len() <= 1 {
        ErrorV::MissingValue { value_name: "num"@, command_name: "lines"@, line_number: n }
    } else if !pairs_ok(fs) {
        pairs_err(fs, 0, n)
    } else if !closes_ok(fs, lines_opts_start(fs)) {
        closes_err(fs, lines_opts_start(fs), n)
    } else if !u32_ok(fs[1]) {
        ErrorV::BadValue { text: fs[1], line_number: n }
    } else {
        lopts_err(fs, lines_opts_start(fs), n)
    }
}

pub open spec fn lines_matches(c: Lines, fs: Seq<Seq<char>>) -> bool {
    &&& c.stroke_number == u32_val(fs[1])
    &&& c.positions@.len() == n_pairs_from(fs, 2)
    &&& forall|p: int|
        0 <= p < c.positions@.len() ==> (#[trigger] c.positions@[p]).x == mm_val(fs[2 + 2 * p])
            && c.positions@[p].y == mm_val(fs[3 + 2 * p])
    &&& lopts_matches(c.line_options, fs, lines_opts_start(fs))
    &&& match c.close {
        None => opt_lookup(fs, lines_opts_start(fs), "close"@) is None,
        Some(b) => opt_lookup(fs, lines_opts_start(fs), "close"@) matches Some(t) && bool_ok(t)
            && b == bool_val(t),
    }
}

/// Skipping well-formed pairs does not change which delta errs first.
proof fn lemma_pairs_err_skip(fs: Seq<Seq<char>>, q: int, p: int, n: int)
    requires
        0 <= q <= p <= n_pairs_from(fs, 2),
        forall|t: int| q <= t < p ==> mm_ok(#[trigger] fs[2 + 2 * t]) && mm_ok(fs[3 + 2 * t]),
    ensures
        pairs_err(fs, q, n) == pairs_err(fs, p, n),
    decreases p - q,
{
    if q < p {
        lemma_pairs_err_skip(fs, q + 1, p, n);
    }
}

/// Skipping well-formed fields does not change which `close` errs first.
proof fn lemma_closes_err_skip(fs: Seq<Seq<char>>, start: int, i: int, n: int)
    requires
        0 <= start <= i <= fs.len(),
        forall|k: int|
            start <= k < i && is_assign(#[trigger] fs[k]) && field_key(fs[k]) == "close"@
                ==> bool_ok(field_val(fs[k])),
    ensures
        closes_err(fs, start, n) == closes_err(fs, i, n),
    decreases i - start,
{
    if start < i {
        lemma_closes_err_skip(fs, start + 1, i, n);
    }
}

/// The field at `i`, if the line has that many.
fn get_param<'a>(parameters: &'a Vec<String>, i: usize) -> (r: Option<&'a String>)
    ensures
        r is Some <==> i < parameters@.len(),
        r matches Some(s) ==> *s == parameters@[i as int],
{
    if i < parameters.len() {
        Some(&parameters[i])
    } else {
        None
    }
}

/// Unwrap a required positional field, or report which field of which
/// command is missing on which line.
pub fn handle_missing<'a, T>(
    expression: Option<&'a T>,
    value_name: &str,
    command_name: &str,
    line_number: usize,
) -> (r: Result<&'a T, Error>)
    ensures
        r is Ok <==> expression is Some,
        r matches Ok(v) ==> expression == Some(v),
        r matches Err(e) ==> e@ == (ErrorV::MissingValue {
            value_name: value_name@,
            command_name: command_name@,
            line_number: line_number as int,
        }),
{
    match expression {
        Some(v) => Ok(v),
        None => Err(
            Error::MissingValue {
                value_name: value_name.to_owned(),
                command_name: command_name.to_owned(),
                line_number,
            },
        ),
    }
}

/// Parse a `string` command line.
pub fn parse_string(parameters: &Vec<String>, line_number: usize) -> (r: Result<Text, Error>)
    ensures
        r is Ok <==> string_ok(sview(parameters@)),
        r matches Ok(c) ==> string_matches(c, sview(parameters@)) && c.wf(),
        r matches Err(e) ==> e@ == string_err(sview(parameters@), line_number as int),
{
    let ghost fs = sview(parameters@);
    let raw_x = match handle_missing(get_param(parameters, 1), "x", "string", line_number) {
        Ok(v) => v,
        Err(e) => return Err(e),
    };
    let raw_y = match handle_missing(get_param(parameters, 2), "y", "string", line_number) {
        Ok(v) => v,
        Err(e) => return Err(e),
    };
    let raw_value = match handle_missing(get_param(parameters, 3), "value", "string", line_number) {
        Ok(v) => v,
        Err(e) => return Err(e),
    };
    proof {
        assert(fs[1] == parameters@[1]@);
        assert(fs[2] == parameters@[2]@);
        assert(fs[3] == parameters@[3]@);
    }
    let x = match parse_mm(raw_x.as_str(), line_number) {
        Ok(v) => v,
        Err(e) => return Err(e),
    };
    let y = match parse_mm(raw_y.as_str(), line_number) {
        Ok(v) => v,
        Err(e) => return Err(e),
    };
    let font_options = match parse_font_options(parameters, 4, line_number) {
        Ok(v) => v,
        Err(e) => return Err(e),
    };
    Ok(Text { position: Point { x, y }, value: raw_value.clone(), font_options })
}

/// Parse a `line` command line; the second point is a relative delta.
pub fn parse_line(parameters: &Vec<String>, line_number: usize) -> (r: Result<Line, Error>)
    ensures
        r is Ok <==> line_cmd_ok(sview(parameters@)),
        r matches Ok(c) ==> line_cmd_matches(c, sview(parameters@)) && c.wf(),
        r matches Err(e) ==> e@ == line_cmd_err(sview(parameters@), line_number as int),
{
    let ghost fs = sview(parameters@);
    let raw_x1 = match handle_missing(get_param(parameters, 1), "x1", "line", line_number) {
        Ok(v) => v,
        Err(e) => return Err(e),
    };
    let raw_y1 = match handle_missing(get_param(parameters, 2), "y1", "line", line_number) {
        Ok(v) => v,
        Err(e) => return Err(e),
    };
    let raw_x2 = match handle_missing(get_param(parameters, 3), "x2", "line", line_number) {
        Ok(v) => v,
        Err(e) => return Err(e),
    };
    let raw_y2 = match handle_missing(get_param(parameters, 4), "y2", "line", line_number) {
        Ok(v) => v,
        Err(e) => return Err(e),
    };
    proof {
        assert(fs[1] == parameters@[1]@);
        assert(fs[2] == parameters@[2]@);
        assert(fs[3] == parameters@[3]@);
        assert(fs[4] == parameters@[4]@);
    }
    let x1 = match parse_mm(raw_x1.as_str(), line_number) {
        Ok(v) => v,
        Err(e) => return Err(e),
    };
    let y1 = match parse_mm(raw_y1.as_str(), line_number) {
        Ok(v) => v,
        Err(e) => return Err(e),
    };
    let x2 = match parse_mm(raw_x2.as_str(), line_number) {
        Ok(v) => v,
        Err(e) => return Err(e),
    };
    let y2 = match parse_mm(raw_y2.as_str(), line_number) {
        Ok(v) => v,
        Err(e) => return Err(e),
    };
    let line_options = match parse_line_options(parameters, 5, line_number) {
        Ok(v) => v,
        Err(e) => return Err(e),
    };
    Ok(
        Line {
            start_position: Point { x: x1, y: y1 },
            end_position: Point { x: x2, y: y2 },
            line_options,
        },
    )
}

/// Parse a `box` command line.
pub fn parse_box(parameters: &Vec<String>, line_number: usize) -> (r: Result<BoxCommand, Error>)
    ensures
        r is Ok <==> box_ok(sview(parameters@)),
        r matches Ok(c) ==> box_matches(c, sview(parameters@)) && c.wf(),
        r matches Err(e) ==> e@ == box_err(sview(parameters@), line_number as int),
{
    let ghost fs = sview(parameters@);
    let raw_x = match handle_missing(get_param(parameters, 1), "x", "box", line_number) {
        Ok(v) => v,
        Err(e) => return Err(e),
    };
    let raw_y = match handle_missing(get_param(parameters, 2), "y", "box", line_number) {
        Ok(v) => v,
        Err(e) => return Err(e),
    };
    let raw_width = match handle_missing(get_param(parameters, 3), "width", "box", line_number) {
        Ok(v) => v,
        Err(e) => return Err(e),
    };
    let raw_height = match handle_missing(get_param(parameters, 4), "height", "box", line_number) {
        Ok(v) => v,
        Err(e) => return Err(e),
    };
    proof {
        assert(fs[1] == parameters@[1]@);
        assert(fs[2] == parameters@[2]@);
        assert(fs[3] == parameters@[3]@);
        assert(fs[4] == parameters@[4]@);
    }
    let x = match parse_mm(raw_x.as_str(), line_number) {
        Ok(v) => v,
        Err(e) => return Err(e),
    };
    let y = match parse_mm(raw_y.as_str(), line_number) {
        Ok(v) => v,
        Err(e) => return Err(e),
    };
    let width = match parse_mm(raw_width.as_str(), line_number) {
        Ok(v) => v,
        Err(e) => return Err(e),
    };
    let height = match parse_mm(raw_height.as_str(), line_number) {
        Ok(v) => v,
        Err(e) => return Err(e),
    };
    let line_options = match parse_line_options(parameters, 5, line_number) {
        Ok(v) => v,
        Err(e) => return Err(e),
    };
    Ok(BoxCommand { position: Point { x, y }, size: Size { width, height }, line_options })
}

/// Parse a `photo` command line.
pub fn parse_photo(parameters: &Vec<String>, line_number: usize) -> (r: Result<Photo, Error>)
    ensures
        r is Ok <==> photo_ok(sview(parameters@)),
        r matches Ok(c) ==> photo_matches(c, sview(parameters@)) && c.wf(),
        r matches Err(e) ==> e@ == photo_err(sview(parameters@), line_number as int),
{
    let ghost fs = sview(parameters@);
    let raw_x = match handle_missing(get_param(parameters, 1), "x", "photo", line_number) {
        Ok(v) => v,
        Err(e) => return Err(e),
    };
    let raw_y = match handle_missing(get_param(parameters, 2), "y", "photo", line_number) {
        Ok(v) => v,
        Err(e) => return Err(e),
    };
    let raw_width = match handle_missing(get_param(parameters, 3), "width", "photo", line_number) {
        Ok(v) => v,
        Err(e) => return Err(e),
    };
    let raw_height = match handle_missing(get_param(parameters, 4), "height", "photo", line_number)
        {
        Ok(v) => v,
        Err(e) => return Err(e),
    };
    proof {
        assert(fs[1] == parameters@[1]@);
        assert(fs[2] == parameters@[2]@);
        assert(fs[3] == parameters@[3]@);
        assert(fs[4] == parameters@[4]@);
    }
    let x = match parse_mm(raw_x.as_str(), line_number) {
        Ok(v) => v,
        Err(e) => return Err(e),
    };
    let y = match parse_mm(raw_y.as_str(), line_number) {
        Ok(v) => v,
        Err(e) => return Err(e),
    };
    let width = match parse_mm(raw_width.as_str(), line_number) {
        Ok(v) => v,
        Err(e) => return Err(e),
    };
    let height = match parse_mm(raw_height.as_str(), line_number) {
        Ok(v) => v,
        Err(e) => return Err(e),
    };
    Ok(Photo { position: Point { x, y }, size: Size { width, height } })
}

/// Parse a `textbox` command line.
pub fn parse_textbox(parameters: &Vec<String>, line_number: usize) -> (r: Result<TextBox, Error>)
    ensures
        r is Ok <==> textbox_ok(sview(parameters@)),
        r matches Ok(c) ==> textbox_matches(c, sview(parameters@)) && c.wf(),
        r matches Err(e) ==> e@ == textbox_err(sview(parameters@), line_number as int),
{
    let ghost fs = sview(parameters@);
    let raw_x = match handle_missing(get_param(parameters, 1), "x", "textbox", line_number) {
        Ok(v) => v,
        Err(e) => return Err(e),
    };
    let raw_y = match handle_missing(get_param(parameters, 2), "y", "textbox", line_number) {
        Ok(v) => v,
        Err(e) => return Err(e),
    };
    let raw_width = match handle_missing(get_param(parameters, 3), "width", "textbox", line_number)
        {
        Ok(v) => v,
        Err(e) => return Err(e),
    };
    let raw_height = match handle_missing(
        get_param(parameters, 4),
        "height",
        "textbox",
        line_number,
    ) {
        Ok(v) => v,
        Err(e) => return Err(e),
    };
    let raw_value = match handle_missing(get_param(parameters, 5), "value", "textbox", line_number)
        {
        Ok(v) => v,
        Err(e) => return Err(e),
    };
    proof {
        assert(fs[1] == parameters@[1]@);
        assert(fs[2] == parameters@[2]@);
        assert(fs[3] == parameters@[3]@);
        assert(fs[4] == parameters@[4]@);
        assert(fs[5] == parameters@[5]@);
    }
    let x = match parse_mm(raw_x.as_str(), line_number) {
        Ok(v) => v,
        Err(e) => return Err(e),
    };
    let y = match parse_mm(raw_y.as_str(), line_number) {
        Ok(v) => v,
        Err(e) => return Err(e),
    };
    let width = match parse_mm(raw_width.as_str(), line_number) {
        Ok(v) => v,
        Err(e) => return Err(e),
    };
    let height = match parse_mm(raw_height.as_str(), line_number) {
        Ok(v) => v,
        Err(e) => return Err(e),
    };
    let font_options = match parse_font_options(parameters, 6, line_number) {
        Ok(v) => v,
        Err(e) => return Err(e),
    };
    Ok(
        TextBox {
            position: Point { x, y },
            size: Size { width, height },
            value: raw_value.clone(),
            font_options,
        },
    )
}

/// Parse a `multi_lines` command line: start, direction delta, stroke
/// count and per-stroke offset delta.
pub fn parse_multilines(parameters: &Vec<String>, line_number: usize) -> (r: Result<
    MultiLines,
    Error,
>)
    ensures
        r is Ok <==> multilines_ok(sview(parameters@)),
        r matches Ok(c) ==> multilines_matches(c, sview(parameters@)) && c.wf(),
        r matches Err(e) ==> e@ == multilines_err(sview(parameters@), line_number as int),
{
    let ghost fs = sview(parameters@);
    let raw_x = match handle_missing(get_param(parameters, 1), "x", "multi_lines", line_number) {
        Ok(v) => v,
        Err(e) => return Err(e),
    };
    let raw_y = match handle_missing(get_param(parameters, 2), "y", "multi_lines", line_number) {
        Ok(v) => v,
        Err(e) => return Err(e),
    };
    let raw_dx = match handle_missing(get_param(parameters, 3), "dx", "multi_lines", line_number) {
        Ok(v) => v,
        Err(e) => return Err(e),
    };
    let raw_dy = match handle_missing(get_param(parameters, 4), "dy", "multi_lines", line_number) {
        Ok(v) => v,
        Err(e) => return Err(e),
    };
    let raw_num = match handle_missing(
        get_param(parameters, 5),
        "number of strokes",
        "multi_lines",
        line_number,
    ) {
        Ok(v) => v,
        Err(e) => return Err(e),
    };
    let raw_sx = match handle_missing(get_param(parameters, 6), "sx", "multi_lines", line_number) {
        Ok(v) => v,
        Err(e) => return Err(e),
    };
    let raw_sy = match handle_missing(get_param(parameters, 7), "sy", "multi_lines", line_number) {
        Ok(v) => v,
        Err(e) => return Err(e),
    };
    proof {
        assert(fs[1] == parameters@[1]@);
        assert(fs[2] == parameters@[2]@);
        assert(fs[3] == parameters@[3]@);
        assert(fs[4] == parameters@[4]@);
        assert(fs[5] == parameters@[5]@);
        assert(fs[6] == parameters@[6]@);
        assert(fs[7] == parameters@[7]@);
    }
    let x = match parse_mm(raw_x.as_str(), line_number) {
        Ok(v) => v,
        Err(e) => return Err(e),
    };
    let y = match parse_mm(raw_y.as_str(), line_number) {
        Ok(v) => v,
        Err(e) => return Err(e),
    };
    let dx = match parse_mm(raw_dx.as_str(), line_number) {
        Ok(v) => v,
        Err(e) => return Err(e),
    };
    let dy = match parse_mm(raw_dy.as_str(), line_number) {
        Ok(v) => v,
        Err(e) => return Err(e),
    };
    let stroke_number = match parse_u32(raw_num.as_str()) {
        Some(v) => v,
        None => return Err(Error::BadValue { text: raw_num.clone(), line_number }),
    };
    let sx = match parse_mm(raw_sx.as_str(), line_number) {
        Ok(v) => v,
        Err(e) => return Err(e),
    };
    let sy = match parse_mm(raw_sy.as_str(), line_number) {
        Ok(v) => v,
        Err(e) => return Err(e),
    };
    Ok(
        MultiLines {
            start_position: Point { x, y },
            direction: Point { x: dx, y: dy },
            stroke_number,
            position_offset: Point { x: sx, y: sy },
        },
    )
}

/// Parse a `ymbox` command line.
pub fn parse_ymbox(parameters: &Vec<String>, line_number: usize) -> (r: Result<YMBox, Error>)
    ensures
        r is Ok <==> ymbox_ok(sview(parameters@)),
        r matches Ok(c) ==> ymbox_matches(c, sview(parameters@)) && c.wf(),
        r matches Err(e) ==> e@ == ymbox_err(sview(parameters@), line_number as int),
{
    let ghost fs = sview(parameters@);
    let raw_title = match handle_missing(get_param(parameters, 1), "title", "ymbox", line_number) {
        Ok(v) => v,
        Err(e) => return Err(e),
    };
    let raw_height = match handle_missing(get_param(parameters, 2), "height", "ymbox", line_number)
        {
        Ok(v) => v,
        Err(e) => return Err(e),
    };
    let raw_num = match handle_missing(get_param(parameters, 3), "number", "ymbox", line_number) {
        Ok(v) => v,
        Err(e) => return Err(e),
    };
    let raw_value = match handle_missing(get_param(parameters, 4), "value", "ymbox", line_number) {
        Ok(v) => v,
        Err(e) => return Err(e),
    };
    proof {
        assert(fs[1] == parameters@[1]@);
        assert(fs[2] == parameters@[2]@);
        assert(fs[3] == parameters@[3]@);
        assert(fs[4] == parameters@[4]@);
    }
    let height = match parse_mm(raw_height.as_str(), line_number) {
        Ok(v) => v,
        Err(e) => return Err(e),
    };
    let num = match parse_u32(raw_num.as_str()) {
        Some(v) => v,
        None => return Err(Error::BadValue { text: raw_num.clone(), line_number }),
    };
    Ok(YMBox { title: raw_title.clone(), height, num, value: raw_value.clone() })
}

/// Parse a `miscbox` command line.
pub fn parse_miscbox(parameters: &Vec<String>, line_number: usize) -> (r: Result<MiscBox, Error>)
    ensures
        r is Ok <==> miscbox_ok(sview(parameters@)),
        r matches Ok(c) ==> miscbox_matches(c, sview(parameters@)) && c.wf(),
        r matches Err(e) ==> e@ == miscbox_err(sview(parameters@), line_number as int),
{
    let ghost fs = sview(parameters@);
    let raw_title = match handle_missing(get_param(parameters, 1), "title", "miscbox", line_number)
        {
        Ok(v) => v,
        Err(e) => return Err(e),
    };
    let raw_y = match handle_missing(get_param(parameters, 2), "y", "miscbox", line_number) {
        Ok(v) => v,
        Err(e) => return Err(e),
    };
    let raw_height = match handle_missing(
        get_param(parameters, 3),
        "height",
        "miscbox",
        line_number,
    ) {
        Ok(v) => v,
        Err(e) => return Err(e),
    };
    let raw_value = match handle_missing(get_param(parameters, 4), "value", "miscbox", line_number)
        {
        Ok(v) => v,
        Err(e) => return Err(e),
    };
    proof {
        assert(fs[1] == parameters@[1]@);
        assert(fs[2] == parameters@[2]@);
        assert(fs[3] == parameters@[3]@);
        assert(fs[4] == parameters@[4]@);
    }
    let y = match parse_mm(raw_y.as_str(), line_number) {
        Ok(v) => v,
        Err(e) => return Err(e),
    };
    let height = match parse_mm(raw_height.as_str(), line_number) {
        Ok(v) => v,
        Err(e) => return Err(e),
    };
    Ok(MiscBox { title: raw_title.clone(), y, height, value: raw_value.clone() })
}

/// Parse a `history` command line.
pub fn parse_history(parameters: &Vec<String>, line_number: usize) -> (r: Result<History, Error>)
    ensures
        r is Ok <==> history_ok(sview(parameters@)),
        r matches Ok(c) ==> history_matches(c, sview(parameters@)) && c.wf(),
        r matches Err(e) ==> e@ == history_err(sview(parameters@), line_number as int),
{
    let ghost fs = sview(parameters@);
    let raw_y = match handle_missing(get_param(parameters, 1), "y", "history", line_number) {
        Ok(v) => v,
        Err(e) => return Err(e),
    };
    let raw_year_x = match handle_missing(
        get_param(parameters, 2),
        "year x",
        "history",
        line_number,
    ) {
        Ok(v) => v,
        Err(e) => return Err(e),
    };
    let raw_month_x = match handle_missing(
        get_param(parameters, 3),
        "month x",
        "history",
        line_number,
    ) {
        Ok(v) => v,
        Err(e) => return Err(e),
    };
    let raw_value_x = match handle_missing(
        get_param(parameters, 4),
        "value x",
        "history",
        line_number,
    ) {
        Ok(v) => v,
        Err(e) => return Err(e),
    };
    let raw_padding = match handle_missing(get_param(parameters, 5), "dy", "history", line_number)
        {
        Ok(v) => v,
        Err(e) => return Err(e),
    };
    let raw_value = match handle_missing(get_param(parameters, 6), "value", "history", line_number)
        {
        Ok(v) => v,
        Err(e) => return Err(e),
    };
    proof {
        assert(fs[1] == parameters@[1]@);
        assert(fs[2] == parameters@[2]@);
        assert(fs[3] == parameters@[3]@);
        assert(fs[4] == parameters@[4]@);
        assert(fs[5] == parameters@[5]@);
        assert(fs[6] == parameters@[6]@);
    }
    let y = match parse_mm(raw_y.as_str(), line_number) {
        Ok(v) => v,
        Err(e) => return Err(e),
    };
    let year_x = match parse_mm(raw_year_x.as_str(), line_number) {
        Ok(v) => v,
        Err(e) => return Err(e),
    };
    let month_x = match parse_mm(raw_month_x.as_str(), line_number) {
        Ok(v) => v,
        Err(e) => return Err(e),
    };
    let value_x = match parse_mm(raw_value_x.as_str(), line_number) {
        Ok(v) => v,
        Err(e) => return Err(e),
    };
    let padding = match parse_mm(raw_padding.as_str(), line_number) {
        Ok(v) => v,
        Err(e) => return Err(e),
    };
    let font_options = match parse_font_options(parameters, 7, line_number) {
        Ok(v) => v,
        Err(e) => return Err(e),
    };
    Ok(History { y, year_x, month_x, value_x, padding, value: raw_value.clone(), font_options })
}

/// Parse an `education_experience` command line.
pub fn parse_education_experience(parameters: &Vec<String>, line_number: usize) -> (r: Result<
    EducationExperience,
    Error,
>)
    ensures
        r is Ok <==> eduexp_ok(sview(parameters@)),
        r matches Ok(c) ==> eduexp_matches(c, sview(parameters@)) && c.wf(),
        r matches Err(e) ==> e@ == eduexp_err(sview(parameters@), line_number as int),
{
    let ghost fs = sview(parameters@);
    let raw_y = match handle_missing(
        get_param(parameters, 1),
        "y",
        "education_experience",
        line_number,
    ) {
        Ok(v) => v,
        Err(e) => return Err(e),
    };
    let raw_year_x = match handle_missing(
        get_param(parameters, 2),
        "year x",
        "education_experience",
        line_number,
    ) {
        Ok(v) => v,
        Err(e) => return Err(e),
    };
    let raw_month_x = match handle_missing(
        get_param(parameters, 3),
        "month x",
        "education_experience",
        line_number,
    ) {
        Ok(v) => v,
        Err(e) => return Err(e),
    };
    let raw_value_x = match handle_missing(
        get_param(parameters, 4),
        "value x",
        "education_experience",
        line_number,
    ) {
        Ok(v) => v,
        Err(e) => return Err(e),
    };
    let raw_padding = match handle_missing(
        get_param(parameters, 5),
        "dy",
        "education_experience",
        line_number,
    ) {
        Ok(v) => v,
        Err(e) => return Err(e),
    };
    let raw_caption_x = match handle_missing(
        get_param(parameters, 6),
        "caption x",
        "education_experience",
        line_number,
    ) {
        Ok(v) => v,
        Err(e) => return Err(e),
    };
    let raw_ijo_x = match handle_missing(
        get_param(parameters, 7),
        "ijo x",
        "education_experience",
        line_number,
    ) {
        Ok(v) => v,
        Err(e) => return Err(e),
    };
    proof {
        assert(fs[1] == parameters@[1]@);
        assert(fs[2] == parameters@[2]@);
        assert(fs[3] == parameters@[3]@);
        assert(fs[4] == parameters@[4]@);
        assert(fs[5] == parameters@[5]@);
        assert(fs[6] == parameters@[6]@);
        assert(fs[7] == parameters@[7]@);
    }
    let y = match parse_mm(raw_y.as_str(), line_number) {
        Ok(v) => v,
        Err(e) => return Err(e),
    };
    let year_x = match parse_mm(raw_year_x.as_str(), line_number) {
        Ok(v) => v,
        Err(e) => return Err(e),
    };
    let month_x = match parse_mm(raw_month_x.as_str(), line_number) {
        Ok(v) => v,
        Err(e) => return Err(e),
    };
    let value_x = match parse_mm(raw_value_x.as_str(), line_number) {
        Ok(v) => v,
        Err(e) => return Err(e),
    };
    let padding = match parse_mm(raw_padding.as_str(), line_number) {
        Ok(v) => v,
        Err(e) => return Err(e),
    };
    let caption_x = match parse_mm(raw_caption_x.as_str(), line_number) {
        Ok(v) => v,
        Err(e) => return Err(e),
    };
    let ijo_x = match parse_mm(raw_ijo_x.as_str(), line_number) {
        Ok(v) => v,
        Err(e) => return Err(e),
    };
    let font_options = match parse_font_options(parameters, 8, line_number) {
        Ok(v) => v,
        Err(e) => return Err(e),
    };
    Ok(EducationExperience { y, year_x, month_x, value_x, padding, caption_x, ijo_x, font_options })
}

/// Parse a `lines` command line: a stroke count, then pairs of delta
/// fields up to the first `key=value` field, then options.
#[verifier::rlimit(50)]
pub fn parse_lines(parameters: &Vec<String>, line_number: usize) -> (r: Result<Lines, Error>)
    ensures
        r is Ok <==> lines_ok(sview(parameters@)),
        r matches Ok(c) ==> lines_matches(c, sview(parameters@)) && c.wf(),
        r matches Err(e) ==> e@ == lines_err(sview(parameters@), line_number as int),
{
    let ghost fs = sview(parameters@);
    let raw_num = match handle_missing(get_param(parameters, 1), "num", "lines", line_number) {
        Ok(v) => v,
        Err(e) => return Err(e),
    };
    proof {
        assert(fs[1] == parameters@[1]@);
    }
    let mut positions: Vec<Point> = Vec::new();
    let mut i: usize = 2;
    let mut done = false;
    while !done && i + 1 < parameters.len()
        invariant
            fs == sview(parameters@),
            fs.len() == parameters@.len(),
            2 <= i <= parameters@.len(),
            i == 2 + 2 * positions@.len(),
            n_pairs_from(fs, 2) == positions@.len() + n_pairs_from(fs, i as int),
            done ==> n_pairs_from(fs, i as int) == 0,
            forall|p: int|
                0 <= p < positions@.len() ==> mm_ok(#[trigger] fs[2 + 2 * p]) && mm_ok(
                    fs[3 + 2 * p],
                ) && positions@[p].x == mm_val(fs[2 + 2 * p]) && positions@[p].y == mm_val(
                    fs[3 + 2 * p],
                ) && positions@[p].wf(),
        decreases parameters.len() - i, (if done {
            0int
        } else {
            1int
        }),
    {
        let fx = &parameters[i];
        let fy = &parameters[i + 1];
        proof {
            assert(fs[i as int] == parameters@[i as int]@);
            assert(fs[i + 1] == parameters@[i + 1]@);
        }
        if crate::scan::contains_char(fx.as_str(), '=') || crate::scan::contains_char(
            fy.as_str(),
            '=',
        ) {
            done = true;
        } else {
            let ghost p0 = positions@.len() as int;
            let x = match parse_mm(fx.as_str(), line_number) {
                Ok(v) => v,
                Err(e) => {
                    proof {
                        assert(n_pairs_from(fs, i as int) >= 1);
                        assert(p0 < n_pairs_from(fs, 2));
                        assert(!pairs_ok(fs));
                        lemma_pairs_err_skip(fs, 0, p0, line_number as int);
                        assert(pairs_err(fs, p0, line_number as int) == (ErrorV::BadValue {
                            text: fs[i as int],
                            line_number: line_number as int,
                        }));
                    }
                    return Err(e);
                },
            };
            let y = match parse_mm(fy.as_str(), line_number) {
                Ok(v) => v,
                Err(e) => {
                    proof {
                        assert(n_pairs_from(fs, i as int) >= 1);
                        assert(p0 < n_pairs_from(fs, 2));
                        assert(!pairs_ok(fs));
                        lemma_pairs_err_skip(fs, 0, p0, line_number as int);
                        assert(pairs_err(fs, p0, line_number as int) == (ErrorV::BadValue {
                            text: fs[i + 1],
                            line_number: line_number as int,
                        }));
                    }
                    return Err(e);
                },
            };
            positions.push(Point { x, y });
            i = i + 2;
        }
    }
    proof {
        if !done {
            assert(n_pairs_from(fs, i as int) == 0);
        }
        assert(n_pairs_from(fs, 2) == positions@.len());
        assert(lines_opts_start(fs) == i as int);
        assert(pairs_ok(fs));
    }
    let opts_start = i;
    let mut close: Option<bool> = None;
    let mut j = opts_start;
    proof {
        assert(fs.take(j as int).len() <= opts_start as int);
    }
    while j < parameters.len()
        invariant
            fs == sview(parameters@),
            fs.len() == parameters@.len(),
            2 <= opts_start <= j <= parameters.len(),
            opts_start as int == lines_opts_start(fs),
            pairs_ok(fs),
            forall|k: int|
                opts_start <= k < j && is_assign(#[trigger] fs[k]) && field_key(fs[k]) == "close"@
                    ==> bool_ok(field_val(fs[k])),
            match close {
                None => opt_lookup(fs.take(j as int), opts_start as int, "close"@) is None,
                Some(b) => opt_lookup(fs.take(j as int), opts_start as int, "close"@) matches Some(
                    t,
                ) && bool_ok(t) && b == bool_val(t),
            },
        decreases parameters.len() - j,
    {
        proof {
            assert(fs[j as int] == parameters@[j as int]@);
            crate::options::lemma_opt_lookup_step(fs, opts_start as int, "close"@, j as int);
        }
        let field = &parameters[j];
        match split_assign(field.as_str()) {
            None => {},
            Some((key, val)) => {
                if string_eq(key.as_str(), "close") {
                    proof {
                        reveal_strlit("close");
                        lemma_first_sep(field@, '=');
                        assert(field_key(field@).len() == first_sep(field@, '='));
                        assert(first_sep(field@, '=') == 5);
                        assert(field@.take(5int) == "close"@);
                        assert(field@[5] == '=');
                        assert(strip_key("close"@, field@) =~= field_val(field@));
                    }
                    match parse_option("close", field.as_str(), line_number) {
                        Ok(b) => {
                            close = Some(b);
                        },
                        Err(e) => {
                            proof {
                                lemma_closes_err_skip(
                                    fs,
                                    opts_start as int,
                                    j as int,
                                    line_number as int,
                                );
                                assert(!bool_ok(field_val(fs[j as int])));
                                assert(!closes_ok(fs, opts_start as int));
                                assert(closes_err(fs, j as int, line_number as int)
                                    == (ErrorV::BadOption {
                                    key: "close"@,
                                    text: field_val(fs[j as int]),
                                    line_number: line_number as int,
                                }));
                                assert(e@ == (ErrorV::BadOption {
                                    key: "close"@,
                                    text: field_val(fs[j as int]),
                                    line_number: line_number as int,
                                }));
                            }
                            return Err(e);
                        },
                    }
                }
            },
        }
        j = j + 1;
    }
    proof {
        assert(fs.take(parameters@.len() as int) =~= fs);
        assert(closes_ok(fs, opts_start as int));
    }
    let stroke_number = match parse_u32(raw_num.as_str()) {
        Some(v) => v,
        None => {
            return Err(Error::BadValue { text: raw_num.clone(), line_number });
        },
    };
    let line_options = match parse_line_options(parameters, opts_start, line_number) {
        Ok(v) => v,
        Err(e) => return Err(e),
    };
    Ok(Lines { stroke_number, positions, line_options, close })
}

/// A line the parser passes over: blank, or a `#` comment.
pub open spec fn skip_line(l: Seq<char>) -> bool {
    l.len() == 0 || l[0] == '#'
}

/// Whether an effective line parses, by its leading keyword.
pub open spec fn line_ok(l: Seq<char>) -> bool {
    let fs = line_fields(l);
    if fs[0] == "string"@ {
        string_ok(fs)
    } else if fs[0] == "line"@ {
        line_cmd_ok(fs)
    } else if fs[0] == "box"@ {
        box_ok(fs)
    } else if fs[0] == "photo"@ {
        photo_ok(fs)
    } else if fs[0] == "new_page"@ {
        true
    } else if fs[0] == "textbox"@ {
        textbox_ok(fs)
    } else if fs[0] == "multi_lines"@ {
        multilines_ok(fs)
    } else if fs[0] == "ymbox"@ {
        ymbox_ok(fs)
    } else if fs[0] == "miscbox"@ {
        miscbox_ok(fs)
    } else if fs[0] == "history"@ {
        history_ok(fs)
    } else if fs[0] == "education_experience"@ {
        eduexp_ok(fs)
    } else if fs[0] == "lines"@ {
        lines_ok(fs)
    } else {
        false
    }
}

/// The diagnostic for an effective line that does not parse.
pub open spec fn line_err(l: Seq<char>, n: int) -> ErrorV {
    let fs = line_fields(l);
    if fs[0] == "string"@ {
        string_err(fs, n)
    } else if fs[0] == "line"@ {
        line_cmd_err(fs, n)
    } else if fs[0] == "box"@ {
        box_err(fs, n)
    } else if fs[0] == "photo"@ {
        photo_err(fs, n)
    } else if fs[0] == "new_page"@ {
        ErrorV::NoPositions
    } else if fs[0] == "textbox"@ {
        textbox_err(fs, n)
    } else if fs[0] == "multi_lines"@ {
        multilines_err(fs, n)
    } else if fs[0] == "ymbox"@ {
        ymbox_err(fs, n)
    } else if fs[0] == "miscbox"@ {
        miscbox_err(fs, n)
    } else if fs[0] == "history"@ {
        history_err(fs, n)
    } else if fs[0] == "education_experience"@ {
        eduexp_err(fs, n)
    } else if fs[0] == "lines"@ {
        lines_err(fs, n)
    } else {
        ErrorV::UnknownCommand { keyword: fs[0], line_number: n }
    }
}

/// The command a parsed effective line denotes.
pub open spec fn cmd_matches(c: Command, l: Seq<char>) -> bool {
    let fs = line_fields(l);
    match c {
        Command::Text(t) => fs[0] == "string"@ && string_matches(t, fs),
        Command::Line(t) => fs[0] == "line"@ && line_cmd_matches(t, fs),
        Command::BoxCommand(t) => fs[0] == "box"@ && box_matches(t, fs),
        Command::Photo(t) => fs[0] == "photo"@ && photo_matches(t, fs),
        Command::NewPage => fs[0] == "new_page"@,
        Command::TextBox(t) => fs[0] == "textbox"@ && textbox_matches(t, fs),
        Command::MultiLines(t) => fs[0] == "multi_lines"@ && multilines_matches(t, fs),
        Command::YMBox(t) => fs[0] == "ymbox"@ && ymbox_matches(t, fs),
        Command::MiscBox(t) => fs[0] == "miscbox"@ && miscbox_matches(t, fs),
        Command::History(t) => fs[0] == "history"@ && history_matches(t, fs),
        Command::EducationExperience(t) => fs[0] == "education_experience"@ && eduexp_matches(
            t,
            fs,
        ),
        Command::Lines(t) => fs[0] == "lines"@ && lines_matches(t, fs),
    }
}

/// Every effective line of the script parses.
pub open spec fn script_ok(lines: Seq<Seq<char>>) -> bool {
    forall|i: int|
        0 <= i < lines.len() && !skip_line(#[trigger] lines[i]) ==> line_ok(lines[i])
}

/// How many commands the first `n` lines yield: one per effective line.
pub open spec fn n_cmds_upto(lines: Seq<Seq<char>>, n: int) -> int
    decreases n,
{
    if n <= 0 {
        0
    } else {
        n_cmds_upto(lines, n - 1) + if skip_line(lines[n - 1]) {
            0int
        } else {
            1int
        }
    }
}

/// The first line at or after `i` that is effective and does not parse,
/// or the line count if every one parses.
pub open spec fn first_bad_from(lines: Seq<Seq<char>>, i: int) -> int
    decreases lines.len() - i,
{
    if i < 0 || i >= lines.len() {
        lines.len() as int
    } else if !skip_line(lines[i]) && !line_ok(lines[i]) {
        i
    } else {
        first_bad_from(lines, i + 1)
    }
}

/// Command counts lie between zero and the line count.
proof fn lemma_n_cmds_bounds(lines: Seq<Seq<char>>, n: int)
    requires
        0 <= n <= lines.len(),
    ensures
        0 <= n_cmds_upto(lines, n) <= n,
    decreases n,
{
    if n > 0 {
        lemma_n_cmds_bounds(lines, n - 1);
    }
}

/// An effective line strictly increases the command count.
proof fn lemma_n_cmds_mono(lines: Seq<Seq<char>>, j: int, i: int)
    requires
        0 <= j < i <= lines.len(),
        !skip_line(lines[j]),
    ensures
        n_cmds_upto(lines, j) < n_cmds_upto(lines, i),
    decreases i - j,
{
    if i > j + 1 {
        lemma_n_cmds_mono(lines, j, i - 1);
    }
}

/// Good lines do not change which line fails first.
proof fn lemma_first_bad_skip(lines: Seq<Seq<char>>, from: int, i: int)
    requires
        0 <= from <= i <= lines.len(),
        forall|j: int| from <= j < i ==> skip_line(#[trigger] lines[j]) || line_ok(lines[j]),
    ensures
        first_bad_from(lines, from) == first_bad_from(lines, i),
    decreases i - from,
{
    if from < i {
        lemma_first_bad_skip(lines, from + 1, i);
    }
}

/// Lines that are all skipped yield no commands.
proof fn lemma_n_cmds_all_skip(lines: Seq<Seq<char>>, n: int)
    requires
        0 <= n <= lines.len(),
        forall|i: int| 0 <= i < n ==> skip_line(#[trigger] lines[i]),
    ensures
        n_cmds_upto(lines, n) == 0,
    decreases n,
{
    if n > 0 {
        lemma_n_cmds_all_skip(lines, n - 1);
    }
}

/// A script consisting solely of comments and blank lines parses to an
/// empty command sequence without error: by [`read`]'s contract it
/// returns `Ok` of a sequence of length zero.
pub proof fn lemma_comments_only(text: Seq<char>)
    requires
        forall|i: int|
            0 <= i < spec_lines(text).len() ==> skip_line(#[trigger] spec_lines(text)[i]),
    ensures
        script_ok(spec_lines(text)),
        n_cmds_upto(spec_lines(text), spec_lines(text).len() as int) == 0,
{
    lemma_n_cmds_all_skip(spec_lines(text), spec_lines(text).len() as int);
}

/// Read a whole style script into its command sequence, in file order.
///
/// Lines are handled independently: comments and blank lines are skipped,
/// every other line is dispatched on its leading keyword.  The first line
/// that fails aborts the read with its diagnostic; line numbers count from
/// zero over all lines, skipped ones included.
pub fn read(text: &str) -> (r: Result<Vec<Command>, Error>)
    ensures
        r is Ok <==> script_ok(spec_lines(text@)),
        r matches Ok(cs) ==> {
            let lv = spec_lines(text@);
            &&& cs@.len() == n_cmds_upto(lv, lv.len() as int)
            &&& forall|j: int|
                0 <= j < lv.len() && !skip_line(#[trigger] lv[j]) ==> cmd_matches(
                    cs@[n_cmds_upto(lv, j)],
                    lv[j],
                )
            &&& forall|k: int| 0 <= k < cs@.len() ==> (#[trigger] cs@[k]).wf()
        },
        r matches Err(e) ==> {
            let lv = spec_lines(text@);
            &&& first_bad_from(lv, 0) < lv.len()
            &&& e@ == line_err(lv[first_bad_from(lv, 0)], first_bad_from(lv, 0))
        },
{
    let lines = split_lines(text);
    let ghost lv = spec_lines(text@);
    let mut items: Vec<Command> = Vec::new();
    let mut i: usize = 0;
    while i < lines.len()
        invariant
            sview(lines@) == lv,
            lv == spec_lines(text@),
            lines@.len() == lv.len(),
            i <= lines.len(),
            items@.len() == n_cmds_upto(lv, i as int),
            forall|j: int|
                0 <= j < i && !skip_line(#[trigger] lv[j]) ==> line_ok(lv[j]) && cmd_matches(
                    items@[n_cmds_upto(lv, j)],
                    lv[j],
                ),
            forall|k: int| 0 <= k < items@.len() ==> (#[trigger] items@[k]).wf(),
        decreases lines.len() - i,
    {
        let line = &lines[i];
        proof {
            assert(lv[i as int] == lines@[i as int]@);
        }
        let llen = line.as_str().unicode_len();
        let is_skip = llen == 0 || line.as_str().get_char(0) == '#';
        if !is_skip {
            let fields = split_str(line.as_str(), ',');
            proof {
                lemma_split_nonempty(line@, ',');
                assert(sview(fields@).len() == fields@.len());
                assert(sview(fields@)[0] == fields@[0]@);
                assert(sview(fields@) == line_fields(lv[i as int]));
                lemma_first_bad_skip(lv, 0, i as int);
            }
            let kw = &fields[0];
            let cmd: Command;
            if string_eq(kw.as_str(), "string") {
                cmd = match parse_string(&fields, i) {
                    Ok(c) => Command::Text(c),
                    Err(e) => return Err(e),
                };
            } else if string_eq(kw.as_str(), "line") {
                cmd = match parse_line(&fields, i) {
                    Ok(c) => Command::Line(c),
                    Err(e) => return Err(e),
                };
            } else if string_eq(kw.as_str(), "box") {
                cmd = match parse_box(&fields, i) {
                    Ok(c) => Command::BoxCommand(c),
                    Err(e) => return Err(e),
                };
            } else if string_eq(kw.as_str(), "photo") {
                cmd = match parse_photo(&fields, i) {
                    Ok(c) => Command::Photo(c),
                    Err(e) => return Err(e),
                };
            } else if string_eq(kw.as_str(), "new_page") {
                cmd = Command::NewPage;
            } else if string_eq(kw.as_str(), "textbox") {
                cmd = match parse_textbox(&fields, i) {
                    Ok(c) => Command::TextBox(c),
                    Err(e) => return Err(e),
                };
            } else if string_eq(kw.as_str(), "multi_lines") {
                cmd = match parse_multilines(&fields, i) {
                    Ok(c) => Command::MultiLines(c),
                    Err(e) => return Err(e),
                };
            } else if string_eq(kw.as_str(), "ymbox") {
                cmd = match parse_ymbox(&fields, i) {
                    Ok(c) => Command::YMBox(c),
                    Err(e) => return Err(e),
                };
            } else if string_eq(kw.as_str(), "miscbox") {
                cmd = match parse_miscbox(&fields, i) {
                    Ok(c) => Command::MiscBox(c),
                    Err(e) => return Err(e),
                };
            } else if string_eq(kw.as_str(), "history") {
                cmd = match parse_history(&fields, i) {
                    Ok(c) => Command::History(c),
                    Err(e) => return Err(e),
                };
            } else if string_eq(kw.as_str(), "education_experience") {
                cmd = match parse_education_experience(&fields, i) {
                    Ok(c) => Command::EducationExperience(c),
                    Err(e) => return Err(e),
                };
            } else if string_eq(kw.as_str(), "lines") {
                cmd = match parse_lines(&fields, i) {
                    Ok(c) => Command::Lines(c),
                    Err(e) => return Err(e),
                };
            } else {
                return Err(Error::UnknownCommand { keyword: kw.clone(), line_number: i });
            }
            let ghost old_items = items@;
            items.push(cmd);
            proof {
                assert(items@.len() == n_cmds_upto(lv, i + 1));
                assert forall|j: int|
                    0 <= j < i + 1 && !skip_line(#[trigger] lv[j]) implies line_ok(lv[j])
                    && cmd_matches(items@[n_cmds_upto(lv, j)], lv[j]) by {
                    if j < i {
                        lemma_n_cmds_bounds(lv, j);
                        lemma_n_cmds_mono(lv, j, i as int);
                        assert(items@[n_cmds_upto(lv, j)] == old_items[n_cmds_upto(lv, j)]);
                    } else {
                        assert(n_cmds_upto(lv, i as int) == old_items.len());
                        assert(items@[old_items.len() as int] == cmd);
                    }
                }
            }
        }
        i = i + 1;
    }
    proof {
        assert(script_ok(lv));
    }
    Ok(items)
}

} // verus!
