//! The closed set of drawing commands a style script can contain.
//!
//! Each variant is a plain data record of positions, sizes and options.
//! Fields named as deltas (`end_position`, `direction`, `position_offset`,
//! the tail of `positions`) are relative displacements, not absolute
//! positions; the layout engine preserves that distinction and never adds
//! the page margin to a delta.  Every length field produced by the parser
//! lies inside the parsed-length domain, which the well-formedness
//! predicates below record.

use vstd::prelude::*;

use crate::geom::{in_len_range, Point, Size};
use crate::options::{FontOptions, LineOptions};

verus! {

/// A string drawn left-anchored at a position; embedded newlines wrap
/// downward by one font-size step per line.
#[derive(Debug, PartialEq, Eq)]
pub struct Text {
    pub position: Point,
    pub value: String,
    pub font_options: FontOptions,
}

/// A stroke from `start_position` to `start_position + end_position`;
/// the second field is a relative displacement.
#[derive(Debug, PartialEq, Eq)]
pub struct Line {
    pub start_position: Point,
    pub end_position: Point,
    pub line_options: LineOptions,
}

/// An unfilled rectangle outline with corners at `position` and
/// `position + size`.
#[derive(Debug, PartialEq, Eq)]
pub struct BoxCommand {
    pub position: Point,
    pub size: Size,
    pub line_options: LineOptions,
}

/// The fixed external photograph, scaled to the declared size.
#[derive(Debug, PartialEq, Eq)]
pub struct Photo {
    pub position: Point,
    pub size: Size,
}

/// A rectangle outline with a value drawn at its centre; `position` is the
/// box's top-left corner.
#[derive(Debug, PartialEq, Eq)]
pub struct TextBox {
    pub position: Point,
    pub size: Size,
    pub value: String,
    pub font_options: FontOptions,
}

/// `stroke_number` parallel strokes of extent `direction`, the start
/// advancing by `position_offset` after each stroke.
#[derive(Debug, PartialEq, Eq)]
pub struct MultiLines {
    pub start_position: Point,
    pub direction: Point,
    pub stroke_number: u32,
    pub position_offset: Point,
}

/// A titled year/month table region; parsed and forwarded, rendering is an
/// open extension point.
#[derive(Debug, PartialEq, Eq)]
pub struct YMBox {
    pub title: String,
    pub height: i64,
    pub num: u32,
    pub value: String,
}

/// A titled auxiliary box; parsed and forwarded, rendering is an open
/// extension point.
#[derive(Debug, PartialEq, Eq)]
pub struct MiscBox {
    pub title: String,
    pub y: i64,
    pub height: i64,
    pub value: String,
}

/// A column-aligned table of dated entries bound to a `$`-list variable,
/// stepping down by `padding` per row.
#[derive(Debug, PartialEq, Eq)]
pub struct History {
    pub y: i64,
    pub year_x: i64,
    pub month_x: i64,
    pub value_x: i64,
    pub padding: i64,
    pub value: String,
    pub font_options: FontOptions,
}

/// Two stacked captioned tables bound to the education and experience
/// lists; the second starts where the first ended.
#[derive(Debug, PartialEq, Eq)]
pub struct EducationExperience {
    pub y: i64,
    pub year_x: i64,
    pub month_x: i64,
    pub value_x: i64,
    pub padding: i64,
    pub caption_x: i64,
    pub ijo_x: i64,
    pub font_options: FontOptions,
}

/// A polyline: the first entry of `positions` is an absolute start, each
/// later entry a delta added to the previous vertex; closed back to the
/// start unless `close` is false.
#[derive(Debug, PartialEq, Eq)]
pub struct Lines {
    pub stroke_number: u32,
    pub positions: Vec<Point>,
    pub line_options: LineOptions,
    pub close: Option<bool>,
}

/// One parsed instruction of a style script.
#[derive(Debug, PartialEq, Eq)]
pub enum Command {
    Text(Text),
    Line(Line),
    BoxCommand(BoxCommand),
    Photo(Photo),
    NewPage,
    TextBox(TextBox),
    MultiLines(MultiLines),
    YMBox(YMBox),
    MiscBox(MiscBox),
    History(History),
    EducationExperience(EducationExperience),
    Lines(Lines),
}

impl Text {
    pub open spec fn wf(self) -> bool {
        self.position.wf() && self.font_options.wf()
    }
}

impl Line {
    pub open spec fn wf(self) -> bool {
        self.start_position.wf() && self.end_position.wf() && self.line_options.wf()
    }
}

impl BoxCommand {
    pub open spec fn wf(self) -> bool {
        self.position.wf() && self.size.wf() && self.line_options.wf()
    }
}

impl Photo {
    pub open spec fn wf(self) -> bool {
        self.position.wf() && self.size.wf()
    }
}

impl TextBox {
    pub open spec fn wf(self) -> bool {
        self.position.wf() && self.size.wf() && self.font_options.wf()
    }
}

impl MultiLines {
    pub open spec fn wf(self) -> bool {
        self.start_position.wf() && self.direction.wf() && self.position_offset.wf()
    }
}

impl YMBox {
    pub open spec fn wf(self) -> bool {
        in_len_range(self.height as int)
    }
}

impl MiscBox {
    pub open spec fn wf(self) -> bool {
        in_len_range(self.y as int) && in_len_range(self.height as int)
    }
}

impl History {
    pub open spec fn wf(self) -> bool {
        &&& in_len_range(self.y as int)
        &&& in_len_range(self.year_x as int)
        &&& in_len_range(self.month_x as int)
        &&& in_len_range(self.value_x as int)
        &&& in_len_range(self.padding as int)
        &&& self.font_options.wf()
    }
}

impl EducationExperience {
    pub open spec fn wf(self) -> bool {
        &&& in_len_range(self.y as int)
        &&& in_len_range(self.year_x as int)
        &&& in_len_range(self.month_x as int)
        &&& in_len_range(self.value_x as int)
        &&& in_len_range(self.padding as int)
        &&& in_len_range(self.caption_x as int)
        &&& in_len_range(self.ijo_x as int)
        &&& self.font_options.wf()
    }
}

impl Lines {
    pub open spec fn wf(self) -> bool {
        &&& forall|k: int| 0 <= k < self.positions@.len() ==> (#[trigger] self.positions@[k]).wf()
        &&& self.line_options.wf()
    }
}

/// Whether a length lies in the parsed-length domain, decided at run
/// time; lets unverified callers establish the layout engine's
/// precondition on commands they built themselves.
fn len_ok(v: i64) -> (r: bool)
    ensures
        r == in_len_range(v as int),
{
    -crate::geom::LEN_LIMIT <= v && v <= crate::geom::LEN_LIMIT
}

fn point_ok(p: &Point) -> (r: bool)
    ensures
        r == p.wf(),
{
    len_ok(p.x) && len_ok(p.y)
}

fn size_ok(s: &Size) -> (r: bool)
    ensures
        r == s.wf(),
{
    len_ok(s.width) && len_ok(s.height)
}

fn font_options_ok(fo: &crate::options::FontOptions) -> (r: bool)
    ensures
        r == fo.wf(),
{
    match fo.font_size {
        Some(v) => len_ok(v),
        None => true,
    }
}

fn line_options_ok(lo: &crate::options::LineOptions) -> (r: bool)
    ensures
        r == lo.wf(),
{
    match lo.line_width {
        Some(v) => len_ok(v),
        None => true,
    }
}

impl Command {
    /// Decide well-formedness at run time: true exactly when [`Self::wf`]
    /// holds, so callers outside the verified world can check a command
    /// they assembled by hand before rendering it.
    pub fn wf_check(&self) -> (r: bool)
        ensures
            r == self.wf(),
    {
        match self {
            Command::Text(c) => point_ok(&c.position) && font_options_ok(&c.font_options),
            Command::Line(c) => point_ok(&c.start_position) && point_ok(&c.end_position)
                && line_options_ok(&c.line_options),
            Command::BoxCommand(c) => point_ok(&c.position) && size_ok(&c.size) && line_options_ok(
                &c.line_options,
            ),
            Command::Photo(c) => point_ok(&c.position) && size_ok(&c.size),
            Command::NewPage => true,
            Command::TextBox(c) => point_ok(&c.position) && size_ok(&c.size) && font_options_ok(
                &c.font_options,
            ),
            Command::MultiLines(c) => point_ok(&c.start_position) && point_ok(&c.direction)
                && point_ok(&c.position_offset),
            Command::YMBox(c) => len_ok(c.height),
            Command::MiscBox(c) => len_ok(c.y) && len_ok(c.height),
            Command::History(c) => len_ok(c.y) && len_ok(c.year_x) && len_ok(c.month_x) && len_ok(
                c.value_x,
            ) && len_ok(c.padding) && font_options_ok(&c.font_options),
            Command::EducationExperience(c) => len_ok(c.y) && len_ok(c.year_x) && len_ok(c.month_x)
                && len_ok(c.value_x) && len_ok(c.padding) && len_ok(c.caption_x) && len_ok(c.ijo_x)
                && font_options_ok(&c.font_options),
            Command::Lines(c) => {
                if !line_options_ok(&c.line_options) {
                    return false;
                }
                let mut i: usize = 0;
                while i < c.positions.len()
                    invariant
                        *self == Command::Lines(*c),
                        c.line_options.wf(),
                        i <= c.positions@.len(),
                        forall|k: int| 0 <= k < i ==> (#[trigger] c.positions@[k]).wf(),
                    decreases c.positions@.len() - i,
                {
                    if !point_ok(&c.positions[i]) {
                        return false;
                    }
                    i = i + 1;
                }
                true
            },
        }
    }

    /// Every length field of the command lies in the parsed-length domain.
    pub open spec fn wf(self) -> bool {
        match self {
            Command::Text(c) => c.wf(),
            Command::Line(c) => c.wf(),
            Command::BoxCommand(c) => c.wf(),
            Command::Photo(c) => c.wf(),
            Command::NewPage => true,
            Command::TextBox(c) => c.wf(),
            Command::MultiLines(c) => c.wf(),
            Command::YMBox(c) => c.wf(),
            Command::MiscBox(c) => c.wf(),
            Command::History(c) => c.wf(),
            Command::EducationExperience(c) => c.wf(),
            Command::Lines(c) => c.wf(),
        }
    }
}

} // verus!
