//! The layout engine: plays a command sequence back against the data
//! record, producing the ordered list of document-sink calls.
//!
//! The sink is an external collaborator owning pages, fonts and images;
//! the engine only decides *what* is drawn *where*.  It starts on the
//! first page; a [`SinkOp::NextPage`] call advances to a fresh page and
//! every later call targets it — the engine's only state.  The fixed page
//! margin is added to every absolute coordinate here, exactly once, and
//! never to a delta.

use vstd::prelude::*;
use vstd::string::*;

use crate::command::{
    BoxCommand, Command, EducationExperience, History, Line, Lines, MiscBox, MultiLines, Photo,
    Text, TextBox, YMBox,
};
use crate::error::{Error, ErrorV};
use crate::geom::{in_len_range, Point, LEN_LIMIT};
use crate::options::{FontOptions, LineOptions, LineStyle};
use crate::record::{list_lookup, resolve_scalar, Entry, Record};
use crate::scan::{spec_split, split_str};

verus! {

/// The fixed page inset, in thousandths of a millimetre (12.7mm).
pub const MARGIN: i64 = 12_700;

/// The default font size, in thousandths of a point (12pt).
pub const DEFAULT_FONT_SIZE: i64 = 12_000;

/// The default stroke width, in thousandths (0.5).
pub const DEFAULT_LINE_WIDTH: i64 = 500;

/// The fixed registry of embedded typefaces.
#[derive(Clone, Copy, PartialEq, Eq, Structural, Debug)]
pub enum FontId {
    /// The built-in serif-like face, the default.
    Mincho,
    /// The built-in sans-like face.
    Gothic,
}

/// One call on the document sink.  Coordinates are absolute page
/// positions in thousandths of a millimetre, margin already applied.
#[derive(Debug, PartialEq, Eq)]
pub enum SinkOp {
    /// Place one line of text, left-anchored at `position`.
    TextRun { position: Point, text: String, font: FontId, font_size: i64 },
    /// Stroke a polyline through `points`, closed back to the first point
    /// when `closed`; width in thousandths.
    Polyline { points: Vec<Point>, closed: bool, line_width: i64, dashed: bool },
    /// Place the fixed external image, scale factors in millionths.
    Image { position: Point, scale_x: i64, scale_y: i64 },
    /// Advance to a fresh page; later calls target it.
    NextPage,
}

/// Specification-level image of a [`SinkOp`].
#[verifier::ext_equal]
pub enum SinkOpV {
    TextRun { position: Point, text: Seq<char>, font: FontId, font_size: int },
    Polyline { points: Seq<Point>, closed: bool, line_width: int, dashed: bool },
    Image { position: Point, scale_x: int, scale_y: int },
    NextPage,
}

impl View for SinkOp {
    type V = SinkOpV;

    open spec fn view(&self) -> SinkOpV {
        match self {
            SinkOp::TextRun { position, text, font, font_size } => SinkOpV::TextRun {
                position: *position,
                text: text@,
                font: *font,
                font_size: *font_size as int,
            },
            SinkOp::Polyline { points, closed, line_width, dashed } => SinkOpV::Polyline {
                points: points@,
                closed: *closed,
                line_width: *line_width as int,
                dashed: *dashed,
            },
            SinkOp::Image { position, scale_x, scale_y } => SinkOpV::Image {
                position: *position,
                scale_x: *scale_x as int,
                scale_y: *scale_y as int,
            },
            SinkOp::NextPage => SinkOpV::NextPage,
        }
    }
}

/// The views of a sequence of sink calls.
pub open spec fn ops_view(v: Seq<SinkOp>) -> Seq<SinkOpV> {
    v.map_values(|o: SinkOp| o@)
}

/// The face a name denotes in the fixed registry.
pub open spec fn font_of(name: Seq<char>) -> Option<FontId> {
    if name == "mincho"@ {
        Some(FontId::Mincho)
    } else if name == "gothic"@ {
        Some(FontId::Gothic)
    } else {
        None
    }
}

/// The face that text options resolve to: the default serif face when
/// none is named, otherwise the named face, which must be registered.
pub open spec fn font_result(fo: FontOptions) -> Result<FontId, ErrorV> {
    match fo.font_face {
        None => Ok(FontId::Mincho),
        Some(f) => match font_of(f@) {
            Some(id) => Ok(id),
            None => Err(ErrorV::UnknownFont { name: f@ }),
        },
    }
}

/// The effective font size: the stated default when unset.
pub open spec fn eff_font_size(fo: FontOptions) -> int {
    match fo.font_size {
        None => DEFAULT_FONT_SIZE as int,
        Some(v) => v as int,
    }
}

/// The effective stroke width: the stated default when unset.
pub open spec fn eff_line_width(lo: LineOptions) -> int {
    match lo.line_width {
        None => DEFAULT_LINE_WIDTH as int,
        Some(v) => v as int,
    }
}

/// Whether the effective stroke style is dashed; solid is the default.
pub open spec fn eff_dashed(lo: LineOptions) -> bool {
    match lo.line_style {
        None => false,
        Some(s) => s == LineStyle::Dashed,
    }
}

/// A font size in thousandths of a point converted to thousandths of a
/// millimetre: multiplied by 127/360 (that is, 25.4/72), truncated toward
/// zero.
pub open spec fn pt_to_mm(v: int) -> int {
    if v >= 0 {
        v * 127 / 360
    } else {
        -((-v) * 127 / 360)
    }
}

/// A third of a length, truncated toward zero.
pub open spec fn third(v: int) -> int {
    if v >= 0 {
        v / 3
    } else {
        -((-v) / 3)
    }
}

/// Half of a length, truncated toward zero.
pub open spec fn half(v: int) -> int {
    if v >= 0 {
        v / 2
    } else {
        -((-v) / 2)
    }
}

/// Look a face name up in the fixed font registry.
pub fn handle_font(name: &str) -> (r: Result<FontId, Error>)
    ensures
        r is Ok <==> font_of(name@) is Some,
        r matches Ok(id) ==> font_of(name@) == Some(id),
        r matches Err(e) ==> e@ == (ErrorV::UnknownFont { name: name@ }),
{
    if crate::scan::string_eq(name, "mincho") {
        Ok(FontId::Mincho)
    } else if crate::scan::string_eq(name, "gothic") {
        Ok(FontId::Gothic)
    } else {
        Err(Error::UnknownFont { name: name.to_owned() })
    }
}

/// The face of a command's text options, defaulting to the serif face.
fn resolve_font(fo: &FontOptions) -> (r: Result<FontId, Error>)
    ensures
        r is Ok <==> font_result(*fo) is Ok,
        r matches Ok(id) ==> font_result(*fo) == Ok::<FontId, ErrorV>(id),
        r matches Err(e) ==> font_result(*fo) == Err::<FontId, ErrorV>(e@),
{
    match &fo.font_face {
        None => Ok(FontId::Mincho),
        Some(f) => handle_font(f.as_str()),
    }
}

/// Convert an optional font size in thousandths of a point to thousandths
/// of a millimetre, applying the default.
pub fn font_size_to_mm(font_size: &Option<i64>) -> (r: i64)
    requires
        font_size matches Some(v) ==> in_len_range(v as int),
    ensures
        r == pt_to_mm(
            match font_size {
                Some(v) => *v as int,
                None => DEFAULT_FONT_SIZE as int,
            },
        ),
        -LEN_LIMIT <= r <= LEN_LIMIT,
{
    let v: i64 = match font_size {
        Some(v) => *v,
        None => DEFAULT_FONT_SIZE,
    };
    if v >= 0 {
        let m = ((v as u64) * 127 / 360) as i64;
        proof {
            assert(m == pt_to_mm(v as int));
            assert(v * 127 / 360 <= v) by (nonlinear_arith)
                requires
                    v >= 0,
            ;
        }
        m
    } else {
        let m = (((-v) as u64) * 127 / 360) as i64;
        proof {
            assert((-v) * 127 / 360 <= -v) by (nonlinear_arith)
                requires
                    v < 0,
            ;
        }
        -m
    }
}

/// A third of a length, truncated toward zero.
fn third_len(v: i64) -> (r: i64)
    requires
        in_len_range(v as int),
    ensures
        r == third(v as int),
        -LEN_LIMIT <= r <= LEN_LIMIT,
{
    if v >= 0 {
        let m = ((v as u64) / 3) as i64;
        proof {
            assert(v / 3 <= v);
        }
        m
    } else {
        let m = (((-v) as u64) / 3) as i64;
        -m
    }
}

/// Half of a length, truncated toward zero.
fn half_len(v: i64) -> (r: i64)
    requires
        in_len_range(v as int),
    ensures
        r == half(v as int),
        -LEN_LIMIT <= r <= LEN_LIMIT,
{
    if v >= 0 {
        let m = ((v as u64) / 2) as i64;
        proof {
            assert(v / 2 <= v);
        }
        m
    } else {
        let m = (((-v) as u64) / 2) as i64;
        -m
    }
}

/// Subtraction that reports when the result leaves the coordinate range.
fn checked_sub_len(a: i64, b: i64) -> (r: Option<i64>)
    ensures
        r is Some <==> i64::MIN <= a - b <= i64::MAX,
        r matches Some(v) ==> v == a - b,
{
    let w = (a as i128) - (b as i128);
    if w < (i64::MIN as i128) || w > (i64::MAX as i128) {
        None
    } else {
        Some(w as i64)
    }
}

/// The photo scale factor in millionths: the far edge of the declared box
/// over the reference span, truncated toward zero.
pub open spec fn scale_of(size: int, pos: int) -> int {
    let num = pos + size;
    let mag = (if num >= 0 {
        num
    } else {
        -num
    }) * 1_000_000 / (if pos >= 0 {
        pos
    } else {
        -pos
    });
    if (num >= 0) == (pos >= 0) {
        mag
    } else {
        -mag
    }
}

/// Compute a photo scale factor; a zero reference span has none.
pub fn size_to_scale(size: i64, position: i64) -> (r: Result<i64, Error>)
    requires
        in_len_range(size as int),
        in_len_range(position as int),
    ensures
        r is Ok <==> position != 0,
        r matches Ok(v) ==> v == scale_of(size as int, position as int),
        r matches Err(e) ==> e@ == ErrorV::ZeroScaleBase,
{
    if position == 0 {
        return Err(Error::ZeroScaleBase);
    }
    let num: i64 = position + size;
    let num_mag: u64 = if num >= 0 {
        num as u64
    } else {
        (-num) as u64
    };
    let pos_mag: u64 = if position >= 0 {
        position as u64
    } else {
        (-position) as u64
    };
    let mag = (num_mag * 1_000_000 / pos_mag) as i64;
    proof {
        assert((num_mag as int) * 1_000_000 / (pos_mag as int) <= (num_mag as int)
            * 1_000_000) by (nonlinear_arith)
            requires
                pos_mag >= 1,
        ;
    }
    if (num >= 0) == (position >= 0) {
        Ok(mag)
    } else {
        Ok(-mag)
    }
}

/// A point with the page margin added to both coordinates.
pub open spec fn margin_pt(p: Point) -> Point {
    Point { x: (p.x + MARGIN) as i64, y: (p.y + MARGIN) as i64 }
}

/// The baseline of line `k` of a wrapped text block: the margin-adjusted
/// anchor, dropped by `k + 1` font-size steps.
pub open spec fn run_y(y: int, fsm: int, k: int) -> int {
    y + MARGIN - (k + 1) * fsm
}

/// Whether every coordinate of a wrapped text block is representable:
/// the anchor, and each line's baseline one font-size step further down.
pub open spec fn runs_fits(x: int, y: int, fsm: int, n: int) -> bool {
    &&& i64::MIN <= x + MARGIN <= i64::MAX
    &&& i64::MIN <= y + MARGIN <= i64::MAX
    &&& forall|k: int| 0 <= k < n ==> i64::MIN <= #[trigger] run_y(y, fsm, k) <= i64::MAX
}

/// The text runs of a resolved value: one per newline-separated piece,
/// left-anchored at the margin-adjusted position, line `k` dropped by
/// `k + 1` font-size steps.
pub open spec fn text_run_ops(
    x: int,
    y: int,
    pieces: Seq<Seq<char>>,
    font: FontId,
    size: int,
    fsm: int,
) -> Seq<SinkOpV> {
    Seq::new(
        pieces.len(),
        |k: int|
            SinkOpV::TextRun {
                position: Point { x: (x + MARGIN) as i64, y: run_y(y, fsm, k) as i64 },
                text: pieces[k],
                font: font,
                font_size: size,
            },
    )
}

/// The sink calls of an already-resolved text value at a position.
pub open spec fn runs_calls(x: int, y: int, resolved: Seq<char>, fo: FontOptions) -> Result<
    Seq<SinkOpV>,
    ErrorV,
> {
    match font_result(fo) {
        Err(e) => Err(e),
        Ok(font) => {
            let size = eff_font_size(fo);
            let fsm = pt_to_mm(size);
            let pieces = spec_split(resolved, '\n');
            if !runs_fits(x, y, fsm, pieces.len() as int) {
                Err(ErrorV::CoordinateRange)
            } else {
                Ok(text_run_ops(x, y, pieces, font, size, fsm))
            }
        },
    }
}

/// The sink calls of a text value: resolved against the record first.
pub open spec fn text_calls(x: int, y: int, value: Seq<char>, fo: FontOptions, rec: Record) -> Result<
    Seq<SinkOpV>,
    ErrorV,
> {
    match resolve_scalar(value, rec) {
        None => Err(ErrorV::UnknownVariable { name: value }),
        Some(resolved) => runs_calls(x, y, resolved, fo),
    }
}

/// Addition that reports when the result leaves the coordinate range.
fn checked_add_len(a: i64, b: i64) -> (r: Option<i64>)
    ensures
        r is Some <==> i64::MIN <= a + b <= i64::MAX,
        r matches Some(v) ==> v == a + b,
{
    let w = (a as i128) + (b as i128);
    if w < (i64::MIN as i128) || w > (i64::MAX as i128) {
        None
    } else {
        Some(w as i64)
    }
}

/// Emit the text runs of `value` anchored at `(x, y)`: the value is
/// resolved, split on embedded newlines, and each line is placed one
/// font-size step below the previous one.
fn draw_text_at(x: i64, y: i64, value: &String, font_options: &FontOptions, inputs: &Record) -> (r:
    Result<Vec<SinkOp>, Error>)
    requires
        font_options.wf(),
    ensures
        r is Ok <==> text_calls(x as int, y as int, value@, *font_options, *inputs) is Ok,
        r matches Ok(ops) ==> text_calls(x as int, y as int, value@, *font_options, *inputs)
            matches Ok(s) && ops_view(ops@) == s,
        r matches Err(e) ==> text_calls(x as int, y as int, value@, *font_options, *inputs)
            matches Err(ev) && ev == e@,
{
    let resolved = match crate::record::handle_value(value, inputs) {
        Ok(v) => v,
        Err(e) => return Err(e),
    };
    let owned = resolved.clone();
    draw_runs_at(x, y, &owned, font_options)
}

/// Draw a `string` command: its value, resolved, at its position.
pub fn draw_string(string: &Text, inputs: &Record) -> (r: Result<Vec<SinkOp>, Error>)
    requires
        string.wf(),
    ensures
        ({
            let spec_r = text_calls(
                string.position.x as int,
                string.position.y as int,
                string.value@,
                string.font_options,
                *inputs,
            );
            match r {
                Ok(ops) => spec_r matches Ok(s) && ops_view(ops@) == s,
                Err(e) => spec_r matches Err(ev) && ev == e@,
            }
        }),
{
    draw_text_at(string.position.x, string.position.y, &string.value, &string.font_options, inputs)
}

/// Resolve stroke options to their effective width and dash pattern.
pub fn handle_line_options(options: &LineOptions) -> (r: (i64, bool))
    ensures
        r.0 == eff_line_width(*options),
        r.1 == eff_dashed(*options),
{
    let width = match options.line_width {
        Some(v) => v,
        None => DEFAULT_LINE_WIDTH,
    };
    let dashed = match options.line_style {
        Some(LineStyle::Dashed) => true,
        _ => false,
    };
    (width, dashed)
}

/// The sink calls of a `line` command: one open two-point polyline from
/// the start to the start plus the delta.
pub open spec fn line_calls(l: Line) -> Seq<SinkOpV> {
    seq![
        SinkOpV::Polyline {
            points: seq![
                margin_pt(l.start_position),
                margin_pt(crate::geom::spec_add(l.start_position, l.end_position)),
            ],
            closed: false,
            line_width: eff_line_width(l.line_options),
            dashed: eff_dashed(l.line_options),
        },
    ]
}

/// Draw a `line` command; the endpoint is the start plus the delta, both
/// margin-adjusted.
pub fn draw_line(line: &Line) -> (r: Vec<SinkOp>)
    requires
        line.wf(),
    ensures
        ops_view(r@) == line_calls(*line),
{
    let e = line.start_position.add(line.end_position);
    let mut points: Vec<Point> = Vec::new();
    points.push(Point { x: line.start_position.x + MARGIN, y: line.start_position.y + MARGIN });
    points.push(Point { x: e.x + MARGIN, y: e.y + MARGIN });
    let (line_width, dashed) = handle_line_options(&line.line_options);
    let mut ops: Vec<SinkOp> = Vec::new();
    ops.push(SinkOp::Polyline { points, closed: false, line_width, dashed });
    proof {
        assert(ops_view(ops@) =~~= line_calls(*line));
    }
    ops
}

/// The sink calls of a `box` command: a closed four-corner outline.
pub open spec fn box_calls(b: BoxCommand) -> Seq<SinkOpV> {
    seq![
        SinkOpV::Polyline {
            points: seq![
                Point {
                    x: (b.position.x + b.size.width + MARGIN) as i64,
                    y: (b.position.y + MARGIN) as i64,
                },
                Point {
                    x: (b.position.x + b.size.width + MARGIN) as i64,
                    y: (b.position.y + b.size.height + MARGIN) as i64,
                },
                Point {
                    x: (b.position.x + MARGIN) as i64,
                    y: (b.position.y + b.size.height + MARGIN) as i64,
                },
                Point { x: (b.position.x + MARGIN) as i64, y: (b.position.y + MARGIN) as i64 },
            ],
            closed: true,
            line_width: eff_line_width(b.line_options),
            dashed: eff_dashed(b.line_options),
        },
    ]
}

/// Draw a `box` command: an unfilled rectangle outline whose corners are
/// the position and the position plus the size.
pub fn draw_box(the_box: &BoxCommand) -> (r: Vec<SinkOp>)
    requires
        the_box.wf(),
    ensures
        ops_view(r@) == box_calls(*the_box),
{
    let x0 = the_box.position.x + MARGIN;
    let y0 = the_box.position.y + MARGIN;
    let x1 = the_box.position.x + the_box.size.width + MARGIN;
    let y1 = the_box.position.y + the_box.size.height + MARGIN;
    let mut points: Vec<Point> = Vec::new();
    points.push(Point { x: x1, y: y0 });
    points.push(Point { x: x1, y: y1 });
    points.push(Point { x: x0, y: y1 });
    points.push(Point { x: x0, y: y0 });
    let (line_width, dashed) = handle_line_options(&the_box.line_options);
    let mut ops: Vec<SinkOp> = Vec::new();
    ops.push(SinkOp::Polyline { points, closed: true, line_width, dashed });
    proof {
        assert(ops_view(ops@) =~~= box_calls(*the_box));
    }
    ops
}

/// The sink calls of a `photo` command: the fixed image at the
/// margin-adjusted position, fitted by the documented scale formula.
pub open spec fn photo_calls(p: Photo) -> Result<Seq<SinkOpV>, ErrorV> {
    if p.position.x == 0 || p.position.y == 0 {
        Err(ErrorV::ZeroScaleBase)
    } else {
        Ok(
            seq![
                SinkOpV::Image {
                    position: margin_pt(p.position),
                    scale_x: scale_of(p.size.width as int, p.position.x as int),
                    scale_y: scale_of(p.size.height as int, p.position.y as int),
                },
            ],
        )
    }
}

/// Draw a `photo` command.
pub fn draw_photo(photo: &Photo) -> (r: Result<Vec<SinkOp>, Error>)
    requires
        photo.wf(),
    ensures
        ({
            let spec_r = photo_calls(*photo);
            match r {
                Ok(ops) => spec_r matches Ok(s) && ops_view(ops@) == s,
                Err(e) => spec_r matches Err(ev) && ev == e@,
            }
        }),
{
    let scale_x = match size_to_scale(photo.size.width, photo.position.x) {
        Ok(v) => v,
        Err(e) => return Err(e),
    };
    let scale_y = match size_to_scale(photo.size.height, photo.position.y) {
        Ok(v) => v,
        Err(e) => return Err(e),
    };
    let mut ops: Vec<SinkOp> = Vec::new();
    ops.push(
        SinkOp::Image {
            position: Point { x: photo.position.x + MARGIN, y: photo.position.y + MARGIN },
            scale_x,
            scale_y,
        },
    );
    proof {
        assert(ops_view(ops@) =~~= photo_calls(*photo)->Ok_0);
    }
    Ok(ops)
}

/// The sink calls of a `textbox` command: the box outline from the
/// top-left convention, then the value's runs anchored at the box centre.
pub open spec fn textbox_outline(tb: TextBox) -> SinkOpV {
    SinkOpV::Polyline {
        points: seq![
            Point {
                x: (tb.position.x + tb.size.width + MARGIN) as i64,
                y: (tb.position.y - tb.size.height + MARGIN) as i64,
            },
            Point {
                x: (tb.position.x + tb.size.width + MARGIN) as i64,
                y: (tb.position.y + MARGIN) as i64,
            },
            Point { x: (tb.position.x + MARGIN) as i64, y: (tb.position.y + MARGIN) as i64 },
            Point {
                x: (tb.position.x + MARGIN) as i64,
                y: (tb.position.y - tb.size.height + MARGIN) as i64,
            },
        ],
        closed: true,
        line_width: DEFAULT_LINE_WIDTH as int,
        dashed: false,
    }
}

pub open spec fn textbox_calls(tb: TextBox, rec: Record) -> Result<Seq<SinkOpV>, ErrorV> {
    match resolve_scalar(tb.value@, rec) {
        None => Err(ErrorV::UnknownVariable { name: tb.value@ }),
        Some(resolved) => {
            let cx = tb.position.x + half(tb.size.width as int);
            let cy = tb.position.y - half(tb.size.height as int);
            match runs_calls(cx, cy, resolved, tb.font_options) {
                Err(e) => Err(e),
                Ok(runs) => Ok(seq![textbox_outline(tb)] + runs),
            }
        },
    }
}

/// Draw a `textbox` command: its outline, and the resolved value anchored
/// at the geometric centre of the box (glyph metrics are the sink's).
pub fn draw_textbox(textbox: &TextBox, inputs: &Record) -> (r: Result<Vec<SinkOp>, Error>)
    requires
        textbox.wf(),
    ensures
        ({
            let spec_r = textbox_calls(*textbox, *inputs);
            match r {
                Ok(ops) => spec_r matches Ok(s) && ops_view(ops@) == s,
                Err(e) => spec_r matches Err(ev) && ev == e@,
            }
        }),
{
    let resolved = match crate::record::handle_value(&textbox.value, inputs) {
        Ok(v) => v,
        Err(e) => return Err(e),
    };
    let resolved_owned = resolved.clone();
    let cx = textbox.position.x + half_len(textbox.size.width);
    let cy = textbox.position.y - half_len(textbox.size.height);
    let runs = match draw_runs_at(cx, cy, &resolved_owned, &textbox.font_options) {
        Ok(v) => v,
        Err(e) => return Err(e),
    };
    let x0 = textbox.position.x + MARGIN;
    let y0 = textbox.position.y + MARGIN;
    let x1 = textbox.position.x + textbox.size.width + MARGIN;
    let yb = textbox.position.y - textbox.size.height + MARGIN;
    let mut points: Vec<Point> = Vec::new();
    points.push(Point { x: x1, y: yb });
    points.push(Point { x: x1, y: y0 });
    points.push(Point { x: x0, y: y0 });
    points.push(Point { x: x0, y: yb });
    let mut ops: Vec<SinkOp> = Vec::new();
    ops.push(
        SinkOp::Polyline { points, closed: true, line_width: DEFAULT_LINE_WIDTH, dashed: false },
    );
    let mut runs_vec = runs;
    ops.append(&mut runs_vec);
    proof {
        assert(ops_view(ops@) =~~= textbox_calls(*textbox, *inputs)->Ok_0);
    }
    Ok(ops)
}

/// Emit the runs of an already-resolved value: no second resolution.
fn draw_runs_at(x: i64, y: i64, resolved: &String, font_options: &FontOptions) -> (r: Result<
    Vec<SinkOp>,
    Error,
>)
    requires
        font_options.wf(),
    ensures
        r is Ok <==> runs_calls(x as int, y as int, resolved@, *font_options) is Ok,
        r matches Ok(ops) ==> runs_calls(x as int, y as int, resolved@, *font_options) matches Ok(
            s,
        ) && ops_view(ops@) == s,
        r matches Err(e) ==> runs_calls(x as int, y as int, resolved@, *font_options) matches Err(
            ev,
        ) && ev == e@,
{
    let font_size: i64 = match &font_options.font_size {
        Some(v) => *v,
        None => DEFAULT_FONT_SIZE,
    };
    let font = match resolve_font(font_options) {
        Ok(f) => f,
        Err(e) => return Err(e),
    };
    let fsm = font_size_to_mm(&font_options.font_size);
    let pieces = split_str(resolved.as_str(), '\n');
    let ghost pv = spec_split(resolved@, '\n');
    let ghost fsz = eff_font_size(*font_options);
    let x_run = match checked_add_len(x, MARGIN) {
        Some(v) => v,
        None => return Err(Error::CoordinateRange),
    };
    let y0 = match checked_add_len(y, MARGIN) {
        Some(v) => v,
        None => return Err(Error::CoordinateRange),
    };
    let mut ops: Vec<SinkOp> = Vec::new();
    let mut y_cur = y0;
    let mut k: usize = 0;
    proof {
        assert(ops_view(ops@) =~= text_run_ops(x as int, y as int, pv, font, fsz, fsm as int).take(
            0,
        ));
    }
    while k < pieces.len()
        invariant
            pieces@.len() == pv.len(),
            crate::scan::sview(pieces@) == pv,
            k <= pieces.len(),
            x_run == x + MARGIN,
            y0 == y + MARGIN,
            y_cur == y0 - k * fsm,
            font_options.wf(),
            fsm == pt_to_mm(fsz),
            -LEN_LIMIT <= fsm <= LEN_LIMIT,
            font_size as int == fsz,
            fsz == eff_font_size(*font_options),
            pv == spec_split(resolved@, '\n'),
            font_result(*font_options) == Ok::<FontId, ErrorV>(font),
            forall|k2: int|
                0 <= k2 < k ==> i64::MIN <= #[trigger] run_y(y as int, fsm as int, k2)
                    <= i64::MAX,
            ops_view(ops@) == text_run_ops(x as int, y as int, pv, font, fsz, fsm as int).take(
                k as int,
            ),
        decreases pieces.len() - k,
    {
        proof {
            assert((k + 1) * fsm == k * fsm + fsm) by (nonlinear_arith);
            assert(run_y(y as int, fsm as int, k as int) == y0 - k * fsm - fsm);
        }
        let y_next = match checked_sub_len(y_cur, fsm) {
            Some(v) => v,
            None => {
                proof {
                    assert(!(i64::MIN <= run_y(y as int, fsm as int, k as int) <= i64::MAX));
                    assert(!runs_fits(x as int, y as int, fsm as int, pv.len() as int));
                }
                return Err(Error::CoordinateRange);
            },
        };
        let piece = pieces[k].clone();
        proof {
            assert(crate::scan::sview(pieces@)[k as int] == pieces@[k as int]@);
        }
        let ghost old_ops = ops@;
        ops.push(
            SinkOp::TextRun { position: Point { x: x_run, y: y_next }, text: piece, font, font_size },
        );
        proof {
            assert(ops_view(old_ops).len() == old_ops.len());
            assert(old_ops.len() == k as int);
            assert(ops_view(ops@) =~= text_run_ops(
                x as int,
                y as int,
                pv,
                font,
                fsz,
                fsm as int,
            ).take(k + 1));
        }
        y_cur = y_next;
        k = k + 1;
    }
    proof {
        assert(runs_fits(x as int, y as int, fsm as int, pv.len() as int));
        assert(text_run_ops(x as int, y as int, pv, font, fsz, fsm as int).take(pv.len() as int)
            =~= text_run_ops(x as int, y as int, pv, font, fsz, fsm as int));
    }
    Ok(ops)
}

/// The sink calls of a `multi_lines` command: stroke `k` runs from the
/// start advanced by `k` offsets, spanning the direction delta.
pub open spec fn multilines_calls(m: MultiLines) -> Seq<SinkOpV> {
    Seq::new(
        m.stroke_number as nat,
        |k: int|
            SinkOpV::Polyline {
                points: seq![
                    Point {
                        x: (m.start_position.x + k * m.position_offset.x + MARGIN) as i64,
                        y: (m.start_position.y + k * m.position_offset.y + MARGIN) as i64,
                    },
                    Point {
                        x: (m.start_position.x + k * m.position_offset.x + m.direction.x
                            + MARGIN) as i64,
                        y: (m.start_position.y + k * m.position_offset.y + m.direction.y
                            + MARGIN) as i64,
                    },
                ],
                closed: false,
                line_width: DEFAULT_LINE_WIDTH as int,
                dashed: false,
            },
    )
}

/// Draw a `multi_lines` command: a fan of parallel strokes, the running
/// start advancing by the offset delta after each one.
pub fn draw_multilines(multilines: &MultiLines) -> (r: Vec<SinkOp>)
    requires
        multilines.wf(),
    ensures
        ops_view(r@) == multilines_calls(*multilines),
{
    let mut ops: Vec<SinkOp> = Vec::new();
    let mut pos = multilines.start_position;
    let mut k: u32 = 0;
    proof {
        assert(ops_view(ops@) =~= multilines_calls(*multilines).take(0));
    }
    while k < multilines.stroke_number
        invariant
            multilines.wf(),
            k <= multilines.stroke_number,
            pos.x == multilines.start_position.x + k * multilines.position_offset.x,
            pos.y == multilines.start_position.y + k * multilines.position_offset.y,
            ops_view(ops@) == multilines_calls(*multilines).take(k as int),
        decreases multilines.stroke_number - k,
    {
        proof {
            assert(-(4294967295int * LEN_LIMIT) <= k * multilines.position_offset.x
                <= 4294967295int * LEN_LIMIT) by (nonlinear_arith)
                requires
                    0 <= k <= 4294967295int,
                    -LEN_LIMIT <= multilines.position_offset.x <= LEN_LIMIT,
            ;
            assert(-(4294967295int * LEN_LIMIT) <= k * multilines.position_offset.y
                <= 4294967295int * LEN_LIMIT) by (nonlinear_arith)
                requires
                    0 <= k <= 4294967295int,
                    -LEN_LIMIT <= multilines.position_offset.y <= LEN_LIMIT,
            ;
        }
        let p1 = Point { x: pos.x + MARGIN, y: pos.y + MARGIN };
        let e = pos.add(multilines.direction);
        let p2 = Point { x: e.x + MARGIN, y: e.y + MARGIN };
        let mut points: Vec<Point> = Vec::new();
        points.push(p1);
        points.push(p2);
        let ghost old_ops = ops@;
        ops.push(
            SinkOp::Polyline { points, closed: false, line_width: DEFAULT_LINE_WIDTH, dashed: false },
        );
        proof {
            assert(ops_view(old_ops).len() == old_ops.len());
            assert(old_ops.len() == k as int);
            assert(ops_view(ops@) =~~= multilines_calls(*multilines).take(k + 1));
            assert((k + 1) * multilines.position_offset.x == k * multilines.position_offset.x
                + multilines.position_offset.x) by (nonlinear_arith);
            assert((k + 1) * multilines.position_offset.y == k * multilines.position_offset.y
                + multilines.position_offset.y) by (nonlinear_arith);
        }
        pos = pos.add(multilines.position_offset);
        k = k + 1;
    }
    proof {
        assert(multilines_calls(*multilines).take(multilines.stroke_number as int)
            =~= multilines_calls(*multilines));
    }
    ops
}

/// The x coordinate of polyline vertex `i`: the absolute, margin-adjusted
/// first point, advanced by the cumulative sum of the later deltas.
pub open spec fn vx(ps: Seq<Point>, i: int) -> int
    decreases i,
{
    if i <= 0 {
        ps[0].x + MARGIN
    } else {
        vx(ps, i - 1) + ps[i].x
    }
}

/// The y coordinate of polyline vertex `i`.
pub open spec fn vy(ps: Seq<Point>, i: int) -> int
    decreases i,
{
    if i <= 0 {
        ps[0].y + MARGIN
    } else {
        vy(ps, i - 1) + ps[i].y
    }
}

/// Every polyline vertex stays within a margin plus one length bound per
/// consumed delta.
proof fn lemma_vertex_bound(ps: Seq<Point>, i: int)
    requires
        forall|k: int| 0 <= k < ps.len() ==> (#[trigger] ps[k]).wf(),
        0 <= i < ps.len(),
    ensures
        -(MARGIN + (i + 1) * LEN_LIMIT) <= vx(ps, i) <= MARGIN + (i + 1) * LEN_LIMIT,
        -(MARGIN + (i + 1) * LEN_LIMIT) <= vy(ps, i) <= MARGIN + (i + 1) * LEN_LIMIT,
    decreases i,
{
    if i > 0 {
        lemma_vertex_bound(ps, i - 1);
    }
}

/// The sink calls of a `lines` command: one polyline through the
/// cumulative vertices, closed unless `close` is false.  An empty vertex
/// list, or a stroke count that disagrees with it, is malformed geometry.
pub open spec fn lines_calls(l: Lines) -> Result<Seq<SinkOpV>, ErrorV> {
    if l.positions@.len() == 0 {
        Err(ErrorV::NoPositions)
    } else if l.stroke_number as int != l.positions@.len() {
        Err(ErrorV::StrokeMismatch)
    } else {
        Ok(
            seq![
                SinkOpV::Polyline {
                    points: Seq::new(
                        l.positions@.len(),
                        |i: int| Point { x: vx(l.positions@, i) as i64, y: vy(l.positions@, i) as i64 },
                    ),
                    closed: match l.close {
                        None => true,
                        Some(b) => b,
                    },
                    line_width: eff_line_width(l.line_options),
                    dashed: eff_dashed(l.line_options),
                },
            ],
        )
    }
}

/// Draw a `lines` command.
pub fn draw_lines(lines: &Lines) -> (r: Result<Vec<SinkOp>, Error>)
    requires
        lines.wf(),
    ensures
        ({
            let spec_r = lines_calls(*lines);
            match r {
                Ok(ops) => spec_r matches Ok(s) && ops_view(ops@) == s,
                Err(e) => spec_r matches Err(ev) && ev == e@,
            }
        }),
{
    let n = lines.positions.len();
    if n == 0 {
        return Err(Error::NoPositions);
    }
    if lines.stroke_number as usize != n {
        return Err(Error::StrokeMismatch);
    }
    let ghost ps = lines.positions@;
    let p0 = lines.positions[0];
    let first = Point { x: p0.x + MARGIN, y: p0.y + MARGIN };
    let mut points: Vec<Point> = Vec::new();
    points.push(first);
    let mut cur = first;
    let mut i: usize = 1;
    while i < n
        invariant
            lines.wf(),
            ps == lines.positions@,
            n == ps.len(),
            lines.stroke_number as int == ps.len(),
            1 <= i <= n,
            points@.len() == i,
            forall|j: int|
                0 <= j < i ==> #[trigger] points@[j] == (Point {
                    x: vx(ps, j) as i64,
                    y: vy(ps, j) as i64,
                }),
            cur.x == vx(ps, i - 1),
            cur.y == vy(ps, i - 1),
        decreases n - i,
    {
        proof {
            lemma_vertex_bound(ps, i - 1);
            assert(ps[i as int].wf());
            assert(i * LEN_LIMIT <= 4294967295int * LEN_LIMIT);
        }
        let d = lines.positions[i];
        let next = Point { x: cur.x + d.x, y: cur.y + d.y };
        points.push(next);
        cur = next;
        i = i + 1;
    }
    let (line_width, dashed) = handle_line_options(&lines.line_options);
    let closed = match lines.close {
        Some(b) => b,
        None => true,
    };
    let mut ops: Vec<SinkOp> = Vec::new();
    ops.push(SinkOp::Polyline { points, closed, line_width, dashed });
    proof {
        assert(ops_view(ops@) =~~= lines_calls(*lines)->Ok_0);
    }
    Ok(ops)
}

/// The character of a decimal digit.
pub open spec fn digit_char(d: int) -> char {
    "0123456789"@[d]
}

/// The decimal text of a month number.
pub open spec fn month_str(m: u8) -> Seq<char> {
    if m < 10 {
        seq![digit_char(m as int)]
    } else if m < 100 {
        seq![digit_char(m as int / 10), digit_char(m as int % 10)]
    } else {
        seq![
            digit_char(m as int / 100),
            digit_char(m as int / 10 % 10),
            digit_char(m as int % 10),
        ]
    }
}

/// Format a month number in decimal.
fn month_to_string(m: u8) -> (r: String)
    ensures
        r@ == month_str(m),
{
    let ds = "0123456789";
    proof {
        reveal_strlit("0123456789");
    }
    let mut s = String::new();
    if m >= 100 {
        let d = (m / 100) as usize;
        let piece = ds.substring_char(d, d + 1);
        proof {
            assert(piece@ =~= seq![digit_char(m as int / 100)]);
        }
        s.append(piece);
    }
    if m >= 10 {
        let d = ((m / 10) % 10) as usize;
        let piece = ds.substring_char(d, d + 1);
        proof {
            assert(piece@ =~= seq![digit_char(m as int / 10 % 10)]);
        }
        s.append(piece);
    }
    let d = (m % 10) as usize;
    let piece = ds.substring_char(d, d + 1);
    proof {
        assert(piece@ =~= seq![digit_char(m as int % 10)]);
    }
    s.append(piece);
    proof {
        assert(s@ =~= month_str(m));
    }
    s
}

/// The year column text of an entry: its year, or nothing.
pub open spec fn entry_year(e: Entry) -> Seq<char> {
    match e.year {
        Some(y) => y@,
        None => Seq::empty(),
    }
}

/// The month column text of an entry: its month in decimal, or nothing.
pub open spec fn entry_month_text(e: Entry) -> Seq<char> {
    match e.month {
        Some(m) => month_str(m),
        None => Seq::empty(),
    }
}

/// The month column x: nudged left by a third of a font-size step when
/// the month has two or more digits, so the columns stay aligned.
pub open spec fn month_x_of(month_x: int, e: Entry, fsm: int) -> int {
    if entry_month_text(e).len() > 1 {
        month_x - third(fsm)
    } else {
        month_x
    }
}

/// The sink calls and final y of the rows of a table, from entry `i`
/// down: each row draws its year, month and value columns at the shared
/// row y, then steps down by the padding.
pub open spec fn rows_calls(
    entries: Seq<Entry>,
    i: int,
    y: int,
    year_x: int,
    month_x: int,
    value_x: int,
    padding: int,
    fo: FontOptions,
    rec: Record,
) -> Result<(Seq<SinkOpV>, int), ErrorV>
    decreases entries.len() - i,
{
    if i < 0 || i >= entries.len() {
        Ok((Seq::empty(), y))
    } else {
        let e = entries[i];
        let fsm = pt_to_mm(eff_font_size(fo));
        match text_calls(year_x, y, entry_year(e), fo, rec) {
            Err(er) => Err(er),
            Ok(yops) => match text_calls(month_x_of(month_x, e, fsm), y, entry_month_text(e), fo, rec) {
                Err(er) => Err(er),
                Ok(mops) => match text_calls(value_x, y, e.value@, fo, rec) {
                    Err(er) => Err(er),
                    Ok(vops) => if !(i64::MIN <= y - padding <= i64::MAX) {
                        Err(ErrorV::CoordinateRange)
                    } else {
                        match rows_calls(
                            entries,
                            i + 1,
                            y - padding,
                            year_x,
                            month_x,
                            value_x,
                            padding,
                            fo,
                            rec,
                        ) {
                            Err(er) => Err(er),
                            Ok(rest) => Ok((yops + mops + vops + rest.0, rest.1)),
                        }
                    },
                },
            },
        }
    }
}

/// Draw the rows of a table starting at row y `y0`.
fn draw_rows(
    table: &Vec<Entry>,
    y0: i64,
    year_x: i64,
    month_x: i64,
    value_x: i64,
    padding: i64,
    font_options: &FontOptions,
    inputs: &Record,
) -> (r: Result<(Vec<SinkOp>, i64), Error>)
    requires
        in_len_range(year_x as int),
        in_len_range(month_x as int),
        in_len_range(value_x as int),
        in_len_range(padding as int),
        font_options.wf(),
    ensures
        ({
            let spec_r = rows_calls(
                table@,
                0,
                y0 as int,
                year_x as int,
                month_x as int,
                value_x as int,
                padding as int,
                *font_options,
                *inputs,
            );
            match r {
                Ok(pair) => spec_r matches Ok(sp) && ops_view(pair.0@) == sp.0 && pair.1 as int
                    == sp.1,
                Err(e) => spec_r matches Err(ev) && ev == e@,
            }
        }),
{
    let ghost target = rows_calls(
        table@,
        0,
        y0 as int,
        year_x as int,
        month_x as int,
        value_x as int,
        padding as int,
        *font_options,
        *inputs,
    );
    let fsm = font_size_to_mm(&font_options.font_size);
    let mut ops: Vec<SinkOp> = Vec::new();
    let mut fy = y0;
    let mut i: usize = 0;
    proof {
        assert(ops_view(ops@) =~= Seq::<SinkOpV>::empty());
    }
    while i < table.len()
        invariant
            in_len_range(year_x as int),
            in_len_range(month_x as int),
            in_len_range(value_x as int),
            in_len_range(padding as int),
            font_options.wf(),
            fsm == pt_to_mm(eff_font_size(*font_options)),
            i <= table@.len(),
            target == rows_calls(
                table@,
                0,
                y0 as int,
                year_x as int,
                month_x as int,
                value_x as int,
                padding as int,
                *font_options,
                *inputs,
            ),
            ({
                let here = rows_calls(
                    table@,
                    i as int,
                    fy as int,
                    year_x as int,
                    month_x as int,
                    value_x as int,
                    padding as int,
                    *font_options,
                    *inputs,
                );
                match here {
                    Ok(rest) => target matches Ok(t) && t.0 == ops_view(ops@) + rest.0 && t.1
                        == rest.1,
                    Err(er) => target matches Err(er0) && er0 == er,
                }
            }),
        decreases table@.len() - i,
    {
        let e = &table[i];
        let year_string: String = match &e.year {
            Some(ys) => ys.clone(),
            None => String::new(),
        };
        proof {
            assert(year_string@ == entry_year(table@[i as int]));
        }
        let mut yops = match draw_text_at(year_x, fy, &year_string, font_options, inputs) {
            Ok(v) => v,
            Err(err) => return Err(err),
        };
        let month_string: String = match e.month {
            Some(m) => month_to_string(m),
            None => String::new(),
        };
        proof {
            assert(month_string@ == entry_month_text(table@[i as int]));
        }
        let mx = if month_string.as_str().unicode_len() > 1 {
            month_x - third_len(fsm)
        } else {
            month_x
        };
        proof {
            assert(mx as int == month_x_of(
                month_x as int,
                table@[i as int],
                pt_to_mm(eff_font_size(*font_options)),
            ));
        }
        let mut mops = match draw_text_at(mx, fy, &month_string, font_options, inputs) {
            Ok(v) => v,
            Err(err) => return Err(err),
        };
        let mut vops = match draw_text_at(value_x, fy, &e.value, font_options, inputs) {
            Ok(v) => v,
            Err(err) => return Err(err),
        };
        let fy_next = match checked_sub_len(fy, padding) {
            Some(v) => v,
            None => return Err(Error::CoordinateRange),
        };
        let ghost old_ops = ops@;
        let ghost yv = ops_view(yops@);
        let ghost mv = ops_view(mops@);
        let ghost vv = ops_view(vops@);
        ops.append(&mut yops);
        ops.append(&mut mops);
        ops.append(&mut vops);
        proof {
            assert(ops_view(ops@) =~= ops_view(old_ops) + (yv + mv + vv));
            assert(ops_view(old_ops) + (yv + mv + vv + Seq::<SinkOpV>::empty()) =~= ops_view(
                old_ops,
            ) + (yv + mv + vv));
        }
        fy = fy_next;
        i = i + 1;
        proof {
            let here = rows_calls(
                table@,
                i as int,
                fy as int,
                year_x as int,
                month_x as int,
                value_x as int,
                padding as int,
                *font_options,
                *inputs,
            );
            match here {
                Ok(rest) => {
                    assert(ops_view(old_ops) + ((yv + mv + vv) + rest.0) =~= (ops_view(old_ops) + (
                    yv + mv + vv)) + rest.0);
                    assert(yv + mv + vv + rest.0 =~= (yv + mv + vv) + rest.0);
                },
                Err(er) => {},
            }
        }
    }
    proof {
        assert(ops_view(ops@) + Seq::<SinkOpV>::empty() =~= ops_view(ops@));
    }
    Ok((ops, fy))
}

/// Table rows step down by exactly one padding per entry: whenever the
/// rows from entry `i` render, the y they return is the starting y less
/// one padding for each remaining row, in list order.
pub proof fn lemma_rows_step(
    entries: Seq<Entry>,
    i: int,
    y: int,
    year_x: int,
    month_x: int,
    value_x: int,
    padding: int,
    fo: FontOptions,
    rec: Record,
)
    requires
        0 <= i <= entries.len(),
        rows_calls(entries, i, y, year_x, month_x, value_x, padding, fo, rec) is Ok,
    ensures
        rows_calls(entries, i, y, year_x, month_x, value_x, padding, fo, rec)->Ok_0.1 == y - (
        entries.len() - i) * padding,
    decreases entries.len() - i,
{
    if i < entries.len() {
        let r0 = rows_calls(entries, i, y, year_x, month_x, value_x, padding, fo, rec);
        let r1 = rows_calls(entries, i + 1, y - padding, year_x, month_x, value_x, padding, fo, rec);
        assert(r1 is Ok);
        assert(r0->Ok_0.1 == r1->Ok_0.1);
        lemma_rows_step(entries, i + 1, y - padding, year_x, month_x, value_x, padding, fo, rec);
        assert((entries.len() - i) * padding == (entries.len() - (i + 1)) * padding
            + padding) by (nonlinear_arith);
    } else {
        assert((entries.len() - i) * padding == 0) by (nonlinear_arith)
            requires
                entries.len() - i == 0,
        ;
    }
}

/// The sink calls and final y of a whole table: the optional header
/// first, then the rows, which start one padding step below the header
/// (or above the given y when there is none).
pub open spec fn table_calls(
    header: Option<Text>,
    entries: Seq<Entry>,
    y: int,
    year_x: int,
    month_x: int,
    value_x: int,
    padding: int,
    fo: FontOptions,
    rec: Record,
) -> Result<(Seq<SinkOpV>, int), ErrorV> {
    match header {
        None => rows_calls(entries, 0, y + padding, year_x, month_x, value_x, padding, fo, rec),
        Some(h) => match text_calls(
            h.position.x as int,
            h.position.y as int,
            h.value@,
            h.font_options,
            rec,
        ) {
            Err(e) => Err(e),
            Ok(hops) => if !(i64::MIN <= h.position.y - padding <= i64::MAX) {
                Err(ErrorV::CoordinateRange)
            } else {
                match rows_calls(
                    entries,
                    0,
                    h.position.y - padding,
                    year_x,
                    month_x,
                    value_x,
                    padding,
                    fo,
                    rec,
                ) {
                    Err(e) => Err(e),
                    Ok(rest) => Ok((hops + rest.0, rest.1)),
                }
            },
        },
    }
}

/// Draw one column-aligned table, optionally preceded by a header, and
/// return the y one padding step below its last row.
pub fn draw_table(
    header: Option<&Text>,
    table: &Vec<Entry>,
    y: i64,
    year_x: i64,
    month_x: i64,
    value_x: i64,
    padding: i64,
    font_options: &FontOptions,
    inputs: &Record,
) -> (r: Result<(Vec<SinkOp>, i64), Error>)
    requires
        in_len_range(y as int),
        in_len_range(year_x as int),
        in_len_range(month_x as int),
        in_len_range(value_x as int),
        in_len_range(padding as int),
        font_options.wf(),
        header matches Some(h) ==> h.wf() && h.font_options == *font_options,
    ensures
        ({
            let spec_r = table_calls(
                match header {
                    Some(h) => Some(*h),
                    None => None,
                },
                table@,
                y as int,
                year_x as int,
                month_x as int,
                value_x as int,
                padding as int,
                *font_options,
                *inputs,
            );
            match r {
                Ok(pair) => spec_r matches Ok(sp) && ops_view(pair.0@) == sp.0 && pair.1 as int
                    == sp.1,
                Err(e) => spec_r matches Err(ev) && ev == e@,
            }
        }),
{
    match header {
        None => draw_rows(
            table,
            y + padding,
            year_x,
            month_x,
            value_x,
            padding,
            font_options,
            inputs,
        ),
        Some(h) => {
            let mut hops = match draw_string(h, inputs) {
                Ok(v) => v,
                Err(e) => return Err(e),
            };
            let y0 = match checked_sub_len(h.position.y, padding) {
                Some(v) => v,
                None => return Err(Error::CoordinateRange),
            };
            let (mut rops, fy) = match draw_rows(
                table,
                y0,
                year_x,
                month_x,
                value_x,
                padding,
                font_options,
                inputs,
            ) {
                Ok(p) => p,
                Err(e) => return Err(e),
            };
            let ghost hv = ops_view(hops@);
            let ghost rv = ops_view(rops@);
            hops.append(&mut rops);
            proof {
                assert(ops_view(hops@) =~= hv + rv);
            }
            Ok((hops, fy))
        },
    }
}

/// The sink calls of a `history` command: its list variable resolved,
/// then one header-less table whose first row sits one padding step
/// above the given y.
pub open spec fn history_calls(h: History, rec: Record) -> Result<Seq<SinkOpV>, ErrorV> {
    match list_lookup(h.value@, rec) {
        None => Err(ErrorV::UnknownVariable { name: h.value@ }),
        Some(list) => match rows_calls(
            list@,
            0,
            h.y + h.padding,
            h.year_x as int,
            h.month_x as int,
            h.value_x as int,
            h.padding as int,
            h.font_options,
            rec,
        ) {
            Err(e) => Err(e),
            Ok(pair) => Ok(pair.0),
        },
    }
}

/// Draw a `history` command.
pub fn draw_history(history: &History, inputs: &Record) -> (r: Result<Vec<SinkOp>, Error>)
    requires
        history.wf(),
    ensures
        ({
            let spec_r = history_calls(*history, *inputs);
            match r {
                Ok(ops) => spec_r matches Ok(s) && ops_view(ops@) == s,
                Err(e) => spec_r matches Err(ev) && ev == e@,
            }
        }),
{
    let list = match crate::record::handle_history_value(&history.value, inputs) {
        Ok(l) => l,
        Err(e) => return Err(e),
    };
    let (ops, _fy) = match draw_rows(
        list,
        history.y + history.padding,
        history.year_x,
        history.month_x,
        history.value_x,
        history.padding,
        &history.font_options,
        inputs,
    ) {
        Ok(p) => p,
        Err(e) => return Err(e),
    };
    Ok(ops)
}

/// The sink calls and final y of one captioned table: the caption text
/// at the caption column, then the rows one padding step below it.
pub open spec fn headed_table_calls(
    hx: int,
    hy: int,
    hvalue: Seq<char>,
    entries: Seq<Entry>,
    year_x: int,
    month_x: int,
    value_x: int,
    padding: int,
    fo: FontOptions,
    rec: Record,
) -> Result<(Seq<SinkOpV>, int), ErrorV> {
    match text_calls(hx, hy, hvalue, fo, rec) {
        Err(e) => Err(e),
        Ok(hops) => if !(i64::MIN <= hy - padding <= i64::MAX) {
            Err(ErrorV::CoordinateRange)
        } else {
            match rows_calls(entries, 0, hy - padding, year_x, month_x, value_x, padding, fo, rec) {
                Err(e) => Err(e),
                Ok(rest) => Ok((hops + rest.0, rest.1)),
            }
        },
    }
}

/// Draw one captioned table.
fn draw_headed_table(
    hx: i64,
    hy: i64,
    hvalue: &String,
    entries: &Vec<Entry>,
    year_x: i64,
    month_x: i64,
    value_x: i64,
    padding: i64,
    font_options: &FontOptions,
    inputs: &Record,
) -> (r: Result<(Vec<SinkOp>, i64), Error>)
    requires
        in_len_range(year_x as int),
        in_len_range(month_x as int),
        in_len_range(value_x as int),
        in_len_range(padding as int),
        font_options.wf(),
    ensures
        ({
            let spec_r = headed_table_calls(
                hx as int,
                hy as int,
                hvalue@,
                entries@,
                year_x as int,
                month_x as int,
                value_x as int,
                padding as int,
                *font_options,
                *inputs,
            );
            match r {
                Ok(pair) => spec_r matches Ok(sp) && ops_view(pair.0@) == sp.0 && pair.1 as int
                    == sp.1,
                Err(e) => spec_r matches Err(ev) && ev == e@,
            }
        }),
{
    let mut hops = match draw_text_at(hx, hy, hvalue, font_options, inputs) {
        Ok(v) => v,
        Err(e) => return Err(e),
    };
    let y0 = match checked_sub_len(hy, padding) {
        Some(v) => v,
        None => return Err(Error::CoordinateRange),
    };
    let (mut rops, fy) = match draw_rows(
        entries,
        y0,
        year_x,
        month_x,
        value_x,
        padding,
        font_options,
        inputs,
    ) {
        Ok(p) => p,
        Err(e) => return Err(e),
    };
    let ghost hv = ops_view(hops@);
    let ghost rv = ops_view(rops@);
    hops.append(&mut rops);
    proof {
        assert(ops_view(hops@) =~= hv + rv);
    }
    Ok((hops, fy))
}

/// The sink calls of an `education_experience` command: the education
/// list under its fixed caption, then the experience list under its own,
/// starting at the y where the first table ended.
pub open spec fn eduexp_calls(c: EducationExperience, rec: Record) -> Result<Seq<SinkOpV>, ErrorV> {
    match headed_table_calls(
        c.caption_x as int,
        c.y as int,
        "学歴"@,
        rec.education@,
        c.year_x as int,
        c.month_x as int,
        c.value_x as int,
        c.padding as int,
        c.font_options,
        rec,
    ) {
        Err(e) => Err(e),
        Ok(first) => match headed_table_calls(
            c.caption_x as int,
            first.1,
            "職歴"@,
            rec.experience@,
            c.year_x as int,
            c.month_x as int,
            c.value_x as int,
            c.padding as int,
            c.font_options,
            rec,
        ) {
            Err(e) => Err(e),
            Ok(second) => Ok(first.0 + second.0),
        },
    }
}

/// Draw an `education_experience` command.
pub fn draw_education_experience(education_experience: &EducationExperience, inputs: &Record) -> (r:
    Result<Vec<SinkOp>, Error>)
    requires
        education_experience.wf(),
    ensures
        ({
            let spec_r = eduexp_calls(*education_experience, *inputs);
            match r {
                Ok(ops) => spec_r matches Ok(s) && ops_view(ops@) == s,
                Err(e) => spec_r matches Err(ev) && ev == e@,
            }
        }),
{
    let caption1 = "学歴".to_owned();
    let (mut ops1, fy1) = match draw_headed_table(
        education_experience.caption_x,
        education_experience.y,
        &caption1,
        &inputs.education,
        education_experience.year_x,
        education_experience.month_x,
        education_experience.value_x,
        education_experience.padding,
        &education_experience.font_options,
        inputs,
    ) {
        Ok(p) => p,
        Err(e) => return Err(e),
    };
    let caption2 = "職歴".to_owned();
    let (mut ops2, _fy2) = match draw_headed_table(
        education_experience.caption_x,
        fy1,
        &caption2,
        &inputs.experience,
        education_experience.year_x,
        education_experience.month_x,
        education_experience.value_x,
        education_experience.padding,
        &education_experience.font_options,
        inputs,
    ) {
        Ok(p) => p,
        Err(e) => return Err(e),
    };
    let ghost v1 = ops_view(ops1@);
    let ghost v2 = ops_view(ops2@);
    ops1.append(&mut ops2);
    proof {
        assert(ops_view(ops1@) =~= v1 + v2);
    }
    Ok(ops1)
}

/// The sink calls of one command.  The auxiliary `ymbox` and `miscbox`
/// regions are parsed and forwarded but draw nothing: their layout is an
/// open extension point.
pub open spec fn cmd_calls(c: Command, rec: Record) -> Result<Seq<SinkOpV>, ErrorV> {
    match c {
        Command::Text(t) => text_calls(
            t.position.x as int,
            t.position.y as int,
            t.value@,
            t.font_options,
            rec,
        ),
        Command::Line(l) => Ok(line_calls(l)),
        Command::BoxCommand(b) => Ok(box_calls(b)),
        Command::Photo(p) => photo_calls(p),
        Command::NewPage => Ok(seq![SinkOpV::NextPage]),
        Command::TextBox(tb) => textbox_calls(tb, rec),
        Command::MultiLines(m) => Ok(multilines_calls(m)),
        Command::YMBox(_) => Ok(Seq::empty()),
        Command::MiscBox(_) => Ok(Seq::empty()),
        Command::History(h) => history_calls(h, rec),
        Command::EducationExperience(c2) => eduexp_calls(c2, rec),
        Command::Lines(l) => lines_calls(l),
    }
}

/// The sink calls of a command sequence from index `i` on, in script
/// order, aborting at the first failing command.
pub open spec fn make_calls(cmds: Seq<Command>, i: int, rec: Record) -> Result<Seq<SinkOpV>, ErrorV>
    decreases cmds.len() - i,
{
    if i < 0 || i >= cmds.len() {
        Ok(Seq::empty())
    } else {
        match cmd_calls(cmds[i], rec) {
            Err(e) => Err(e),
            Ok(ops) => match make_calls(cmds, i + 1, rec) {
                Err(e) => Err(e),
                Ok(rest) => Ok(ops + rest),
            },
        }
    }
}

/// Play a command sequence back against the record, producing the
/// document-sink calls in script order.  The run starts on the first
/// page; everything after a page break targets the new page.
pub fn make(style_script: &Vec<Command>, inputs: &Record) -> (r: Result<Vec<SinkOp>, Error>)
    requires
        forall|k: int| 0 <= k < style_script@.len() ==> (#[trigger] style_script@[k]).wf(),
    ensures
        r is Ok <==> make_calls(style_script@, 0, *inputs) is Ok,
        r matches Ok(ops) ==> make_calls(style_script@, 0, *inputs) matches Ok(s) && ops_view(ops@)
            == s,
        r matches Err(e) ==> make_calls(style_script@, 0, *inputs) matches Err(ev) && ev == e@,
{
    let mut ops: Vec<SinkOp> = Vec::new();
    let mut i: usize = 0;
    proof {
        assert(ops_view(ops@) =~= Seq::<SinkOpV>::empty());
    }
    while i < style_script.len()
        invariant
            forall|k: int| 0 <= k < style_script@.len() ==> (#[trigger] style_script@[k]).wf(),
            i <= style_script@.len(),
            ({
                let here = make_calls(style_script@, i as int, *inputs);
                match here {
                    Ok(rest) => make_calls(style_script@, 0, *inputs) matches Ok(t) && t
                        == ops_view(ops@) + rest,
                    Err(er) => make_calls(style_script@, 0, *inputs) matches Err(er0) && er0 == er,
                }
            }),
        decreases style_script@.len() - i,
    {
        let cmd = &style_script[i];
        proof {
            assert(style_script@[i as int].wf());
        }
        let mut cops: Vec<SinkOp> = match cmd {
            Command::Text(t) => match draw_string(t, inputs) {
                Ok(v) => v,
                Err(e) => return Err(e),
            },
            Command::Line(l) => draw_line(l),
            Command::BoxCommand(b) => draw_box(b),
            Command::Photo(p) => match draw_photo(p) {
                Ok(v) => v,
                Err(e) => return Err(e),
            },
            Command::NewPage => {
                let mut v: Vec<SinkOp> = Vec::new();
                v.push(SinkOp::NextPage);
                v
            },
            Command::TextBox(tb) => match draw_textbox(tb, inputs) {
                Ok(v) => v,
                Err(e) => return Err(e),
            },
            Command::MultiLines(m) => draw_multilines(m),
            Command::YMBox(_) => Vec::new(),
            Command::MiscBox(_) => Vec::new(),
            Command::History(h) => match draw_history(h, inputs) {
                Ok(v) => v,
                Err(e) => return Err(e),
            },
            Command::EducationExperience(c2) => match draw_education_experience(c2, inputs) {
                Ok(v) => v,
                Err(e) => return Err(e),
            },
            Command::Lines(l) => match draw_lines(l) {
                Ok(v) => v,
                Err(e) => return Err(e),
            },
        };
        proof {
            assert(cmd_calls(style_script@[i as int], *inputs) matches Ok(s) && ops_view(cops@)
                == s);
        }
        let ghost old_ops = ops@;
        let ghost cv = ops_view(cops@);
        ops.append(&mut cops);
        proof {
            assert(ops_view(ops@) =~= ops_view(old_ops) + cv);
            let here = make_calls(style_script@, i + 1, *inputs);
            match here {
                Ok(rest) => {
                    assert(ops_view(old_ops) + (cv + rest) =~= (ops_view(old_ops) + cv) + rest);
                },
                Err(er) => {},
            }
        }
        i = i + 1;
    }
    proof {
        assert(ops_view(ops@) + Seq::<SinkOpV>::empty() =~= ops_view(ops@));
    }
    Ok(ops)
}

/// The pages a call sequence produces: the sink starts with one open
/// page, a page break seals the current page and opens a fresh one, and
/// every other call lands on the currently open page.
pub open spec fn pages_of(calls: Seq<SinkOpV>) -> Seq<Seq<SinkOpV>>
    decreases calls.len(),
{
    if calls.len() == 0 {
        seq![Seq::empty()]
    } else {
        let prev = pages_of(calls.drop_last());
        if calls.last() == SinkOpV::NextPage {
            prev.push(Seq::empty())
        } else {
            prev.update(prev.len() - 1, prev.last().push(calls.last()))
        }
    }
}

/// There is always at least the first page.
pub proof fn lemma_pages_nonempty(calls: Seq<SinkOpV>)
    ensures
        pages_of(calls).len() >= 1,
    decreases calls.len(),
{
    if calls.len() > 0 {
        lemma_pages_nonempty(calls.drop_last());
    }
}

/// Later calls never touch any page but the last one already produced.
pub proof fn lemma_pages_prefix(a: Seq<SinkOpV>, b: Seq<SinkOpV>)
    ensures
        pages_of(a + b).len() >= pages_of(a).len(),
        forall|i: int| 0 <= i < pages_of(a).len() - 1 ==> pages_of(a + b)[i] == pages_of(a)[i],
    decreases b.len(),
{
    if b.len() == 0 {
        assert(a + b =~= a);
    } else {
        lemma_pages_prefix(a, b.drop_last());
        assert((a + b).drop_last() =~= a + b.drop_last());
        assert((a + b).len() > 0);
        lemma_pages_nonempty(a + b.drop_last());
        lemma_pages_nonempty(a);
    }
}

/// Processing a concatenation processes the first part, then the second:
/// the calls concatenate, and an error in the first part wins.
pub proof fn lemma_make_shift(a: Seq<Command>, b: Seq<Command>, rec: Record, j: int)
    requires
        0 <= j <= b.len(),
    ensures
        make_calls(a + b, a.len() + j, rec) == make_calls(b, j, rec),
    decreases b.len() - j,
{
    if j < b.len() {
        assert((a + b)[a.len() + j] == b[j]);
        lemma_make_shift(a, b, rec, j + 1);
    }
}

/// See [`lemma_make_shift`]: the split of a run at a sequence boundary.
pub proof fn lemma_make_split_from(a: Seq<Command>, b: Seq<Command>, rec: Record, i: int)
    requires
        0 <= i <= a.len(),
    ensures
        ({
            match make_calls(a, i, rec) {
                Err(e) => make_calls(a + b, i, rec) == Err::<Seq<SinkOpV>, ErrorV>(e),
                Ok(ac) => match make_calls(b, 0, rec) {
                    Err(e) => make_calls(a + b, i, rec) == Err::<Seq<SinkOpV>, ErrorV>(e),
                    Ok(bc) => make_calls(a + b, i, rec) == Ok::<Seq<SinkOpV>, ErrorV>(ac + bc),
                },
            }
        }),
    decreases a.len() - i,
{
    if i == a.len() {
        lemma_make_shift(a, b, rec, 0);
        match make_calls(b, 0, rec) {
            Err(e) => {},
            Ok(bc) => {
                assert(Seq::<SinkOpV>::empty() + bc =~= bc);
            },
        }
    } else {
        assert((a + b)[i] == a[i]);
        lemma_make_split_from(a, b, rec, i + 1);
        match cmd_calls(a[i], rec) {
            Err(e) => {},
            Ok(ops) => {
                match make_calls(a, i + 1, rec) {
                    Err(e) => {},
                    Ok(ac) => {
                        match make_calls(b, 0, rec) {
                            Err(e) => {},
                            Ok(bc) => {
                                assert(ops + (ac + bc) =~= (ops + ac) + bc);
                            },
                        }
                    },
                }
            },
        }
    }
}

/// Commands issued after a `new_page` never appear on any page produced
/// before it: once the page break happens, every page the sink already
/// holds is final, whatever follows in the script.
pub proof fn lemma_new_page_isolates(pre: Seq<Command>, suf: Seq<Command>, rec: Record)
    requires
        make_calls(pre.push(Command::NewPage) + suf, 0, rec) is Ok,
    ensures
        make_calls(pre, 0, rec) is Ok,
        ({
            let all = pages_of(make_calls(pre.push(Command::NewPage) + suf, 0, rec)->Ok_0);
            let before = pages_of(make_calls(pre, 0, rec)->Ok_0);
            &&& all.len() >= before.len()
            &&& forall|i: int| 0 <= i < before.len() ==> all[i] == before[i]
        }),
{
    let a = pre.push(Command::NewPage);
    lemma_make_split_from(pre, seq![Command::NewPage], rec, 0);
    assert(pre + seq![Command::NewPage] =~= a);
    lemma_make_split_from(a, suf, rec, 0);
    let np = seq![Command::NewPage];
    assert(cmd_calls(np[0], rec) == Ok::<Seq<SinkOpV>, ErrorV>(seq![SinkOpV::NextPage]));
    assert(make_calls(np, 1, rec) == Ok::<Seq<SinkOpV>, ErrorV>(Seq::<SinkOpV>::empty()));
    assert(make_calls(np, 0, rec) == Ok::<Seq<SinkOpV>, ErrorV>(
        seq![SinkOpV::NextPage] + Seq::<SinkOpV>::empty(),
    ));
    let pcalls = make_calls(pre, 0, rec)->Ok_0;
    let acalls = make_calls(a, 0, rec)->Ok_0;
    let scalls = make_calls(suf, 0, rec)->Ok_0;
    assert(acalls =~= pcalls + seq![SinkOpV::NextPage]);
    assert(pages_of(acalls) == pages_of(pcalls).push(Seq::<SinkOpV>::empty())) by {
        assert(acalls.drop_last() =~= pcalls);
        assert(acalls.last() == SinkOpV::NextPage);
    }
    lemma_pages_prefix(acalls, scalls);
    lemma_pages_nonempty(pcalls);
    let all = make_calls(a + suf, 0, rec)->Ok_0;
    assert(all =~= acalls + scalls);
    assert forall|i: int| 0 <= i < pages_of(pcalls).len() implies pages_of(all)[i] == pages_of(
        pcalls,
    )[i] by {
        assert(pages_of(acalls)[i] == pages_of(pcalls)[i]);
        assert(pages_of(acalls + scalls)[i] == pages_of(acalls)[i]);
    }
}

} // verus!
