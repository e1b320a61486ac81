//! Recognized trailing options of style-script commands.
//!
//! Fields after a command's required positional fields form its options
//! region.  A field of the shape `key=value` assigns a recognized key
//! (`font_size`, `font_face`, `line_width`, `line_style`, `close`);
//! unrecognized keys are ignored for forward compatibility, while a
//! recognized key with a malformed value is a parse error.  When a key is
//! assigned more than once the last assignment wins, but every assignment
//! must be well-formed.  Every option has a stated default, applied once at
//! render time.

use vstd::prelude::*;
use vstd::string::*;

use crate::error::{Error, ErrorV};
use crate::num::{milli_ok, milli_val, parse_milli};
use crate::scan::{find_char, first_sep, has_sep, string_eq, sview};

verus! {

/// The patterns a stroke can be drawn with.
#[derive(Clone, Copy, PartialEq, Eq, Structural, Debug)]
pub enum LineStyle {
    Solid,
    Dashed,
}

/// Text options: size in thousandths of a point (default 12pt), face name
/// (default the built-in serif face).
#[derive(PartialEq, Eq, Debug)]
pub struct FontOptions {
    pub font_size: Option<i64>,
    pub font_face: Option<String>,
}

/// Stroke options: width in thousandths (default 0.5), style (default
/// solid).
#[derive(Clone, Copy, PartialEq, Eq, Structural, Debug)]
pub struct LineOptions {
    pub line_width: Option<i64>,
    pub line_style: Option<LineStyle>,
}

impl FontOptions {
    /// Any explicit size lies in the parsed-length domain.
    pub open spec fn wf(self) -> bool {
        match self.font_size {
            Some(v) => crate::geom::in_len_range(v as int),
            None => true,
        }
    }
}

impl LineOptions {
    /// Any explicit width lies in the parsed-length domain.
    pub open spec fn wf(self) -> bool {
        match self.line_width {
            Some(v) => crate::geom::in_len_range(v as int),
            None => true,
        }
    }
}

/// Whether a field is a `key=value` assignment.
pub open spec fn is_assign(f: Seq<char>) -> bool {
    has_sep(f, '=')
}

/// The key of an assignment: everything before the first `=`.
pub open spec fn field_key(f: Seq<char>) -> Seq<char> {
    f.take(first_sep(f, '=') as int)
}

/// The value of an assignment: everything after the first `=`.
pub open spec fn field_val(f: Seq<char>) -> Seq<char> {
    f.skip(first_sep(f, '=') as int + 1)
}

/// The value of the last assignment to `key` at or after `start`, if any.
pub open spec fn opt_lookup(fs: Seq<Seq<char>>, start: int, key: Seq<char>) -> Option<Seq<char>>
    decreases fs.len(),
{
    if fs.len() <= start {
        None
    } else if fs.len() == 0 {
        None
    } else if is_assign(fs.last()) && field_key(fs.last()) == key {
        Some(field_val(fs.last()))
    } else {
        opt_lookup(fs.drop_last(), start, key)
    }
}

/// A well-formed style token.
pub open spec fn style_ok(v: Seq<char>) -> bool {
    v == "solid"@ || v == "dashed"@
}

/// The style a token denotes.
pub open spec fn style_of(v: Seq<char>) -> LineStyle {
    if v == "solid"@ {
        LineStyle::Solid
    } else {
        LineStyle::Dashed
    }
}

/// A well-formed boolean token.
pub open spec fn bool_ok(v: Seq<char>) -> bool {
    v == "true"@ || v == "false"@
}

/// The boolean a token denotes.
pub open spec fn bool_val(v: Seq<char>) -> bool {
    v == "true"@
}

/// Every `font_size` assignment in the region parses as a decimal.
pub open spec fn fopts_ok(fs: Seq<Seq<char>>, start: int) -> bool {
    forall|k: int|
        start <= k < fs.len() && is_assign(#[trigger] fs[k]) && field_key(fs[k]) == "font_size"@
            ==> milli_ok(field_val(fs[k]))
}

/// The error reported for the first malformed `font_size` assignment;
/// meaningful only while one exists.
pub open spec fn fopts_err(fs: Seq<Seq<char>>, start: int, n: int) -> ErrorV
    decreases fs.len() - start,
{
    if start < 0 || start >= fs.len() {
        ErrorV::NoPositions
    } else if is_assign(fs[start]) && field_key(fs[start]) == "font_size"@ && !milli_ok(
        field_val(fs[start]),
    ) {
        ErrorV::BadOption { key: "font_size"@, text: field_val(fs[start]), line_number: n }
    } else {
        fopts_err(fs, start + 1, n)
    }
}

/// The produced font options record the last assignment of each key.
pub open spec fn fopts_matches(fo: FontOptions, fs: Seq<Seq<char>>, start: int) -> bool {
    &&& match fo.font_size {
        None => opt_lookup(fs, start, "font_size"@) is None,
        Some(v) => opt_lookup(fs, start, "font_size"@) matches Some(t) && milli_ok(t) && v
            == milli_val(t),
    }
    &&& match fo.font_face {
        None => opt_lookup(fs, start, "font_face"@) is None,
        Some(f) => opt_lookup(fs, start, "font_face"@) matches Some(t) && f@ == t,
    }
}

/// Every `line_width` and `line_style` assignment in the region is
/// well-formed.
pub open spec fn lopts_ok(fs: Seq<Seq<char>>, start: int) -> bool {
    forall|k: int|
        start <= k < fs.len() && is_assign(#[trigger] fs[k]) ==> {
            &&& field_key(fs[k]) == "line_width"@ ==> milli_ok(field_val(fs[k]))
            &&& field_key(fs[k]) == "line_style"@ ==> style_ok(field_val(fs[k]))
        }
}

/// The error reported for the first malformed stroke option; meaningful
/// only while one exists.
pub open spec fn lopts_err(fs: Seq<Seq<char>>, start: int, n: int) -> ErrorV
    decreases fs.len() - start,
{
    if start < 0 || start >= fs.len() {
        ErrorV::NoPositions
    } else if is_assign(fs[start]) && field_key(fs[start]) == "line_width"@ && !milli_ok(
        field_val(fs[start]),
    ) {
        ErrorV::BadOption { key: "line_width"@, text: field_val(fs[start]), line_number: n }
    } else if is_assign(fs[start]) && field_key(fs[start]) == "line_style"@ && !style_ok(
        field_val(fs[start]),
    ) {
        ErrorV::BadOption { key: "line_style"@, text: field_val(fs[start]), line_number: n }
    } else {
        lopts_err(fs, start + 1, n)
    }
}

/// The produced stroke options record the last assignment of each key.
pub open spec fn lopts_matches(lo: LineOptions, fs: Seq<Seq<char>>, start: int) -> bool {
    &&& match lo.line_width {
        None => opt_lookup(fs, start, "line_width"@) is None,
        Some(v) => opt_lookup(fs, start, "line_width"@) matches Some(t) && milli_ok(t) && v
            == milli_val(t),
    }
    &&& match lo.line_style {
        None => opt_lookup(fs, start, "line_style"@) is None,
        Some(s) => opt_lookup(fs, start, "line_style"@) matches Some(t) && style_ok(t) && s
            == style_of(t),
    }
}

/// Extending the region by one field updates a lookup in the obvious way.
pub proof fn lemma_opt_lookup_step(fs: Seq<Seq<char>>, start: int, key: Seq<char>, i: int)
    requires
        0 <= start <= i < fs.len(),
    ensures
        opt_lookup(fs.take(i + 1), start, key) == (if is_assign(fs[i]) && field_key(fs[i]) == key {
            Some(field_val(fs[i]))
        } else {
            opt_lookup(fs.take(i), start, key)
        }),
{
    assert(fs.take(i + 1).last() == fs[i]);
    assert(fs.take(i + 1).drop_last() =~= fs.take(i));
}

/// Skipping well-formed fields does not change which error is first.
proof fn lemma_fopts_err_skip(fs: Seq<Seq<char>>, start: int, i: int, n: int)
    requires
        0 <= start <= i <= fs.len(),
        forall|k: int|
            start <= k < i && is_assign(#[trigger] fs[k]) && field_key(fs[k]) == "font_size"@
                ==> milli_ok(field_val(fs[k])),
    ensures
        fopts_err(fs, start, n) == fopts_err(fs, i, n),
    decreases i - start,
{
    if start < i {
        lemma_fopts_err_skip(fs, start + 1, i, n);
    }
}

/// Skipping well-formed fields does not change which error is first.
proof fn lemma_lopts_err_skip(fs: Seq<Seq<char>>, start: int, i: int, n: int)
    requires
        0 <= start <= i <= fs.len(),
        forall|k: int|
            start <= k < i && is_assign(#[trigger] fs[k]) ==> {
                &&& field_key(fs[k]) == "line_width"@ ==> milli_ok(field_val(fs[k]))
                &&& field_key(fs[k]) == "line_style"@ ==> style_ok(field_val(fs[k]))
            },
    ensures
        lopts_err(fs, start, n) == lopts_err(fs, i, n),
    decreases i - start,
{
    if start < i {
        lemma_lopts_err_skip(fs, start + 1, i, n);
    }
}

/// Split a field into its key and value, when it is an assignment.
pub fn split_assign(field: &str) -> (r: Option<(String, String)>)
    ensures
        r is Some <==> is_assign(field@),
        r matches Some(kv) ==> kv.0@ == field_key(field@) && kv.1@ == field_val(field@),
{
    let n = field.unicode_len();
    let eq = find_char(field, '=');
    if eq < n {
        let key = field.substring_char(0, eq).to_owned();
        let val = field.substring_char(eq + 1, n).to_owned();
        proof {
            assert(key@ =~= field_key(field@));
            assert(val@ =~= field_val(field@));
        }
        Some((key, val))
    } else {
        None
    }
}

/// Collect the text options assigned in the region starting at `start`.
pub fn parse_font_options(parameters: &Vec<String>, start: usize, line_number: usize) -> (r:
    Result<FontOptions, Error>)
    ensures
        r is Ok <==> fopts_ok(sview(parameters@), start as int),
        r matches Ok(fo) ==> fopts_matches(fo, sview(parameters@), start as int) && fo.wf(),
        r matches Err(e) ==> !fopts_ok(sview(parameters@), start as int) && e@ == fopts_err(
            sview(parameters@),
            start as int,
            line_number as int,
        ),
{
    let ghost fs = sview(parameters@);
    let mut font_size: Option<i64> = None;
    let mut font_face: Option<String> = None;
    let mut i = start;
    if i > parameters.len() {
        i = parameters.len();
        proof {
            assert(fopts_matches(
                FontOptions { font_size: None, font_face: None },
                fs.take(i as int),
                start as int,
            ));
        }
    }
    proof {
        assert(fs.take(i as int).len() <= start as int);
    }
    while i < parameters.len()
        invariant
            fs == sview(parameters@),
            start <= i <= parameters.len() || i == parameters.len(),
            fs.len() == parameters@.len(),
            forall|k: int|
                start <= k < i && is_assign(#[trigger] fs[k]) && field_key(fs[k]) == "font_size"@
                    ==> milli_ok(field_val(fs[k])),
            fopts_matches(
                FontOptions { font_size, font_face: font_face },
                fs.take(i as int),
                start as int,
            ),
            (FontOptions { font_size, font_face: font_face }).wf(),
        decreases parameters.len() - i,
    {
        proof {
            reveal_strlit("font_size");
            reveal_strlit("font_face");
            assert("font_size"@ != "font_face"@) by {
                assert("font_size"@[5] == 's');
                assert("font_face"@[5] == 'f');
            }
            assert(fs[i as int] == parameters@[i as int]@);
            lemma_opt_lookup_step(fs, start as int, "font_size"@, i as int);
            lemma_opt_lookup_step(fs, start as int, "font_face"@, i as int);
        }
        let field = &parameters[i];
        match split_assign(field.as_str()) {
            None => {},
            Some((key, val)) => {
                if string_eq(key.as_str(), "font_size") {
                    match parse_milli(val.as_str()) {
                        Some(v) => {
                            font_size = Some(v);
                        },
                        None => {
                            proof {
                                lemma_fopts_err_skip(fs, start as int, i as int, line_number as int);
                            }
                            return Err(
                                Error::BadOption { key, text: val, line_number },
                            );
                        },
                    }
                } else if string_eq(key.as_str(), "font_face") {
                    font_face = Some(val);
                }
            },
        }
        i = i + 1;
    }
    proof {
        assert(fs.take(parameters@.len() as int) =~= fs);
    }
    Ok(FontOptions { font_size, font_face })
}

/// Collect the stroke options assigned in the region starting at `start`.
pub fn parse_line_options(parameters: &Vec<String>, start: usize, line_number: usize) -> (r:
    Result<LineOptions, Error>)
    ensures
        r is Ok <==> lopts_ok(sview(parameters@), start as int),
        r matches Ok(lo) ==> lopts_matches(lo, sview(parameters@), start as int) && lo.wf(),
        r matches Err(e) ==> !lopts_ok(sview(parameters@), start as int) && e@ == lopts_err(
            sview(parameters@),
            start as int,
            line_number as int,
        ),
{
    let ghost fs = sview(parameters@);
    let mut line_width: Option<i64> = None;
    let mut line_style: Option<LineStyle> = None;
    let mut i = start;
    if i > parameters.len() {
        i = parameters.len();
    }
    proof {
        assert(fs.take(i as int).len() <= start as int);
    }
    while i < parameters.len()
        invariant
            fs == sview(parameters@),
            start <= i <= parameters.len() || i == parameters.len(),
            fs.len() == parameters@.len(),
            forall|k: int|
                start <= k < i && is_assign(#[trigger] fs[k]) ==> {
                    &&& field_key(fs[k]) == "line_width"@ ==> milli_ok(field_val(fs[k]))
                    &&& field_key(fs[k]) == "line_style"@ ==> style_ok(field_val(fs[k]))
                },
            lopts_matches(
                LineOptions { line_width, line_style },
                fs.take(i as int),
                start as int,
            ),
            (LineOptions { line_width, line_style }).wf(),
        decreases parameters.len() - i,
    {
        proof {
            reveal_strlit("line_width");
            reveal_strlit("line_style");
            assert("line_width"@ != "line_style"@) by {
                assert("line_width"@[5] == 'w');
                assert("line_style"@[5] == 's');
            }
            assert(fs[i as int] == parameters@[i as int]@);
            lemma_opt_lookup_step(fs, start as int, "line_width"@, i as int);
            lemma_opt_lookup_step(fs, start as int, "line_style"@, i as int);
        }
        let field = &parameters[i];
        match split_assign(field.as_str()) {
            None => {},
            Some((key, val)) => {
                if string_eq(key.as_str(), "line_width") {
                    match parse_milli(val.as_str()) {
                        Some(v) => {
                            line_width = Some(v);
                        },
                        None => {
                            proof {
                                lemma_lopts_err_skip(fs, start as int, i as int, line_number as int);
                            }
                            return Err(
                                Error::BadOption { key, text: val, line_number },
                            );
                        },
                    }
                } else if string_eq(key.as_str(), "line_style") {
                    if string_eq(val.as_str(), "solid") {
                        line_style = Some(LineStyle::Solid);
                    } else if string_eq(val.as_str(), "dashed") {
                        line_style = Some(LineStyle::Dashed);
                    } else {
                        proof {
                            lemma_lopts_err_skip(fs, start as int, i as int, line_number as int);
                        }
                        return Err(Error::BadOption { key, text: val, line_number });
                    }
                }
            },
        }
        i = i + 1;
    }
    proof {
        assert(fs.take(parameters@.len() as int) =~= fs);
    }
    Ok(LineOptions { line_width, line_style })
}

/// The token with a leading `name=` stripped, if it has one.
pub open spec fn strip_key(name: Seq<char>, raw: Seq<char>) -> Seq<char> {
    if raw.len() > name.len() && raw.take(name.len() as int) == name && raw[name.len() as int]
        == '=' {
        raw.skip(name.len() as int + 1)
    } else {
        raw
    }
}

/// Whether `raw` starts with `name` followed by `=`.
fn has_key_prefix(raw: &str, name: &str) -> (r: bool)
    ensures
        r == (raw@.len() > name@.len() && raw@.take(name@.len() as int) == name@ && raw@[name@.len() as int]
            == '='),
{
    let nlen = name.unicode_len();
    let rlen = raw.unicode_len();
    if rlen <= nlen {
        return false;
    }
    if raw.get_char(nlen) != '=' {
        return false;
    }
    let mut k: usize = 0;
    while k < nlen
        invariant
            nlen == name@.len(),
            rlen == raw@.len(),
            rlen > nlen,
            k <= nlen,
            forall|t: int| 0 <= t < k ==> raw@[t] == name@[t],
        decreases nlen - k,
    {
        if raw.get_char(k) != name.get_char(k) {
            proof {
                assert(raw@.take(nlen as int)[k as int] != name@[k as int]);
            }
            return false;
        }
        k = k + 1;
    }
    proof {
        assert(raw@.take(nlen as int) =~= name@);
    }
    true
}

/// Read a named boolean option token such as `close=false`: the `name=`
/// prefix, when present, is stripped, and the rest must be a boolean.
pub fn parse_option(name: &str, raw_option: &str, line_number: usize) -> (r: Result<bool, Error>)
    ensures
        r is Ok <==> bool_ok(strip_key(name@, raw_option@)),
        r matches Ok(b) ==> b == bool_val(strip_key(name@, raw_option@)),
        r matches Err(e) ==> e@ == (ErrorV::BadOption {
            key: name@,
            text: strip_key(name@, raw_option@),
            line_number: line_number as int,
        }),
{
    let nlen = name.unicode_len();
    let rlen = raw_option.unicode_len();
    let prefixed = has_key_prefix(raw_option, name);
    let body: String = if prefixed {
        raw_option.substring_char(nlen + 1, rlen).to_owned()
    } else {
        raw_option.to_owned()
    };
    proof {
        assert(body@ =~= strip_key(name@, raw_option@));
    }
    if string_eq(body.as_str(), "true") {
        Ok(true)
    } else if string_eq(body.as_str(), "false") {
        Ok(false)
    } else {
        Err(Error::BadOption { key: name.to_owned(), text: body, line_number })
    }
}

} // verus!
