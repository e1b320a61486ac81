//! Numeric fields of the style script.
//!
//! A length field is a plain decimal literal, optionally signed, optionally
//! suffixed with the `mm` unit marker, e.g. `12.7mm` or `-3`.  It is read
//! exactly into thousandths of a unit; digits past the third fractional
//! place are ignored.  The integer part is capped below one million, so
//! every parsed length lies strictly inside [`crate::geom::LEN_LIMIT`].
//! Count fields are plain unsigned decimals that must fit in a `u32`.

use vstd::prelude::*;
use vstd::string::*;

use crate::error::{Error, ErrorV};
use crate::geom::{in_len_range, LEN_LIMIT};
use crate::scan::{first_sep, has_sep, lemma_first_sep};

verus! {

/// Whether `c` is a decimal digit.
pub open spec fn is_digit(c: char) -> bool {
    '0' as u32 <= c as u32 <= '9' as u32
}

/// The value of a digit character.
pub open spec fn dval(c: char) -> int {
    c as u32 - '0' as u32
}

/// Whether every character of `s` is a decimal digit.
pub open spec fn all_digits(s: Seq<char>) -> bool {
    forall|k: int| 0 <= k < s.len() ==> is_digit(s[k])
}

/// The value of a digit string read in base ten.
pub open spec fn digits_val(s: Seq<char>) -> int
    decreases s.len(),
{
    if s.len() == 0 {
        0
    } else {
        digits_val(s.drop_last()) * 10 + dval(s.last())
    }
}

/// A digit string has a non-negative value.
pub proof fn lemma_digits_val_nonneg(s: Seq<char>)
    requires
        all_digits(s),
    ensures
        digits_val(s) >= 0,
    decreases s.len(),
{
    if s.len() > 0 {
        assert(all_digits(s.drop_last()));
        lemma_digits_val_nonneg(s.drop_last());
    }
}

/// Appending a digit multiplies the value by ten and adds the digit.
pub proof fn lemma_digits_val_push(s: Seq<char>, c: char)
    ensures
        digits_val(s.push(c)) == digits_val(s) * 10 + dval(c),
{
    assert(s.push(c).drop_last() =~= s);
    assert(s.push(c).last() == c);
}

/// Extending a digit string never lowers its value below a prior bound.
pub proof fn lemma_digits_val_ge_prefix(s: Seq<char>, j: int, bound: int)
    requires
        all_digits(s),
        0 <= j <= s.len(),
        0 <= bound <= digits_val(s.take(j)),
    ensures
        digits_val(s) >= bound,
    decreases s.len() - j,
{
    if j == s.len() {
        assert(s.take(j) =~= s);
    } else {
        assert(s.take(j + 1).drop_last() =~= s.take(j));
        assert(s.take(j + 1).last() == s[j]);
        assert(digits_val(s.take(j + 1)) == digits_val(s.take(j)) * 10 + dval(s[j]));
        assert(digits_val(s.take(j)) * 10 >= digits_val(s.take(j)));
        lemma_digits_val_ge_prefix(s, j + 1, bound);
    }
}

/// Length of the optional leading sign of a numeric token.
pub open spec fn sign_len(s: Seq<char>) -> int {
    if s.len() > 0 && (s[0] == '-' || s[0] == '+') {
        1
    } else {
        0
    }
}

/// Whether the token carries a leading minus sign.
pub open spec fn is_negative(s: Seq<char>) -> bool {
    s.len() > 0 && s[0] == '-'
}

/// The token with its sign removed.
pub open spec fn num_body(s: Seq<char>) -> Seq<char> {
    s.skip(sign_len(s))
}

/// The digits before the decimal point.
pub open spec fn int_part(b: Seq<char>) -> Seq<char> {
    b.take(first_sep(b, '.') as int)
}

/// The digits after the decimal point, empty when there is none.
pub open spec fn frac_part(b: Seq<char>) -> Seq<char> {
    if has_sep(b, '.') {
        b.skip(first_sep(b, '.') as int + 1)
    } else {
        Seq::empty()
    }
}

/// An unsigned decimal body: digits around at most one point, at least one
/// digit in all.
pub open spec fn body_ok(b: Seq<char>) -> bool {
    &&& all_digits(int_part(b))
    &&& all_digits(frac_part(b))
    &&& int_part(b).len() + frac_part(b).len() >= 1
}

/// The `i`-th digit of `s`, or zero past its end.
pub open spec fn dchar(s: Seq<char>, i: int) -> int {
    if 0 <= i < s.len() {
        dval(s[i])
    } else {
        0
    }
}

/// The first three fractional digits as thousandths, zero-padded.
pub open spec fn frac_milli(f: Seq<char>) -> int {
    dchar(f, 0) * 100 + dchar(f, 1) * 10 + dchar(f, 2)
}

/// The body's value in thousandths of a unit.
pub open spec fn body_milli(b: Seq<char>) -> int {
    digits_val(int_part(b)) * 1000 + frac_milli(frac_part(b))
}

/// A well-formed signed decimal token whose integer part stays below one
/// million units.
pub open spec fn milli_ok(s: Seq<char>) -> bool {
    body_ok(num_body(s)) && digits_val(int_part(num_body(s))) < 1_000_000
}

/// The token's signed value in thousandths of a unit.
pub open spec fn milli_val(s: Seq<char>) -> int {
    if is_negative(s) {
        -body_milli(num_body(s))
    } else {
        body_milli(num_body(s))
    }
}

/// The token with one trailing `mm` unit marker removed, if present.
pub open spec fn strip_unit(s: Seq<char>) -> Seq<char> {
    if s.len() >= 2 && s[s.len() - 2] == 'm' && s[s.len() - 1] == 'm' {
        s.take(s.len() - 2)
    } else {
        s
    }
}

/// A well-formed length field: decimal body after stripping the unit.
pub open spec fn mm_ok(s: Seq<char>) -> bool {
    milli_ok(strip_unit(s))
}

/// The length field's value in thousandths of a millimetre.
pub open spec fn mm_val(s: Seq<char>) -> int {
    milli_val(strip_unit(s))
}

/// Every well-formed decimal token has a value strictly inside the
/// parsed-length domain.
pub proof fn lemma_milli_val_range(s: Seq<char>)
    requires
        milli_ok(s),
    ensures
        -LEN_LIMIT < milli_val(s) < LEN_LIMIT,
        in_len_range(milli_val(s)),
{
    let b = num_body(s);
    lemma_digits_val_nonneg(int_part(b));
    assert(frac_milli(frac_part(b)) <= 999 && frac_milli(frac_part(b)) >= 0) by {
        let f = frac_part(b);
        assert(dchar(f, 0) <= 9 && dchar(f, 0) >= 0);
        assert(dchar(f, 1) <= 9 && dchar(f, 1) >= 0);
        assert(dchar(f, 2) <= 9 && dchar(f, 2) >= 0);
    }
    assert(digits_val(int_part(b)) * 1000 <= 999_999_000);
}

/// And so has every well-formed length field.
pub proof fn lemma_mm_val_range(s: Seq<char>)
    requires
        mm_ok(s),
    ensures
        -LEN_LIMIT < mm_val(s) < LEN_LIMIT,
        in_len_range(mm_val(s)),
{
    lemma_milli_val_range(strip_unit(s));
}

/// A well-formed count field: one or more digits, value at most `u32::MAX`.
pub open spec fn u32_ok(s: Seq<char>) -> bool {
    s.len() >= 1 && all_digits(s) && digits_val(s) <= u32::MAX
}

/// The count field's value.
pub open spec fn u32_val(s: Seq<char>) -> int {
    digits_val(s)
}

/// The digit value of `c`, if it is one.
fn digit_of(c: char) -> (r: Option<u8>)
    ensures
        r is Some <==> is_digit(c),
        r matches Some(d) ==> d == dval(c),
{
    let u = c as u32;
    if '0' as u32 <= u && u <= '9' as u32 {
        Some((u - '0' as u32) as u8)
    } else {
        None
    }
}

/// Read a signed decimal token into thousandths of a unit.
pub fn parse_milli(raw: &str) -> (r: Option<i64>)
    ensures
        r is Some <==> milli_ok(raw@),
        r matches Some(v) ==> v == milli_val(raw@) && -LEN_LIMIT < v < LEN_LIMIT,
{
    let n = raw.unicode_len();
    let mut i: usize = 0;
    let mut neg = false;
    if n > 0 {
        let c0 = raw.get_char(0);
        if c0 == '-' {
            neg = true;
            i = 1;
        } else if c0 == '+' {
            i = 1;
        }
    }
    let ghost b = num_body(raw@);
    proof {
        assert(b =~= raw@.skip(i as int));
        assert(neg == is_negative(raw@));
    }
    let sign_start = i;
    let mut acc: u64 = 0;
    let mut j = i;
    while j < n && raw.get_char(j) != '.'
        invariant
            n == raw@.len(),
            sign_start <= j <= n,
            sign_start == sign_len(raw@),
            b == num_body(raw@),
            b =~= raw@.skip(sign_start as int),
            forall|k: int| sign_start <= k < j ==> raw@[k] != '.' && is_digit(raw@[k]),
            acc == digits_val(raw@.subrange(sign_start as int, j as int)),
            acc < 1_000_000,
        decreases n - j,
    {
        let c = raw.get_char(j);
        let d = match digit_of(c) {
            Some(d) => d,
            None => {
                proof {
                    if milli_ok(raw@) {
                        lemma_first_sep(b, '.');
                        assert(b[j - sign_start] == raw@[j as int]);
                        assert(first_sep(b, '.') > j - sign_start);
                        assert(int_part(b)[j - sign_start] == raw@[j as int]);
                    }
                }
                return None;
            },
        };
        proof {
            let pre = raw@.subrange(sign_start as int, j as int);
            assert(raw@.subrange(sign_start as int, j + 1) =~= pre.push(raw@[j as int]));
            lemma_digits_val_push(pre, raw@[j as int]);
        }
        acc = acc * 10 + (d as u64);
        if acc >= 1_000_000 {
            proof {
                if milli_ok(raw@) {
                    lemma_first_sep(b, '.');
                    assert forall|k: int| 0 <= k < j + 1 - sign_start implies int_part(b)[k]
                        == raw@[k + sign_start] by {
                        assert(b[k] == raw@[k + sign_start]);
                    }
                    assert(int_part(b).take(j + 1 - sign_start) =~= raw@.subrange(
                        sign_start as int,
                        j + 1,
                    ));
                    lemma_digits_val_ge_prefix(int_part(b), j + 1 - sign_start, 1_000_000);
                }
            }
            return None;
        }
        j = j + 1;
    }
    // `j` is at the decimal point or the end: the integer part is settled.
    proof {
        lemma_first_sep(b, '.');
        if j < n {
            assert(b[j - sign_start] == raw@[j as int]);
        }
        assert(first_sep(b, '.') == j - sign_start);
        assert(int_part(b) =~= raw@.subrange(sign_start as int, j as int));
    }
    let int_digits = j - sign_start;
    let mut f: u64 = 0;
    let mut fcount: usize = 0;
    if j < n {
        // Skip the point and read the fraction.
        let mut k = j + 1;
        while k < n
            invariant
                n == raw@.len(),
                j + 1 <= k <= n,
                j < n,
                b == num_body(raw@),
                b =~= raw@.skip(sign_len(raw@)),
                sign_start == sign_len(raw@),
                first_sep(b, '.') == j - sign_start,
                has_sep(b, '.'),
                forall|k2: int| j + 1 <= k2 < k ==> is_digit(raw@[k2]),
                fcount == k - (j + 1),
                f == frac_milli(raw@.subrange(j + 1, k as int)),
                f <= 999,
            decreases n - k,
        {
            let c = raw.get_char(k);
            let d = match digit_of(c) {
                Some(d) => d,
                None => {
                    proof {
                        if milli_ok(raw@) {
                            assert(frac_part(b) == b.skip(j - sign_start + 1));
                            assert(frac_part(b)[k - sign_start - (j - sign_start + 1)]
                                == raw@[k as int]);
                        }
                    }
                    return None;
                },
            };
            proof {
                let pre = raw@.subrange(j + 1, k as int);
                let post = raw@.subrange(j + 1, k + 1);
                assert(post =~= pre.push(raw@[k as int]));
                assert(dchar(post, 0) == if pre.len() == 0 {
                    dval(raw@[k as int])
                } else {
                    dchar(pre, 0)
                });
                assert(dchar(post, 1) == if pre.len() == 1 {
                    dval(raw@[k as int])
                } else {
                    dchar(pre, 1)
                });
                assert(dchar(post, 2) == if pre.len() == 2 {
                    dval(raw@[k as int])
                } else {
                    dchar(pre, 2)
                });
            }
            if fcount == 0 {
                f = f + (d as u64) * 100;
            } else if fcount == 1 {
                f = f + (d as u64) * 10;
            } else if fcount == 2 {
                f = f + (d as u64);
            }
            fcount = fcount + 1;
            k = k + 1;
        }
        proof {
            assert(frac_part(b) =~= raw@.subrange(j + 1, n as int));
        }
    } else {
        proof {
            assert(!has_sep(b, '.'));
            assert(frac_part(b) =~= raw@.subrange(j + 1, j + 1).take(0));
            assert(frac_part(b).len() == 0);
            assert(f == frac_milli(frac_part(b))) by {
                assert(frac_milli(Seq::<char>::empty()) == 0);
            }
        }
    }
    if int_digits == 0 && (j >= n || n - j <= 1) {
        // No digit anywhere: the body is empty or just a point.
        proof {
            assert(int_part(b).len() == 0);
            assert(frac_part(b).len() == 0);
        }
        return None;
    }
    proof {
        assert(frac_part(b) =~= if has_sep(b, '.') {
            raw@.subrange(j + 1, n as int)
        } else {
            Seq::<char>::empty()
        });
        assert(f == frac_milli(frac_part(b)));
        assert(acc == digits_val(int_part(b)));
        assert(body_ok(b));
        assert(milli_ok(raw@));
    }
    let magnitude = acc * 1000 + f;
    let v: i64 = if neg {
        -(magnitude as i64)
    } else {
        magnitude as i64
    };
    proof {
        assert(body_milli(b) == acc * 1000 + f);
    }
    Some(v)
}

/// Read a length field: a decimal literal with an optional `mm` marker.
pub fn parse_mm(raw: &str, line_number: usize) -> (r: Result<i64, Error>)
    ensures
        r is Ok <==> mm_ok(raw@),
        r matches Ok(v) ==> v == mm_val(raw@) && -LEN_LIMIT < v < LEN_LIMIT,
        r matches Err(e) ==> e@ == (ErrorV::BadValue { text: raw@, line_number: line_number as int }),
{
    let n = raw.unicode_len();
    let parsed: Option<i64> = if n >= 2 && raw.get_char(n - 2) == 'm' && raw.get_char(n - 1)
        == 'm' {
        let body = raw.substring_char(0, n - 2);
        proof {
            assert(body@ =~= strip_unit(raw@));
        }
        parse_milli(body)
    } else {
        proof {
            assert(raw@ == strip_unit(raw@));
        }
        parse_milli(raw)
    };
    match parsed {
        Some(v) => Ok(v),
        None => Err(Error::BadValue { text: raw.to_owned(), line_number }),
    }
}

/// Read a count field: an unsigned decimal that fits in a `u32`.
pub fn parse_u32(raw: &str) -> (r: Option<u32>)
    ensures
        r is Some <==> u32_ok(raw@),
        r matches Some(v) ==> v == u32_val(raw@),
{
    let n = raw.unicode_len();
    if n == 0 {
        return None;
    }
    let mut acc: u64 = 0;
    let mut j: usize = 0;
    while j < n
        invariant
            n == raw@.len(),
            j <= n,
            forall|k: int| 0 <= k < j ==> is_digit(raw@[k]),
            acc == digits_val(raw@.subrange(0, j as int)),
            acc <= u32::MAX,
        decreases n - j,
    {
        let c = raw.get_char(j);
        let d = match digit_of(c) {
            Some(d) => d,
            None => {
                return None;
            },
        };
        proof {
            let pre = raw@.subrange(0, j as int);
            assert(raw@.subrange(0, j + 1) =~= pre.push(raw@[j as int]));
            lemma_digits_val_push(pre, raw@[j as int]);
        }
        acc = acc * 10 + (d as u64);
        if acc > (u32::MAX as u64) {
            proof {
                if u32_ok(raw@) {
                    assert(raw@.take(j + 1) =~= raw@.subrange(0, j + 1));
                    lemma_digits_val_ge_prefix(raw@, j + 1, acc as int);
                }
            }
            return None;
        }
        j = j + 1;
    }
    proof {
        assert(raw@.subrange(0, n as int) =~= raw@);
    }
    Some(acc as u32)
}

} // verus!
