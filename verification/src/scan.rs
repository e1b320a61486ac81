//! Character-level scanning helpers: equality, search and splitting on a
//! separator, with their specification-level counterparts.
//!
//! The style script is line-oriented and comma-separated, so everything the
//! parser needs reduces to [`spec_split`] plus a few searches.

use vstd::prelude::*;
use vstd::string::*;

verus! {

/// The views of a sequence of owned strings.
pub open spec fn sview(v: Seq<String>) -> Seq<Seq<char>> {
    v.map_values(|s: String| s@)
}

/// Index of the first occurrence of `sep` in `s`, or `s.len()` if absent.
pub open spec fn first_sep(s: Seq<char>, sep: char) -> nat
    decreases s.len(),
{
    if s.len() == 0 {
        0
    } else if s[0] == sep {
        0
    } else {
        1 + first_sep(s.skip(1), sep)
    }
}

/// `first_sep` finds the first occurrence: nothing before it matches, and it
/// points at a match unless there is none.
pub proof fn lemma_first_sep(s: Seq<char>, sep: char)
    ensures
        first_sep(s, sep) <= s.len(),
        first_sep(s, sep) < s.len() ==> s[first_sep(s, sep) as int] == sep,
        forall|k: int| 0 <= k < first_sep(s, sep) ==> s[k] != sep,
    decreases s.len(),
{
    if s.len() == 0 {
    } else if s[0] == sep {
    } else {
        lemma_first_sep(s.skip(1), sep);
        assert forall|k: int| 0 <= k < first_sep(s, sep) implies s[k] != sep by {
            if k > 0 {
                assert(s.skip(1)[k - 1] == s[k]);
            }
        }
    }
}

/// Whether `sep` occurs anywhere in `s`.
pub open spec fn has_sep(s: Seq<char>, sep: char) -> bool {
    first_sep(s, sep) < s.len()
}

/// `s` split on `sep`: the separator-free pieces between occurrences, in
/// order.  An empty input yields one empty piece, as `str::split` does.
pub open spec fn spec_split(s: Seq<char>, sep: char) -> Seq<Seq<char>>
    decreases s.len(),
{
    let i = first_sep(s, sep) as int;
    if i >= s.len() {
        seq![s]
    } else {
        seq![s.take(i)] + spec_split(s.skip(i + 1), sep)
    }
}

/// A separator-free sequence splits into just itself.
pub proof fn lemma_split_whole(s: Seq<char>, sep: char)
    requires
        forall|k: int| 0 <= k < s.len() ==> s[k] != sep,
    ensures
        spec_split(s, sep) == seq![s],
{
    lemma_first_sep(s, sep);
    assert(first_sep(s, sep) == s.len());
}

/// Splitting at the first separator peels off the leading piece.
pub proof fn lemma_split_head(s: Seq<char>, sep: char, j: int)
    requires
        0 <= j < s.len(),
        s[j] == sep,
        forall|k: int| 0 <= k < j ==> s[k] != sep,
    ensures
        spec_split(s, sep) == seq![s.take(j)] + spec_split(s.skip(j + 1), sep),
{
    lemma_first_sep(s, sep);
    assert(first_sep(s, sep) == j);
}

/// Character-by-character string equality, by the views.
pub fn string_eq(a: &str, b: &str) -> (r: bool)
    ensures
        r == (a@ == b@),
{
    let n = a.unicode_len();
    if n != b.unicode_len() {
        return false;
    }
    let mut i: usize = 0;
    while i < n
        invariant
            n == a@.len(),
            n == b@.len(),
            i <= n,
            forall|k: int| 0 <= k < i ==> a@[k] == b@[k],
        decreases n - i,
    {
        if a.get_char(i) != b.get_char(i) {
            return false;
        }
        i = i + 1;
    }
    proof {
        assert(a@ =~= b@);
    }
    true
}

/// Index of the first occurrence of `c` in `s`, or the length if absent.
pub fn find_char(s: &str, c: char) -> (r: usize)
    ensures
        r == first_sep(s@, c),
{
    let n = s.unicode_len();
    let mut i: usize = 0;
    while i < n
        invariant
            n == s@.len(),
            i <= n,
            forall|k: int| 0 <= k < i ==> s@[k] != c,
        decreases n - i,
    {
        if s.get_char(i) == c {
            proof {
                lemma_first_sep(s@, c);
            }
            return i;
        }
        i = i + 1;
    }
    proof {
        lemma_first_sep(s@, c);
    }
    n
}

/// Whether `c` occurs in `s`.
pub fn contains_char(s: &str, c: char) -> (r: bool)
    ensures
        r == has_sep(s@, c),
{
    let n = s.unicode_len();
    let i = find_char(s, c);
    i < n
}

/// Split `s` on every occurrence of `sep`, as owned pieces.
pub fn split_str(s: &str, sep: char) -> (r: Vec<String>)
    ensures
        sview(r@) == spec_split(s@, sep),
{
    let n = s.unicode_len();
    let mut r: Vec<String> = Vec::new();
    let mut start: usize = 0;
    let mut i: usize = 0;
    proof {
        assert(s@.skip(0) =~= s@);
        assert(sview(r@) =~= Seq::<Seq<char>>::empty());
        assert(sview(r@) + spec_split(s@, sep) =~= spec_split(s@, sep));
    }
    while i < n
        invariant
            n == s@.len(),
            start <= i <= n,
            forall|k: int| start <= k < i ==> s@[k] != sep,
            sview(r@) + spec_split(s@.skip(start as int), sep) == spec_split(s@, sep),
        decreases n - i,
    {
        if s.get_char(i) == sep {
            let piece = s.substring_char(start, i).to_owned();
            proof {
                let t = s@.skip(start as int);
                assert(t[i - start as int] == sep);
                assert forall|k: int| 0 <= k < i - start as int implies t[k] != sep by {
                    assert(t[k] == s@[k + start as int]);
                }
                lemma_split_head(t, sep, i - start as int);
                assert(t.take(i - start as int) =~= s@.subrange(start as int, i as int));
                assert(t.skip(i - start as int + 1) =~= s@.skip(i as int + 1));
            }
            let ghost old_r = r@;
            r.push(piece);
            proof {
                assert(sview(r@) =~= sview(old_r).push(piece@));
                assert(sview(r@) + spec_split(s@.skip(i as int + 1), sep) =~= sview(old_r)
                    + (seq![s@.subrange(start as int, i as int)] + spec_split(
                    s@.skip(i as int + 1),
                    sep,
                )));
            }
            start = i + 1;
        }
        i = i + 1;
    }
    let piece = s.substring_char(start, n).to_owned();
    proof {
        let t = s@.skip(start as int);
        assert forall|k: int| 0 <= k < t.len() implies t[k] != sep by {
            assert(t[k] == s@[k + start as int]);
        }
        lemma_split_whole(t, sep);
        assert(t =~= s@.subrange(start as int, n as int));
    }
    let ghost old_r = r@;
    r.push(piece);
    proof {
        assert(sview(r@) =~= sview(old_r).push(piece@));
        assert(sview(r@) =~= sview(old_r) + seq![s@.subrange(start as int, n as int)]);
    }
    r
}

/// A line with its trailing carriage return removed, if it has one.
pub open spec fn strip_cr(l: Seq<char>) -> Seq<char> {
    if l.len() > 0 && l[l.len() - 1] == '\r' {
        l.drop_last()
    } else {
        l
    }
}

/// The lines of a script text: split on newline, each line stripped of one
/// trailing carriage return.
pub open spec fn spec_lines(t: Seq<char>) -> Seq<Seq<char>> {
    spec_split(t, '\n').map_values(|l: Seq<char>| strip_cr(l))
}

/// A copy of `line` with one trailing carriage return removed, if present.
fn strip_cr_exec(line: &str) -> (r: String)
    ensures
        r@ == strip_cr(line@),
{
    let n = line.unicode_len();
    if n > 0 && line.get_char(n - 1) == '\r' {
        let stripped = line.substring_char(0, n - 1).to_owned();
        proof {
            assert(stripped@ =~= strip_cr(line@));
        }
        stripped
    } else {
        line.to_owned()
    }
}

/// Split a script text into lines.
pub fn split_lines(text: &str) -> (r: Vec<String>)
    ensures
        sview(r@) == spec_lines(text@),
{
    let raw = split_str(text, '\n');
    let mut r: Vec<String> = Vec::new();
    let mut i: usize = 0;
    proof {
        assert(sview(r@) =~= spec_lines(text@).take(0));
    }
    while i < raw.len()
        invariant
            sview(raw@) == spec_split(text@, '\n'),
            i <= raw.len(),
            sview(r@) == spec_lines(text@).take(i as int),
        decreases raw.len() - i,
    {
        let line = &raw[i];
        proof {
            assert(sview(raw@)[i as int] == raw@[i as int]@);
            assert(spec_lines(text@)[i as int] == strip_cr(spec_split(text@, '\n')[i as int]));
        }
        let piece = strip_cr_exec(line.as_str());
        let ghost old_r = r@;
        r.push(piece);
        proof {
            assert(sview(old_r).len() == old_r.len());
            assert(old_r.len() == i as int);
            assert forall|k: int| 0 <= k < i + 1 implies sview(r@)[k] == spec_lines(text@).take(
                i + 1,
            )[k] by {
                assert(sview(r@)[k] == r@[k]@);
                if k < i {
                    assert(r@[k] == old_r[k]);
                    assert(sview(old_r)[k] == old_r[k]@);
                    assert(sview(old_r)[k] == spec_lines(text@).take(i as int)[k]);
                }
            }
            assert(sview(r@) =~= spec_lines(text@).take(i + 1));
        }
        i = i + 1;
    }
    proof {
        assert(spec_lines(text@).take(raw@.len() as int) =~= spec_lines(text@));
    }
    r
}

} // verus!
