//! Character-level helpers over strings.
//!
//! Strings are modelled as sequences of characters (`Seq<char>`); the
//! executable functions here work on the characters of a string and are
//! specified over that model.

use vstd::prelude::*;
use vstd::std_specs::iter::IteratorSpec;
use vstd::string::StringSliceAdditionalSpecFns;
use vstd::utf8::encode_utf8_decode_utf8;
use crate::runs::{leading_run, lemma_leading_run_unique, lemma_trailing_run_unique, trailing_run};

verus! {

/// Whether `c` carries the Unicode property `White_Space`.
pub open spec fn is_white_space(c: char) -> bool {
    ||| '\u{9}' <= c <= '\u{d}'
    ||| c == ' '
    ||| c == '\u{85}'
    ||| c == '\u{a0}'
    ||| c == '\u{1680}'
    ||| '\u{2000}' <= c <= '\u{200a}'
    ||| c == '\u{2028}'
    ||| c == '\u{2029}'
    ||| c == '\u{202f}'
    ||| c == '\u{205f}'
    ||| c == '\u{3000}'
}

/// `s` without its leading `'.'` characters.
pub open spec fn strip_leading_dots(s: Seq<char>) -> Seq<char> {
    s.skip(leading_run(s, |c: char| c == '.') as int)
}

/// `s` without its leading white space.
pub open spec fn trim_start(s: Seq<char>) -> Seq<char> {
    s.skip(leading_run(s, |c: char| is_white_space(c)) as int)
}

/// `s` without its trailing white space.
pub open spec fn trim_end(s: Seq<char>) -> Seq<char> {
    s.take(s.len() - trailing_run(s, |c: char| is_white_space(c)))
}

/// `s` without leading and trailing white space.
pub open spec fn trim(s: Seq<char>) -> Seq<char> {
    trim_end(trim_start(s))
}

/// The characters of `s`, in order.
pub fn chars_of(s: &str) -> (v: Vec<char>)
    ensures
        v@ == s@,
{
    let mut v: Vec<char> = Vec::new();
    for c in it: s.chars()
        invariant
            v@ == it.seq().take(it.index() as int),
            it.seq() == s@,
    {
        v.push(c);
    }
    v
}

/// Whether two strings hold the same characters.
pub fn str_eq(a: &str, b: &str) -> (r: bool)
    ensures
        r == (a@ == b@),
{
    let x = a.as_bytes();
    let y = b.as_bytes();
    proof {
        encode_utf8_decode_utf8(a@);
        encode_utf8_decode_utf8(b@);
    }
    if x.len() != y.len() {
        return false;
    }
    let mut i: usize = 0;
    while i < x.len()
        invariant
            i <= x.len(),
            x.len() == y.len(),
            x@ == vstd::utf8::encode_utf8(a@),
            y@ == vstd::utf8::encode_utf8(b@),
            forall|k: int| 0 <= k < i ==> x@[k] == y@[k],
        decreases x.len() - i,
    {
        if x[i] != y[i] {
            return false;
        }
        i += 1;
    }
    assert(x@ =~= y@);
    true
}

/// Whether `c` is white space.
pub fn char_is_white_space(c: char) -> (r: bool)
    ensures
        r == is_white_space(c),
{
    ('\u{9}' <= c && c <= '\u{d}') || c == ' ' || c == '\u{85}' || c == '\u{a0}' || c == '\u{1680}'
        || ('\u{2000}' <= c && c <= '\u{200a}') || c == '\u{2028}' || c == '\u{2029}' || c
        == '\u{202f}' || c == '\u{205f}' || c == '\u{3000}'
}

/// `s` without leading and trailing white space.
pub fn trimmed(s: &str) -> (r: &str)
    ensures
        r@ == trim(s@),
{
    let v = chars_of(s);
    let n = v.len();
    let ghost ws = |c: char| is_white_space(c);
    let mut from: usize = 0;
    while from < n && char_is_white_space(v[from])
        invariant
            from <= n,
            n == v.len(),
            forall|i: int| 0 <= i < from ==> is_white_space(#[trigger] v@[i]),
        decreases n - from,
    {
        from += 1;
    }
    proof {
        lemma_leading_run_unique(v@, ws, from as int);
    }
    let mut to: usize = n;
    while to > from && char_is_white_space(v[to - 1])
        invariant
            from <= to <= n,
            n == v.len(),
            forall|i: int| to <= i < n ==> is_white_space(#[trigger] v@[i]),
        decreases to,
    {
        to -= 1;
    }
    proof {
        let t = v@.skip(from as int);
        assert forall|i: int| t.len() - (n - to) <= i < t.len() implies ws(#[trigger] t[i]) by {
            assert(t[i] == v@[i + from]);
        }
        lemma_trailing_run_unique(t, ws, n - to);
        assert(t.take(t.len() - (n - to)) =~= v@.subrange(from as int, to as int));
    }
    s.substring_char(from, to)
}

/// `s` without its leading `'.'` characters.
pub fn without_leading_dots(s: &str) -> (r: &str)
    ensures
        r@ == strip_leading_dots(s@),
{
    let v = chars_of(s);
    let n = v.len();
    let mut from: usize = 0;
    while from < n && v[from] == '.'
        invariant
            from <= n,
            n == v.len(),
            forall|i: int| 0 <= i < from ==> #[trigger] v@[i] == '.',
        decreases n - from,
    {
        from += 1;
    }
    proof {
        lemma_leading_run_unique(v@, |c: char| c == '.', from as int);
        assert(v@.skip(from as int) =~= v@.subrange(from as int, n as int));
    }
    s.substring_char(from, n)
}

} // verus!
