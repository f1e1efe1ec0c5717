//! The expression language's functions on strings, where their arguments are
//! plain strings: prefix and suffix tests, replacing and counting a pattern,
//! and the first and last characters.
use vstd::prelude::*;

use crate::text::{chars_of, has_prefix, push_char, push_str, starts_with};

verus! {

/// Whether `s` ends with `suffix`.
pub open spec fn has_suffix(s: Seq<char>, suffix: Seq<char>) -> bool {
    s.len() >= suffix.len() && s.skip(s.len() - suffix.len()) == suffix
}

/// `r` before each character of `s` and after the last one.
pub open spec fn interleaved(s: Seq<char>, r: Seq<char>) -> Seq<char>
    decreases s.len(),
{
    if s.len() == 0 {
        r
    } else {
        r + seq![s[0]] + interleaved(s.skip(1), r)
    }
}

/// `s` with each occurrence of `p`, found from the left without overlap,
/// replaced by `r`; an empty pattern occurs before each character and at
/// the end.
pub open spec fn replaced(s: Seq<char>, p: Seq<char>, r: Seq<char>) -> Seq<char>
    decreases s.len(),
{
    if p.len() == 0 {
        interleaved(s, r)
    } else if s.len() == 0 {
        Seq::empty()
    } else if has_prefix(s, p) {
        r + replaced(s.skip(p.len() as int), p, r)
    } else {
        seq![s[0]] + replaced(s.skip(1), p, r)
    }
}

/// How many times `p` occurs in `s`, found from the left without overlap;
/// an empty pattern occurs before each character and at the end.
pub open spec fn match_count(s: Seq<char>, p: Seq<char>) -> nat
    decreases s.len(),
{
    if p.len() == 0 {
        s.len() + 1
    } else if s.len() == 0 {
        0
    } else if has_prefix(s, p) {
        1 + match_count(s.skip(p.len() as int), p)
    } else {
        match_count(s.skip(1), p)
    }
}

fn matches_at(a: &Vec<char>, i: usize, p: &Vec<char>) -> (r: bool)
    requires
        i <= a@.len(),
    ensures
        r == has_prefix(a@.skip(i as int), p@),
{
    if a.len() - i < p.len() {
        return false;
    }
    let mut k: usize = 0;
    while k < p.len()
        invariant
            i + p@.len() <= a@.len(),
            a@.len() <= usize::MAX,
            k <= p@.len(),
            forall|j: int| 0 <= j < k ==> a@[i + j] == p@[j],
        decreases p@.len() - k,
    {
        if a[i + k] != p[k] {
            assert(a@.skip(i as int).take(p@.len() as int)[k as int] == a@[i + k]);
            return false;
        }
        k += 1;
    }
    assert(a@.skip(i as int).take(p@.len() as int) =~= p@);
    true
}

/// Whether `string` starts with `pattern`.
pub fn startswith(string: &str, pattern: &str) -> (r: bool)
    ensures
        r == has_prefix(string@, pattern@),
{
    starts_with(string, pattern)
}

/// Whether `string` ends with `pattern`.
pub fn endswith(string: &str, pattern: &str) -> (r: bool)
    ensures
        r == has_suffix(string@, pattern@),
{
    let a = chars_of(string);
    let p = chars_of(pattern);
    if a.len() < p.len() {
        return false;
    }
    let start = a.len() - p.len();
    let r = matches_at(&a, start, &p);
    proof {
        if r {
            assert(a@.skip(start as int).take(p@.len() as int) == a@.skip(start as int));
        } else {
            assert(a@.skip(start as int) == a@.skip(start as int).take(p@.len() as int));
        }
    }
    r
}

/// `string` with every occurrence of `pattern` replaced by `replacement`,
/// as `str::replace` does.
pub fn replace(string: &str, pattern: &str, replacement: &str) -> (r: String)
    ensures
        r@ == replaced(string@, pattern@, replacement@),
{
    let a = chars_of(string);
    let p = chars_of(pattern);
    let mut out = String::new();
    let mut i: usize = 0;
    assert(a@.skip(0) =~= a@);
    assert(out@ + a@ =~= a@);
    if p.len() == 0 {
        while i < a.len()
            invariant
                a@ == string@,
                p@ == pattern@,
                i <= a@.len(),
                out@ + interleaved(a@.skip(i as int), replacement@) == interleaved(a@, replacement@),
            decreases a@.len() - i,
        {
            let ghost before = out@;
            assert(a@.skip(i as int).skip(1) == a@.skip(i + 1));
            assert(a@.skip(i as int)[0] == a@[i as int]);
            push_str(&mut out, replacement);
            push_char(&mut out, a[i]);
            assert(out@ + interleaved(a@.skip(i + 1), replacement@) =~= before + interleaved(
                a@.skip(i as int),
                replacement@,
            ));
            i += 1;
        }
        assert(a@.skip(i as int).len() == 0);
        push_str(&mut out, replacement);
        return out;
    }
    while i < a.len()
        invariant
            a@ == string@,
            p@ == pattern@,
            p@.len() > 0,
            i <= a@.len(),
            out@ + replaced(a@.skip(i as int), p@, replacement@) == replaced(
                a@,
                p@,
                replacement@,
            ),
        decreases a@.len() - i,
    {
        let ghost before = out@;
        let ghost rest = a@.skip(i as int);
        if matches_at(&a, i, &p) {
            assert(rest.skip(p@.len() as int) == a@.skip(i + p@.len()));
            push_str(&mut out, replacement);
            assert(out@ + replaced(a@.skip(i + p@.len()), p@, replacement@) =~= before + replaced(
                rest,
                p@,
                replacement@,
            ));
            i += p.len();
        } else {
            assert(rest.skip(1) == a@.skip(i + 1));
            assert(rest[0] == a@[i as int]);
            push_char(&mut out, a[i]);
            assert(out@ + replaced(a@.skip(i + 1), p@, replacement@) =~= before + replaced(
                rest,
                p@,
                replacement@,
            ));
            i += 1;
        }
    }
    assert(a@.skip(i as int).len() == 0);
    assert(out@ + Seq::<char>::empty() == out@);
    out
}

/// How many times `pattern` occurs in `string`, as `str::matches` counts
/// them.
pub fn count(string: &str, pattern: &str) -> (r: usize)
    requires
        string@.len() < usize::MAX,
    ensures
        r == match_count(string@, pattern@),
{
    let a = chars_of(string);
    let p = chars_of(pattern);
    if p.len() == 0 {
        return a.len() + 1;
    }
    let mut n: usize = 0;
    let mut i: usize = 0;
    assert(a@.skip(0) =~= a@);
    while i < a.len()
        invariant
            a@ == string@,
            p@ == pattern@,
            p@.len() > 0,
            i <= a@.len(),
            n <= i,
            n + match_count(a@.skip(i as int), p@) == match_count(a@, p@),
        decreases a@.len() - i,
    {
        let ghost rest = a@.skip(i as int);
        if matches_at(&a, i, &p) {
            assert(rest.skip(p@.len() as int) == a@.skip(i + p@.len()));
            n += 1;
            i += p.len();
        } else {
            assert(rest.skip(1) == a@.skip(i + 1));
            i += 1;
        }
    }
    assert(a@.skip(i as int).len() == 0);
    n
}

/// The first character of `string`, if any.
pub fn first(string: &str) -> (r: Option<char>)
    ensures
        r == if string@.len() > 0 {
            Some(string@[0])
        } else {
            None::<char>
        },
{
    let a = chars_of(string);
    if a.len() > 0 {
        Some(a[0])
    } else {
        None
    }
}

/// The last character of `string`, if any.
pub fn last(string: &str) -> (r: Option<char>)
    ensures
        r == if string@.len() > 0 {
            Some(string@.last())
        } else {
            None::<char>
        },
{
    let a = chars_of(string);
    if a.len() > 0 {
        Some(a[a.len() - 1])
    } else {
        None
    }
}

} // verus!
