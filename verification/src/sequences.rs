//! Slicing of strings and lists, as the `slice` function of the
//! expression language does it, negative indices counting from the end.
use vstd::prelude::*;

use crate::text::{chars_of, string_from_chars};

verus! {

/// An index that counts from the end when negative, made absolute and
/// brought up to zero.
pub open spec fn from_end(i: int, len: int) -> int {
    if i < 0 {
        if len + i > 0 {
            len + i
        } else {
            0
        }
    } else {
        i
    }
}

pub open spec fn min_int(a: int, b: int) -> int {
    if a < b {
        a
    } else {
        b
    }
}

/// The range of a list of `len` items that `slice` takes: with no upper
/// bound, the items before `lo` (nothing when `lo` is past the end);
/// otherwise those from `lo` up to `hi`, excluded.
pub open spec fn list_slice_range(len: int, lo: int, hi: Option<int>) -> (int, int) {
    match hi {
        None => if lo < 0 {
            (0, from_end(lo, len))
        } else if lo >= len {
            (0, 0)
        } else {
            (0, lo)
        },
        Some(h) => if lo >= len {
            (0, 0)
        } else if from_end(h, len) <= from_end(lo, len) {
            (0, 0)
        } else {
            (from_end(lo, len), min_int(from_end(h, len), len))
        },
    }
}

/// The range of the characters of a string of `len` characters that
/// `slice` takes: from `lo` to the end, or up to `hi`, excluded. With a
/// nonnegative `lo`, an upper bound below it counts as a length that wraps
/// around to a large one, and the rest of the string is taken.
pub open spec fn str_slice_range(len: int, lo: int, hi: Option<int>) -> (int, int) {
    let start = min_int(from_end(lo, len), len);
    match hi {
        None => (start, len),
        Some(h) => if lo < 0 {
            if from_end(h, len) <= from_end(lo, len) {
                (start, start)
            } else {
                (start, min_int(from_end(h, len), len))
            }
        } else if from_end(h, len) >= lo {
            (start, min_int(from_end(h, len), len))
        } else {
            (start, len)
        },
    }
}

fn from_end_exec(i: i128, len: i128) -> (r: i128)
    requires
        -0x8000_0000_0000_0000 <= i < 0x8000_0000_0000_0000,
        0 <= len < 0x1_0000_0000_0000_0000,
    ensures
        r == from_end(i as int, len as int),
{
    if i < 0 {
        if len + i > 0 {
            len + i
        } else {
            0
        }
    } else {
        i
    }
}

/// The bounds of the part of a list of `len` items that `slice` takes.
pub fn slice_bounds(len: usize, lo: i64, hi: Option<i64>) -> (r: (usize, usize))
    ensures
        r.0 <= r.1 <= len,
        (r.0 as int, r.1 as int) == list_slice_range(len as int, lo as int, match hi {
            Some(h) => Some(h as int),
            None => None,
        }),
{
    let l = len as i128;
    let lo2 = from_end_exec(lo as i128, l);
    match hi {
        None => {
            if lo < 0 {
                (0, lo2 as usize)
            } else if lo as i128 >= l {
                (0, 0)
            } else {
                (0, lo as usize)
            }
        },
        Some(h) => {
            let h2 = from_end_exec(h as i128, l);
            if lo as i128 >= l {
                (0, 0)
            } else if h2 <= lo2 {
                (0, 0)
            } else {
                let end = if h2 < l {
                    h2
                } else {
                    l
                };
                (lo2 as usize, end as usize)
            }
        },
    }
}

/// The characters of `s` that `slice` takes.
pub fn slice_str(s: &str, lo: i64, hi: Option<i64>) -> (r: String)
    ensures
        ({
            let (a, b) = str_slice_range(s@.len() as int, lo as int, match hi {
                Some(h) => Some(h as int),
                None => None,
            });
            r@ == s@.subrange(a, b)
        }),
{
    let cs = chars_of(s);
    let l = cs.len() as i128;
    let lo2 = from_end_exec(lo as i128, l);
    let start: i128 = if lo2 < l {
        lo2
    } else {
        l
    };
    let end: i128 = match hi {
        None => l,
        Some(h) => {
            let h2 = from_end_exec(h as i128, l);
            let capped = if h2 < l {
                h2
            } else {
                l
            };
            if lo < 0 {
                if h2 <= lo2 {
                    start
                } else {
                    capped
                }
            } else if h2 >= lo as i128 {
                capped
            } else {
                l
            }
        },
    };
    let mut out: Vec<char> = Vec::new();
    let mut i: usize = start as usize;
    while i < end as usize
        invariant
            0 <= start <= i <= end <= l,
            l == cs@.len(),
            out@ == cs@.subrange(start as int, i as int),
        decreases end - i,
    {
        out.push(cs[i]);
        i += 1;
    }
    string_from_chars(out.as_slice())
}


/// How many values `range` yields from `start` towards `stop`, `stop`
/// excluded, by steps of `step`.
pub open spec fn range_len(start: int, stop: int, step: int) -> int {
    if step > 0 {
        if start >= stop {
            0
        } else {
            (stop - start - 1) / step + 1
        }
    } else if start <= stop {
        0
    } else {
        (start - stop - 1) / (-step) + 1
    }
}

/// Whether `range` can walk from `start` towards `stop` without overflow:
/// the distance it measures, and the value one step past the last one it
/// yields, fit in an `i64`.
pub open spec fn range_fits(start: int, stop: int, step: int) -> bool {
    &&& step > 0 && start < stop ==> stop - start <= i64::MAX
    &&& step < 0 && start > stop ==> start - stop <= i64::MAX && step > i64::MIN
    &&& i64::MIN <= start + range_len(start, stop, step) * step <= i64::MAX
}

proof fn lemma_range_step(start: int, stop: int, step: int, k: int)
    requires
        step != 0,
        k >= 0,
    ensures
        step > 0 ==> (k < range_len(start, stop, step) <==> start + k * step < stop),
        step < 0 ==> (k < range_len(start, stop, step) <==> start + k * step > stop),
{
    if step > 0 && start < stop {
        let a = stop - start - 1;
        assert(k <= a / step <==> k * step <= a) by (nonlinear_arith)
            requires
                step > 0,
                a >= 0,
                k >= 0,
        ;
    } else if step > 0 {
        assert(k * step >= 0) by (nonlinear_arith)
            requires
                step > 0,
                k >= 0,
        ;
    } else if step < 0 && start > stop {
        let a = start - stop - 1;
        let b = -step;
        assert(k <= a / b <==> k * b <= a) by (nonlinear_arith)
            requires
                b > 0,
                a >= 0,
                k >= 0,
        ;
        assert(k * step == -(k * b)) by (nonlinear_arith)
            requires
                b == -step,
        ;
    } else {
        assert(k * step <= 0) by (nonlinear_arith)
            requires
                step < 0,
                k >= 0,
        ;
    }
}

/// The values from `start` towards `stop`, `stop` excluded, by steps of
/// `step`; a step of zero is an error.
pub fn range(start: i64, stop: i64, step: i64) -> (r: Result<Vec<i64>, String>)
    requires
        range_fits(start as int, stop as int, step as int),
    ensures
        step == 0 ==> (r matches Err(m) && m@ == "step cannot be 0"@),
        step != 0 ==> (r matches Ok(v) && v@.len() == range_len(start as int, stop as int, step as int)
            && forall|i: int| 0 <= i < v@.len() ==> #[trigger] v@[i] == start + i * step),
{
    if step == 0 {
        return Err("step cannot be 0".to_owned());
    }
    let ghost n = range_len(start as int, stop as int, step as int);
    let mut out: Vec<i64> = Vec::new();
    let mut current = start;
    proof {
        lemma_range_step(start as int, stop as int, step as int, 0);
        assert(n >= 0) by {
            if step > 0 && start < stop {
                assert((stop - start - 1) / (step as int) >= 0) by (nonlinear_arith)
                    requires
                        step > 0,
                        stop - start - 1 >= 0,
                ;
            } else if step < 0 && start > stop {
                assert((start - stop - 1) / (-step as int) >= 0) by (nonlinear_arith)
                    requires
                        -step > 0,
                        start - stop - 1 >= 0,
                ;
            }
        }
    }
    while (step > 0 && current < stop) || (step < 0 && current > stop)
        invariant
            step != 0,
            n == range_len(start as int, stop as int, step as int),
            range_fits(start as int, stop as int, step as int),
            0 <= out@.len() <= n,
            current == start + out@.len() * step,
            forall|i: int| 0 <= i < out@.len() ==> #[trigger] out@[i] == start + i * step,
        decreases n - out@.len(),
    {
        proof {
            lemma_range_step(start as int, stop as int, step as int, out@.len() as int);
            let k = out@.len() as int;
            assert(k < n);
            assert(i64::MIN <= start + (k + 1) * step <= i64::MAX) by {
                if step > 0 {
                    assert(start + (k + 1) * step <= start + n * step) by (nonlinear_arith)
                        requires
                            step > 0,
                            k + 1 <= n,
                    ;
                    assert(start + (k + 1) * step >= start + k * step) by (nonlinear_arith)
                        requires
                            step > 0,
                    ;
                } else {
                    assert(start + (k + 1) * step >= start + n * step) by (nonlinear_arith)
                        requires
                            step < 0,
                            k + 1 <= n,
                    ;
                    assert(start + (k + 1) * step <= start + k * step) by (nonlinear_arith)
                        requires
                            step < 0,
                    ;
                }
            }
            assert(start + (k + 1) * step == start + k * step + step) by (nonlinear_arith);
        }
        out.push(current);
        current = current + step;
    }
    proof {
        lemma_range_step(start as int, stop as int, step as int, out@.len() as int);
    }
    Ok(out)
}


/// A bound of `slice` read as a position of a list of `len` items: a
/// negative bound counts from the end.
pub open spec fn position_of_bound(i: int, len: int) -> int {
    if i < 0 {
        len + i
    } else {
        i
    }
}

/// The items `slice` takes out of a list of `len` items, given both bounds,
/// are exactly those at or after the lower bound and before the upper one,
/// each bound counting from the end when negative; nothing when the lower
/// bound is past the end.
pub proof fn law_list_slice_positions(len: int, lo: int, hi: int, i: int)
    requires
        0 <= len,
    ensures
        ({
            let (a, b) = list_slice_range(len, lo, Some(hi));
            &&& 0 <= a <= b <= len
            &&& (a <= i < b <==> (0 <= i < len && lo < len && position_of_bound(lo, len) <= i
                && i < position_of_bound(hi, len)))
        }),
{
}

/// Without an upper bound, `slice` takes the items before the bound, which
/// counts from the end when negative; nothing when the bound is past the
/// end.
pub proof fn law_list_slice_prefix(len: int, lo: int, i: int)
    requires
        0 <= len,
    ensures
        ({
            let (a, b) = list_slice_range(len, lo, None);
            &&& a == 0 && 0 <= b <= len
            &&& (a <= i < b <==> (0 <= i < len && lo < len && i < position_of_bound(lo, len)))
        }),
{
}

/// Negative bounds count from the end whatever the other bound: with
/// `-len <= lo < hi < 0`, `slice` takes the items from `len + lo` up to
/// `len + hi`.
pub proof fn law_list_slice_from_end(len: int, lo: int, hi: int)
    requires
        -len <= lo < hi < 0,
    ensures
        list_slice_range(len, lo, Some(hi)) == (len + lo, len + hi),
{
}

} // verus!
