//! What a window aggregation gives for each row, where it is exact: the row
//! counters, and the cumulative sum, minimum and maximum of integers.
use vstd::prelude::*;

use crate::window::WindowAggregationKind;

verus! {

/// The value a window aggregation gives for a row: nothing (a sum that
/// overflowed), a row count or index, or an integer.
#[derive(Debug, Clone, Copy, PartialEq, Eq, Structural)]
pub enum WindowValue {
    Missing,
    Index(usize),
    Integer(i64),
}

/// The sum of integers added in order, `None` from the first partial sum
/// that does not fit in an `i64` on.
pub open spec fn checked_sum(s: Seq<i64>) -> Option<i64>
    decreases s.len(),
{
    if s.len() == 0 {
        Some(0)
    } else {
        match checked_sum(s.drop_last()) {
            None => None,
            Some(a) => if i64::MIN <= a + s.last() <= i64::MAX {
                Some((a + s.last()) as i64)
            } else {
                None
            },
        }
    }
}

/// The smallest of integers, `None` when there is none.
pub open spec fn seq_min(s: Seq<i64>) -> Option<i64>
    decreases s.len(),
{
    if s.len() == 0 {
        None
    } else {
        match seq_min(s.drop_last()) {
            None => Some(s.last()),
            Some(m) => Some(if s.last() < m { s.last() } else { m }),
        }
    }
}

/// The largest of integers, `None` when there is none.
pub open spec fn seq_max(s: Seq<i64>) -> Option<i64>
    decreases s.len(),
{
    if s.len() == 0 {
        None
    } else {
        match seq_max(s.drop_last()) {
            None => Some(s.last()),
            Some(m) => Some(if s.last() > m { s.last() } else { m }),
        }
    }
}

/// The window aggregations whose values this module computes exactly.
pub open spec fn is_exact_kind(k: WindowAggregationKind) -> bool {
    k is RowNumber || k is RowIndex || k is CumulativeSum || k is CumulativeMin
        || k is CumulativeMax
}

/// Whether the aggregation reads a number out of each row.
pub open spec fn reads_numbers(k: WindowAggregationKind) -> bool {
    k is CumulativeSum || k is CumulativeMin || k is CumulativeMax
}

/// What the aggregation gives for the latest row, once `calls` rows were
/// run since it was made or cleared, `seen` being the numbers read.
pub open spec fn window_value(k: WindowAggregationKind, seen: Seq<i64>, calls: nat) -> WindowValue {
    match k {
        WindowAggregationKind::RowNumber => WindowValue::Index(calls as usize),
        WindowAggregationKind::RowIndex => WindowValue::Index((calls - 1) as usize),
        WindowAggregationKind::CumulativeSum => match checked_sum(seen) {
            Some(x) => WindowValue::Integer(x),
            None => WindowValue::Missing,
        },
        WindowAggregationKind::CumulativeMin => match seq_min(seen) {
            Some(x) => WindowValue::Integer(x),
            None => WindowValue::Missing,
        },
        WindowAggregationKind::CumulativeMax => match seq_max(seen) {
            Some(x) => WindowValue::Integer(x),
            None => WindowValue::Missing,
        },
        _ => WindowValue::Missing,
    }
}

/// The running state of one window aggregation.
pub struct WindowAggregator {
    kind: WindowAggregationKind,
    counter: usize,
    sum: Option<i64>,
    extreme: Option<i64>,
    seen: Ghost<Seq<i64>>,
}

impl WindowAggregator {
    /// Its kind.
    pub closed spec fn spec_kind(&self) -> WindowAggregationKind {
        self.kind
    }

    /// The numbers read since it was made or cleared.
    pub closed spec fn seen(&self) -> Seq<i64> {
        self.seen@
    }

    /// How many rows it was run on since it was made or cleared.
    pub closed spec fn calls(&self) -> nat {
        self.counter as nat
    }

    pub closed spec fn wf(&self) -> bool {
        &&& is_exact_kind(self.kind)
        &&& reads_numbers(self.kind) ==> self.seen@.len() == self.counter
        &&& !reads_numbers(self.kind) ==> self.seen@.len() == 0
        &&& self.sum == checked_sum(self.seen@)
        &&& self.kind is CumulativeMin ==> self.extreme == seq_min(self.seen@)
        &&& self.kind is CumulativeMax ==> self.extreme == seq_max(self.seen@)
        &&& !(self.kind is CumulativeMin || self.kind is CumulativeMax) ==> self.extreme is None
    }

    /// A fresh aggregation of an exact kind.
    pub fn new(kind: WindowAggregationKind) -> (r: Self)
        requires
            is_exact_kind(kind),
        ensures
            r.wf(),
            r.spec_kind() == kind,
            r.seen() == Seq::<i64>::empty(),
            r.calls() == 0,
    {
        Self { kind, counter: 0, sum: Some(0), extreme: None, seen: Ghost(Seq::empty()) }
    }

    /// Runs the aggregation on the next row, `value` being the number read
    /// out of it where the aggregation reads one: the row number counts
    /// from one, the row index from zero, and the cumulative ones give the
    /// sum, minimum or maximum of the numbers read so far.
    pub fn run(&mut self, value: Option<i64>) -> (r: WindowValue)
        requires
            old(self).wf(),
            old(self).calls() < usize::MAX,
            reads_numbers(old(self).spec_kind()) ==> value is Some,
        ensures
            final(self).wf(),
            final(self).spec_kind() == old(self).spec_kind(),
            final(self).calls() == old(self).calls() + 1,
            final(self).seen() == if reads_numbers(old(self).spec_kind()) {
                old(self).seen().push(value.unwrap())
            } else {
                old(self).seen()
            },
            r == window_value(old(self).spec_kind(), final(self).seen(), final(self).calls()),
    {
        let ghost s0 = self.seen@;
        self.counter = self.counter + 1;
        match self.kind {
            WindowAggregationKind::RowNumber => WindowValue::Index(self.counter),
            WindowAggregationKind::RowIndex => WindowValue::Index(self.counter - 1),
            _ => {
                let v = value.unwrap();
                proof {
                    self.seen@ = s0.push(v);
                    assert(self.seen@.drop_last() == s0);
                }
                self.sum = match self.sum {
                    None => None,
                    Some(a) => a.checked_add(v),
                };
                match self.kind {
                    WindowAggregationKind::CumulativeMin => {
                        self.extreme = match self.extreme {
                            None => Some(v),
                            Some(m) => Some(if v < m { v } else { m }),
                        };
                    },
                    WindowAggregationKind::CumulativeMax => {
                        self.extreme = match self.extreme {
                            None => Some(v),
                            Some(m) => Some(if v > m { v } else { m }),
                        };
                    },
                    _ => {},
                }
                match self.kind {
                    WindowAggregationKind::CumulativeSum => match self.sum {
                        Some(x) => WindowValue::Integer(x),
                        None => WindowValue::Missing,
                    },
                    _ => match self.extreme {
                        Some(x) => WindowValue::Integer(x),
                        None => WindowValue::Missing,
                    },
                }
            },
        }
    }

    /// Starts over, as if no row was run.
    pub fn clear(&mut self)
        requires
            old(self).wf(),
        ensures
            final(self).wf(),
            final(self).spec_kind() == old(self).spec_kind(),
            final(self).seen() == Seq::<i64>::empty(),
            final(self).calls() == 0,
    {
        self.counter = 0;
        self.sum = Some(0);
        self.extreme = None;
        proof {
            self.seen@ = Seq::empty();
        }
    }
}

/// The cumulative minimum and maximum are numbers that were read, below and
/// above all the others.
pub proof fn law_cumulative_extremes(s: Seq<i64>)
    requires
        s.len() > 0,
    ensures
        seq_min(s) matches Some(m) && s.contains(m) && forall|i: int| 0 <= i < s.len() ==> m <= #[trigger] s[i],
        seq_max(s) matches Some(m) && s.contains(m) && forall|i: int| 0 <= i < s.len() ==> #[trigger] s[i] <= m,
    decreases s.len(),
{
    let t = s.drop_last();
    assert(s[s.len() - 1] == s.last());
    if t.len() > 0 {
        law_cumulative_extremes(t);
        let a = seq_min(t).unwrap();
        let b = seq_max(t).unwrap();
        let j = choose|j: int| 0 <= j < t.len() && t[j] == a;
        let k = choose|k: int| 0 <= k < t.len() && t[k] == b;
        assert(s[j] == a);
        assert(s[k] == b);
        assert forall|i: int| 0 <= i < s.len() implies seq_min(s).unwrap() <= #[trigger] s[i] && s[i] <= seq_max(s).unwrap() by {
            if i < t.len() {
                assert(s[i] == t[i]);
            }
        }
    } else {
        assert(seq_min(t) is None);
    }
}

} // verus!
