//! The earliest and latest of temporal values.
use vstd::prelude::*;

use crate::text::{push_signed_decimal, push_str, signed_decimal};

verus! {

/// The kind of a temporal value.
#[derive(Debug, Clone, Copy, PartialEq, Eq, Structural)]
pub enum TemporalKind {
    Zoned,
    DateTime,
    Date,
    Time,
}

/// A temporal value, held as what orders it: its kind, then, among values
/// of one kind, an integer that grows with time (nanoseconds since the
/// epoch for a zoned datetime, since midnight for a time, and so on).
#[derive(Debug, Clone, Copy, PartialEq, Eq, Structural)]
pub struct AnyTemporal {
    pub kind: TemporalKind,
    pub key: i64,
}

pub open spec fn kind_rank(k: TemporalKind) -> int {
    match k {
        TemporalKind::Zoned => 0,
        TemporalKind::DateTime => 1,
        TemporalKind::Date => 2,
        TemporalKind::Time => 3,
    }
}

/// Whether `a` comes strictly before `b`: by kind first, then by key.
pub open spec fn before(a: AnyTemporal, b: AnyTemporal) -> bool {
    kind_rank(a.kind) < kind_rank(b.kind) || (a.kind == b.kind && a.key < b.key)
}

pub open spec fn kind_label(k: TemporalKind) -> Seq<char> {
    match k {
        TemporalKind::Zoned => "zoned"@,
        TemporalKind::DateTime => "datetime"@,
        TemporalKind::Date => "date"@,
        TemporalKind::Time => "time"@,
    }
}

impl AnyTemporal {
    pub fn has_same_type(&self, other: &AnyTemporal) -> (r: bool)
        ensures
            r == (self.kind == other.kind),
    {
        self.kind == other.kind
    }

    pub fn kind_as_str(&self) -> (r: &'static str)
        ensures
            r@ == kind_label(self.kind),
    {
        match self.kind {
            TemporalKind::Zoned => "zoned",
            TemporalKind::DateTime => "datetime",
            TemporalKind::Date => "date",
            TemporalKind::Time => "time",
        }
    }

    fn rank(&self) -> (r: u8)
        ensures
            r == kind_rank(self.kind),
    {
        match self.kind {
            TemporalKind::Zoned => 0,
            TemporalKind::DateTime => 1,
            TemporalKind::Date => 2,
            TemporalKind::Time => 3,
        }
    }

    pub fn is_before(&self, other: &AnyTemporal) -> (r: bool)
        ensures
            r == before(*self, *other),
    {
        let a = self.rank();
        let b = other.rank();
        a < b || (a == b && self.key < other.key)
    }
}

/// How an error message shows a temporal value: its kind, then the integer
/// that orders it, in brackets.
pub open spec fn temporal_text(v: AnyTemporal) -> Seq<char> {
    kind_label(v.kind) + "("@ + signed_decimal(v.key as int) + ")"@
}

/// Whether an extent's earliest value does not come after its latest.
pub open spec fn is_ordered(e: Option<(AnyTemporal, AnyTemporal)>) -> bool {
    e matches Some((lo, hi)) ==> !before(hi, lo)
}

/// Appends the text of a temporal value.
fn push_temporal(s: &mut String, v: &AnyTemporal)
    ensures
        final(s)@ == old(s)@ + temporal_text(*v),
{
    push_str(s, v.kind_as_str());
    push_str(s, "(");
    push_signed_decimal(s, v.key as i128);
    push_str(s, ")");
}

/// The extent after one more value: the value becomes the minimum when it
/// comes before it, else the maximum when it comes after it.
pub open spec fn extent_add(e: Option<(AnyTemporal, AnyTemporal)>, v: AnyTemporal) -> Option<(AnyTemporal, AnyTemporal)> {
    match e {
        None => Some((v, v)),
        Some((lo, hi)) => if before(v, lo) {
            Some((v, hi))
        } else if before(hi, v) {
            Some((lo, v))
        } else {
            Some((lo, hi))
        },
    }
}

/// The extent of two extents.
pub open spec fn extent_merge(a: Option<(AnyTemporal, AnyTemporal)>, b: Option<(AnyTemporal, AnyTemporal)>) -> Option<(AnyTemporal, AnyTemporal)> {
    match (a, b) {
        (None, _) => b,
        (Some(x), None) => Some(x),
        (Some((lo, hi)), Some((lo2, hi2))) => Some(
            (if before(lo2, lo) { lo2 } else { lo }, if before(hi, hi2) { hi2 } else { hi }),
        ),
    }
}

/// The extent of a sequence of values, added in order.
pub open spec fn extent_of(s: Seq<AnyTemporal>) -> Option<(AnyTemporal, AnyTemporal)>
    decreases s.len(),
{
    if s.len() == 0 {
        None
    } else {
        extent_add(extent_of(s.drop_last()), s.last())
    }
}

/// The earliest and latest of temporal values of one kind.
#[derive(Debug)]
pub struct TemporalExtent {
    extent: Option<(AnyTemporal, AnyTemporal)>,
}

impl Clone for TemporalExtent {
    fn clone(&self) -> (r: Self)
        ensures
            r.spec_extent() == self.spec_extent(),
    {
        proof {
            use_type_invariant(self);
        }
        Self { extent: self.extent }
    }
}

impl TemporalExtent {
    pub closed spec fn spec_extent(&self) -> Option<(AnyTemporal, AnyTemporal)> {
        self.extent
    }

    #[verifier::type_invariant]
    spec fn ordered(self) -> bool {
        is_ordered(self.extent)
    }

    pub fn new() -> (r: Self)
        ensures
            r.spec_extent() is None,
            is_ordered(r.spec_extent()),
    {
        Self { extent: None }
    }

    pub fn clear(&mut self)
        ensures
            final(self).spec_extent() is None,
            is_ordered(final(self).spec_extent()),
    {
        self.extent = None;
    }

    /// Adds a value, which must be of the kind of the values already added;
    /// otherwise the extent is left as it is and an error tells both kinds.
    pub fn add(&mut self, value: AnyTemporal) -> (r: Result<(), String>)
        ensures
            match old(self).spec_extent() {
                Some((lo, _)) => lo.kind != value.kind,
                None => false,
            } ==> r is Err && final(self).spec_extent() == old(self).spec_extent(),
            !match old(self).spec_extent() {
                Some((lo, _)) => lo.kind != value.kind,
                None => false,
            } ==> r is Ok && final(self).spec_extent() == extent_add(old(self).spec_extent(), value),
            r matches Err(m) ==> (old(self).spec_extent() matches Some((lo, _)) && m@
                == "temporal extent attempting to handle incompatible types: "@ + kind_label(lo.kind)
                + " and "@ + kind_label(value.kind) + " (current min: "@ + temporal_text(lo)
                + ", given value: "@ + temporal_text(value) + ")"@),
            is_ordered(old(self).spec_extent()),
            is_ordered(final(self).spec_extent()),
    {
        proof {
            use_type_invariant(&*self);
        }
        match self.extent {
            None => {
                self.extent = Some((value, value));
            },
            Some((min, max)) => {
                if !min.has_same_type(&value) {
                    let mut m = String::new();
                    push_str(&mut m, "temporal extent attempting to handle incompatible types: ");
                    push_str(&mut m, min.kind_as_str());
                    push_str(&mut m, " and ");
                    push_str(&mut m, value.kind_as_str());
                    push_str(&mut m, " (current min: ");
                    push_temporal(&mut m, &min);
                    push_str(&mut m, ", given value: ");
                    push_temporal(&mut m, &value);
                    push_str(&mut m, ")");
                    return Err(m);
                }
                if value.is_before(&min) {
                    self.extent = Some((value, max));
                } else if max.is_before(&value) {
                    self.extent = Some((min, value));
                }
            },
        }
        Ok(())
    }

    pub fn earliest(&self) -> (r: Option<AnyTemporal>)
        ensures
            is_ordered(self.spec_extent()),
            r == match self.spec_extent() {
                Some((lo, _)) => Some(lo),
                None => None::<AnyTemporal>,
            },
    {
        proof {
            use_type_invariant(self);
        }
        match self.extent {
            Some((lo, _)) => Some(lo),
            None => None,
        }
    }

    pub fn lastest(&self) -> (r: Option<AnyTemporal>)
        ensures
            is_ordered(self.spec_extent()),
            r == match self.spec_extent() {
                Some((_, hi)) => Some(hi),
                None => None::<AnyTemporal>,
            },
    {
        proof {
            use_type_invariant(self);
        }
        match self.extent {
            Some((_, hi)) => Some(hi),
            None => None,
        }
    }

    pub fn merge(&mut self, other: Self)
        ensures
            final(self).spec_extent() == extent_merge(old(self).spec_extent(), other.spec_extent()),
            is_ordered(old(self).spec_extent()),
            is_ordered(other.spec_extent()),
            is_ordered(final(self).spec_extent()),
    {
        proof {
            use_type_invariant(&*self);
            use_type_invariant(&other);
        }
        match self.extent {
            None => {
                self.extent = other.extent;
            },
            Some((min, max)) => {
                if let Some((other_min, other_max)) = other.extent {
                    let lo = if other_min.is_before(&min) { other_min } else { min };
                    let hi = if max.is_before(&other_max) { other_max } else { max };
                    self.extent = Some((lo, hi));
                }
            },
        }
    }
}

proof fn lemma_extent_ordered(s: Seq<AnyTemporal>)
    ensures
        extent_of(s) matches Some((lo, hi)) ==> !before(hi, lo),
    decreases s.len(),
{
    if s.len() > 0 {
        lemma_extent_ordered(s.drop_last());
    }
}

/// The extent of values holds two of them: the earliest, before which none
/// of them comes, and the latest, after which none of them comes.
pub proof fn law_extent_bounds(s: Seq<AnyTemporal>)
    requires
        s.len() > 0,
    ensures
        extent_of(s) is Some,
        s.contains(extent_of(s).unwrap().0),
        s.contains(extent_of(s).unwrap().1),
        forall|i: int|
            0 <= i < s.len() ==> !before(#[trigger] s[i], extent_of(s).unwrap().0) && !before(
                extent_of(s).unwrap().1,
                s[i],
            ),
    decreases s.len(),
{
    let t = s.drop_last();
    let v = s.last();
    assert(s[s.len() - 1] == v);
    if s.len() == 1 {
        assert(t.len() == 0);
        assert(extent_of(s) == Some((v, v)));
    } else {
        law_extent_bounds(t);
        lemma_extent_ordered(t);
        let (lo, hi) = extent_of(t).unwrap();
        let j = choose|j: int| 0 <= j < t.len() && t[j] == lo;
        let k = choose|k: int| 0 <= k < t.len() && t[k] == hi;
        assert(s[j] == lo);
        assert(s[k] == hi);
        let (lo2, hi2) = extent_of(s).unwrap();
        assert forall|i: int| 0 <= i < s.len() implies !before(#[trigger] s[i], lo2) && !before(hi2, s[i]) by {
            if i < s.len() - 1 {
                assert(s[i] == t[i]);
                assert(!before(t[i], lo) && !before(hi, t[i]));
            }
        }
    }
}

/// Merging the extents of two sequences of values gives the extent of
/// their concatenation.
pub proof fn law_merge_concat(a: Seq<AnyTemporal>, b: Seq<AnyTemporal>)
    ensures
        extent_merge(extent_of(a), extent_of(b)) == extent_of(a + b),
    decreases b.len(),
{
    lemma_extent_ordered(a);
    if b.len() > 0 {
        law_merge_concat(a, b.drop_last());
        lemma_extent_ordered(b.drop_last());
        assert((a + b).drop_last() == a + b.drop_last());
        assert((a + b).last() == b.last());
        assert(b.drop_last().len() == 0 ==> extent_of(b.drop_last()) is None);
    } else {
        assert(a + b == a);
    }
}

} // verus!
