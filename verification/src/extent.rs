//! The minimum and maximum of values, numeric or lexicographic.
use vstd::prelude::*;

use vstd::std_specs::cmp::{PartialOrdIs, PartialOrdSpec};

use crate::text::chars_of;

verus! {

/// The extent after one more value, for values ordered by `PartialOrd`.
pub open spec fn add_value<T: PartialOrd>(e: Option<(T, T)>, v: T) -> Option<(T, T)> {
    match e {
        None => Some((v, v)),
        Some((lo, hi)) => if v.is_lt(&lo) {
            Some((v, hi))
        } else if v.is_gt(&hi) {
            Some((lo, v))
        } else {
            Some((lo, hi))
        },
    }
}

/// What `Extent::merge` keeps of two extents.
pub open spec fn merge_values<T: PartialOrd>(a: Option<(T, T)>, b: Option<(T, T)>) -> Option<(T, T)> {
    match (a, b) {
        (None, o) => o,
        (Some(x), None) => Some(x),
        (Some((lo, hi)), Some((lo2, hi2))) => Some(
            (if lo2.is_lt(&lo) { lo2 } else { lo }, if hi2.is_gt(&hi) { hi2 } else { hi }),
        ),
    }
}

/// The extent of values added in order.
pub open spec fn extent_of_values<T: PartialOrd>(s: Seq<T>) -> Option<(T, T)>
    decreases s.len(),
{
    if s.len() == 0 {
        None
    } else {
        add_value(extent_of_values(s.drop_last()), s.last())
    }
}

/// The minimum and maximum of the values seen.
#[derive(Debug, Clone)]
pub struct Extent<T> {
    extent: Option<(T, T)>,
}

impl<T: Copy + PartialOrd> Extent<T> {
    pub closed spec fn spec_extent(&self) -> Option<(T, T)> {
        self.extent
    }

    pub fn new() -> (r: Self)
        ensures
            r.spec_extent() is None,
    {
        Self { extent: None }
    }

    pub fn clear(&mut self)
        ensures
            final(self).spec_extent() is None,
    {
        self.extent = None;
    }

    /// Makes `value` the minimum when it is below it, else the maximum when
    /// it is above it.
    pub fn add(&mut self, value: T)
        ensures
            T::obeys_partial_cmp_spec() ==> final(self).spec_extent() == add_value(
                old(self).spec_extent(),
                value,
            ),
    {
        match self.extent {
            None => self.extent = Some((value, value)),
            Some((min, max)) => {
                if value < min {
                    self.extent = Some((value, max));
                } else if value > max {
                    self.extent = Some((min, value));
                }
            },
        }
    }

    pub fn min(&self) -> (r: Option<T>)
        ensures
            r == match self.spec_extent() {
                Some(e) => Some(e.0),
                None => None::<T>,
            },
    {
        match self.extent {
            Some(e) => Some(e.0),
            None => None,
        }
    }

    pub fn max(&self) -> (r: Option<T>)
        ensures
            r == match self.spec_extent() {
                Some(e) => Some(e.1),
                None => None::<T>,
            },
    {
        match self.extent {
            Some(e) => Some(e.1),
            None => None,
        }
    }

    pub fn merge(&mut self, other: Self)
        ensures
            T::obeys_partial_cmp_spec() ==> final(self).spec_extent() == merge_values(
                old(self).spec_extent(),
                other.spec_extent(),
            ),
    {
        match self.extent {
            None => {
                self.extent = other.extent;
            },
            Some((min, max)) => {
                if let Some((other_min, other_max)) = other.extent {
                    let lo = if other_min < min { other_min } else { min };
                    let hi = if other_max > max { other_max } else { max };
                    self.extent = Some((lo, hi));
                }
            },
        }
    }
}

/// Whether `a` comes strictly before `b` in the lexicographic order of
/// their characters' code points (the order of `str`).
pub open spec fn lex_lt(a: Seq<char>, b: Seq<char>) -> bool
    decreases a.len(),
{
    if a.len() == 0 {
        b.len() > 0
    } else if b.len() == 0 {
        false
    } else if (a[0] as int) < (b[0] as int) {
        true
    } else if a[0] == b[0] {
        lex_lt(a.drop_first(), b.drop_first())
    } else {
        false
    }
}

/// No string comes before itself.
pub proof fn lemma_lex_irreflexive(a: Seq<char>)
    ensures
        !lex_lt(a, a),
    decreases a.len(),
{
    if a.len() > 0 {
        lemma_lex_irreflexive(a.drop_first());
    }
}

/// The lexicographic order is transitive.
pub proof fn lemma_lex_transitive(a: Seq<char>, b: Seq<char>, c: Seq<char>)
    requires
        lex_lt(a, b),
        lex_lt(b, c),
    ensures
        lex_lt(a, c),
    decreases a.len(),
{
    if a.len() > 0 && b.len() > 0 && c.len() > 0 {
        if a[0] == b[0] && b[0] == c[0] {
            lemma_lex_transitive(a.drop_first(), b.drop_first(), c.drop_first());
        }
    }
}

/// Of two different strings, one comes before the other.
pub proof fn lemma_lex_total(a: Seq<char>, b: Seq<char>)
    requires
        a != b,
    ensures
        lex_lt(a, b) || lex_lt(b, a),
    decreases a.len(),
{
    if a.len() > 0 && b.len() > 0 {
        if a[0] == b[0] {
            if a.drop_first() == b.drop_first() {
                assert(a == seq![a[0]] + a.drop_first());
                assert(b == seq![b[0]] + b.drop_first());
            }
            lemma_lex_total(a.drop_first(), b.drop_first());
        } else {
            assert((a[0] as int) != (b[0] as int));
        }
    } else if a.len() == 0 && b.len() == 0 {
        assert(a == b);
    }
}

/// The lexicographic order is asymmetric.
pub proof fn lemma_lex_asymmetric(a: Seq<char>, b: Seq<char>)
    requires
        lex_lt(a, b),
    ensures
        !lex_lt(b, a),
{
    if lex_lt(b, a) {
        lemma_lex_transitive(a, b, a);
        lemma_lex_irreflexive(a);
    }
}

/// `<` between string slices, as `str` orders them.
pub fn str_lt(a: &str, b: &str) -> (r: bool)
    ensures
        r == lex_lt(a@, b@),
{
    let va = chars_of(a);
    let vb = chars_of(b);
    chars_lt(va.as_slice(), vb.as_slice())
}

/// `<` between slices of characters, lexicographically.
pub fn chars_lt(a: &[char], b: &[char]) -> (r: bool)
    ensures
        r == lex_lt(a@, b@),
{
    let mut i: usize = 0;
    assert(a@.skip(0) == a@);
    assert(b@.skip(0) == b@);
    while i < a.len() && i < b.len() && a[i] == b[i]
        invariant
            i <= a@.len(),
            i <= b@.len(),
            a@.take(i as int) == b@.take(i as int),
            lex_lt(a@, b@) == lex_lt(a@.skip(i as int), b@.skip(i as int)),
        decreases a@.len() - i,
    {
        assert(a@.skip(i as int).drop_first() == a@.skip(i + 1));
        assert(b@.skip(i as int).drop_first() == b@.skip(i + 1));
        assert(a@.take(i + 1) == a@.take(i as int).push(a@[i as int]));
        assert(b@.take(i + 1) == b@.take(i as int).push(b@[i as int]));
        i += 1;
    }
    let ghost sa = a@.skip(i as int);
    let ghost sb = b@.skip(i as int);
    if i == a.len() {
        assert(sa.len() == 0);
        i < b.len()
    } else if i == b.len() {
        false
    } else {
        assert(sa[0] == a@[i as int]);
        assert(sb[0] == b@[i as int]);
        a[i] < b[i]
    }
}

/// The first and last strings seen, in lexicographic order.
#[derive(Debug, Clone)]
pub struct LexicographicExtent {
    extent: Option<(String, String)>,
}

/// The lexicographic extent after one more string.
pub open spec fn add_string(e: Option<(Seq<char>, Seq<char>)>, v: Seq<char>) -> Option<(Seq<char>, Seq<char>)> {
    match e {
        None => Some((v, v)),
        Some((lo, hi)) => if lex_lt(v, lo) {
            Some((v, hi))
        } else if lex_lt(hi, v) {
            Some((lo, v))
        } else {
            Some((lo, hi))
        },
    }
}

impl LexicographicExtent {
    pub closed spec fn spec_extent(&self) -> Option<(Seq<char>, Seq<char>)> {
        match self.extent {
            Some((a, b)) => Some((a@, b@)),
            None => None,
        }
    }

    pub fn new() -> (r: Self)
        ensures
            r.spec_extent() is None,
    {
        Self { extent: None }
    }

    pub fn clear(&mut self)
        ensures
            final(self).spec_extent() is None,
    {
        self.extent = None;
    }

    pub fn add(&mut self, value: &str)
        ensures
            final(self).spec_extent() == add_string(old(self).spec_extent(), value@),
    {
        let current = self.extent.take();
        match current {
            None => self.extent = Some((value.to_owned(), value.to_owned())),
            Some((min, max)) => {
                if str_lt(value, min.as_str()) {
                    self.extent = Some((value.to_owned(), max));
                } else if str_lt(max.as_str(), value) {
                    self.extent = Some((min, value.to_owned()));
                } else {
                    self.extent = Some((min, max));
                }
            },
        }
    }

    pub fn first(&self) -> (r: Option<String>)
        ensures
            r matches Some(s) ==> self.spec_extent() matches Some(e) && s@ == e.0,
            r is None <==> self.spec_extent() is None,
    {
        match &self.extent {
            Some(e) => Some(e.0.clone()),
            None => None,
        }
    }

    pub fn last(&self) -> (r: Option<String>)
        ensures
            r matches Some(s) ==> self.spec_extent() matches Some(e) && s@ == e.1,
            r is None <==> self.spec_extent() is None,
    {
        match &self.extent {
            Some(e) => Some(e.1.clone()),
            None => None,
        }
    }

    pub fn merge(&mut self, other: Self)
        ensures
            final(self).spec_extent() == lex_merge(old(self).spec_extent(), other.spec_extent()),
    {
        let current = self.extent.take();
        match current {
            None => {
                self.extent = other.extent;
            },
            Some((min, max)) => {
                match other.extent {
                    Some((other_min, other_max)) => {
                        let lo = if str_lt(other_min.as_str(), min.as_str()) { other_min } else { min };
                        let hi = if str_lt(max.as_str(), other_max.as_str()) { other_max } else { max };
                        self.extent = Some((lo, hi));
                    },
                    None => {
                        self.extent = Some((min, max));
                    },
                }
            },
        }
    }
}


/// The earlier of two strings in lexicographic order.
pub open spec fn lex_min(x: Seq<char>, y: Seq<char>) -> Seq<char> {
    if lex_lt(y, x) {
        y
    } else {
        x
    }
}

/// The later of two strings in lexicographic order.
pub open spec fn lex_max(x: Seq<char>, y: Seq<char>) -> Seq<char> {
    if lex_lt(x, y) {
        y
    } else {
        x
    }
}

/// What `LexicographicExtent::merge` keeps of two extents.
pub open spec fn lex_merge(a: Option<(Seq<char>, Seq<char>)>, b: Option<(Seq<char>, Seq<char>)>) -> Option<(Seq<char>, Seq<char>)> {
    match (a, b) {
        (None, o) => o,
        (Some(x), None) => Some(x),
        (Some((lo, hi)), Some((lo2, hi2))) => Some((lex_min(lo, lo2), lex_max(hi, hi2))),
    }
}

/// The extent of strings added in order.
pub open spec fn lex_extent_of(s: Seq<Seq<char>>) -> Option<(Seq<char>, Seq<char>)>
    decreases s.len(),
{
    if s.len() == 0 {
        None
    } else {
        add_string(lex_extent_of(s.drop_last()), s.last())
    }
}

proof fn lemma_lex_facts(a: Seq<char>, b: Seq<char>, c: Seq<char>)
    ensures
        !lex_lt(a, a) && !lex_lt(b, b) && !lex_lt(c, c),
        a != b ==> (lex_lt(a, b) || lex_lt(b, a)),
        b != c ==> (lex_lt(b, c) || lex_lt(c, b)),
        a != c ==> (lex_lt(a, c) || lex_lt(c, a)),
        lex_lt(a, b) ==> !lex_lt(b, a),
        lex_lt(b, c) ==> !lex_lt(c, b),
        lex_lt(a, c) ==> !lex_lt(c, a),
        lex_lt(a, b) && lex_lt(b, c) ==> lex_lt(a, c),
        lex_lt(a, c) && lex_lt(c, b) ==> lex_lt(a, b),
        lex_lt(b, a) && lex_lt(a, c) ==> lex_lt(b, c),
        lex_lt(b, c) && lex_lt(c, a) ==> lex_lt(b, a),
        lex_lt(c, a) && lex_lt(a, b) ==> lex_lt(c, b),
        lex_lt(c, b) && lex_lt(b, a) ==> lex_lt(c, a),
{
    lemma_lex_irreflexive(a);
    lemma_lex_irreflexive(b);
    lemma_lex_irreflexive(c);
    if a != b {
        lemma_lex_total(a, b);
    }
    if b != c {
        lemma_lex_total(b, c);
    }
    if a != c {
        lemma_lex_total(a, c);
    }
    if lex_lt(a, b) {
        lemma_lex_asymmetric(a, b);
    }
    if lex_lt(b, c) {
        lemma_lex_asymmetric(b, c);
    }
    if lex_lt(a, c) {
        lemma_lex_asymmetric(a, c);
    }
    if lex_lt(a, b) && lex_lt(b, c) {
        lemma_lex_transitive(a, b, c);
    }
    if lex_lt(a, c) && lex_lt(c, b) {
        lemma_lex_transitive(a, c, b);
    }
    if lex_lt(b, a) && lex_lt(a, c) {
        lemma_lex_transitive(b, a, c);
    }
    if lex_lt(b, c) && lex_lt(c, a) {
        lemma_lex_transitive(b, c, a);
    }
    if lex_lt(c, a) && lex_lt(a, b) {
        lemma_lex_transitive(c, a, b);
    }
    if lex_lt(c, b) && lex_lt(b, a) {
        lemma_lex_transitive(c, b, a);
    }
}

proof fn lemma_add_string(lo: Seq<char>, hi: Seq<char>, v: Seq<char>)
    requires
        !lex_lt(hi, lo),
    ensures
        add_string(Some((lo, hi)), v) == Some((lex_min(lo, v), lex_max(hi, v))),
        !lex_lt(lex_max(hi, v), lex_min(lo, v)),
{
    lemma_lex_facts(lo, hi, v);
}

proof fn lemma_lex_extent_ordered(s: Seq<Seq<char>>)
    ensures
        lex_extent_of(s) matches Some((lo, hi)) ==> !lex_lt(hi, lo),
    decreases s.len(),
{
    if s.len() > 0 {
        lemma_lex_extent_ordered(s.drop_last());
        match lex_extent_of(s.drop_last()) {
            Some((lo, hi)) => lemma_add_string(lo, hi, s.last()),
            None => lemma_lex_irreflexive(s.last()),
        }
    }
}

/// Two parts of the strings, their extents taken apart then merged, give
/// the extent of all of them: parallel chunks merge into what one pass
/// gives.
pub proof fn law_lex_merge_concat(a: Seq<Seq<char>>, b: Seq<Seq<char>>)
    ensures
        lex_merge(lex_extent_of(a), lex_extent_of(b)) == lex_extent_of(a + b),
    decreases b.len(),
{
    lemma_lex_extent_ordered(a);
    if b.len() > 0 {
        let b1 = b.drop_last();
        let v = b.last();
        law_lex_merge_concat(a, b1);
        lemma_lex_extent_ordered(b1);
        assert((a + b).drop_last() == a + b1);
        assert((a + b).last() == v);
        match (lex_extent_of(a), lex_extent_of(b1)) {
            (None, _) => {},
            (Some((lo, hi)), None) => {
                lemma_add_string(lo, hi, v);
            },
            (Some((lo, hi)), Some((lo2, hi2))) => {
                lemma_lex_facts(lo, lo2, v);
                lemma_lex_facts(hi, hi2, v);
                lemma_lex_facts(lo, hi, lo2);
                lemma_lex_facts(lo, hi, hi2);
                lemma_lex_facts(lo2, hi2, hi);
                lemma_lex_facts(lo2, hi2, lo);
                lemma_add_string(lex_min(lo, lo2), lex_max(hi, hi2), v);
                lemma_add_string(lo2, hi2, v);
            },
        }
    } else {
        assert(a + b == a);
    }
}


proof fn lemma_usize_extent_ordered(s: Seq<usize>)
    ensures
        extent_of_values(s) matches Some((lo, hi)) ==> lo <= hi,
    decreases s.len(),
{
    if s.len() > 0 {
        lemma_usize_extent_ordered(s.drop_last());
    }
}

/// Two parts of the values, their extents taken apart then merged, give
/// the extent of all of them (for lengths, which the statistics of a
/// column keep the extent of).
pub proof fn law_extent_merge_concat(a: Seq<usize>, b: Seq<usize>)
    ensures
        merge_values(extent_of_values(a), extent_of_values(b)) == extent_of_values(a + b),
    decreases b.len(),
{
    lemma_usize_extent_ordered(a);
    if b.len() > 0 {
        law_extent_merge_concat(a, b.drop_last());
        lemma_usize_extent_ordered(b.drop_last());
        assert((a + b).drop_last() == a + b.drop_last());
        assert((a + b).last() == b.last());
    } else {
        assert(a + b == a);
    }
}

} // verus!
