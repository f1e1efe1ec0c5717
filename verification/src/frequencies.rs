//! Counts of the distinct values of a column.
use vstd::prelude::*;

use crate::aggregators::{join_strings, joined, strings_view};
use crate::extent::{
    chars_lt, lemma_lex_asymmetric, lemma_lex_irreflexive, lemma_lex_total, lemma_lex_transitive,
    lex_lt, str_lt,
};
use crate::text::{chars_of, str_eq};

verus! {

/// The counts held by a list of (value, count) entries.
pub open spec fn map_of(e: Seq<(Seq<char>, u64)>) -> Map<Seq<char>, u64>
    decreases e.len(),
{
    if e.len() == 0 {
        Map::empty()
    } else {
        map_of(e.drop_last()).insert(e.last().0, e.last().1)
    }
}

/// No value occurs twice among the entries.
pub open spec fn distinct_keys(e: Seq<(Seq<char>, u64)>) -> bool {
    forall|i: int, j: int| 0 <= i < j < e.len() ==> e[i].0 != e[j].0
}

/// Whether value `a` ranks above value `b`: a higher count, or an equal
/// count and an earlier value in lexicographic order.
pub open spec fn ranks_above(c: Map<Seq<char>, u64>, a: Seq<char>, b: Seq<char>) -> bool {
    c[a] > c[b] || (c[a] == c[b] && lex_lt(a, b))
}

proof fn lemma_map_of(e: Seq<(Seq<char>, u64)>)
    requires
        distinct_keys(e),
    ensures
        forall|k: Seq<char>| #[trigger] map_of(e).dom().contains(k) <==> exists|i: int| 0 <= i < e.len() && e[i].0 == k,
        forall|i: int| 0 <= i < e.len() ==> #[trigger] map_of(e)[e[i].0] == e[i].1,
    decreases e.len(),
{
    if e.len() > 0 {
        let t = e.drop_last();
        assert(distinct_keys(t));
        lemma_map_of(t);
        assert forall|k: Seq<char>| #[trigger] map_of(e).dom().contains(k) <==> exists|i: int| 0 <= i < e.len() && e[i].0 == k by {
            if map_of(e).dom().contains(k) {
                if k == e.last().0 {
                    assert(e[e.len() - 1].0 == k);
                } else {
                    assert(map_of(t).dom().contains(k));
                    let i = choose|i: int| 0 <= i < t.len() && t[i].0 == k;
                    assert(e[i] == t[i]);
                    assert(e[i].0 == k);
                }
            }
            if exists|i: int| 0 <= i < e.len() && e[i].0 == k {
                let i = choose|i: int| 0 <= i < e.len() && e[i].0 == k;
                if i < e.len() - 1 {
                    assert(t[i].0 == k);
                    assert(map_of(t).dom().contains(k));
                }
            }
        }
        assert forall|i: int| 0 <= i < e.len() implies #[trigger] map_of(e)[e[i].0] == e[i].1 by {
            if i < e.len() - 1 {
                assert(t[i] == e[i]);
                assert(e[i].0 != e[e.len() - 1].0);
                assert(map_of(t)[t[i].0] == t[i].1);
            }
        }
    }
}

proof fn lemma_map_update(e: Seq<(Seq<char>, u64)>, i: int, v: u64)
    requires
        distinct_keys(e),
        0 <= i < e.len(),
    ensures
        distinct_keys(e.update(i, (e[i].0, v))),
        map_of(e.update(i, (e[i].0, v))) == map_of(e).insert(e[i].0, v),
{
    let f = e.update(i, (e[i].0, v));
    assert(distinct_keys(f));
    lemma_map_of(e);
    lemma_map_of(f);
    let m = map_of(e).insert(e[i].0, v);
    assert forall|x: Seq<char>| #[trigger] map_of(f).dom().contains(x) <==> m.dom().contains(x) by {
        if map_of(f).dom().contains(x) {
            let j = choose|j: int| 0 <= j < f.len() && f[j].0 == x;
            assert(e[j].0 == x);
        }
        if m.dom().contains(x) && x != e[i].0 {
            assert(map_of(e).dom().contains(x));
            let j = choose|j: int| 0 <= j < e.len() && e[j].0 == x;
            assert(f[j].0 == x);
        }
        if x == e[i].0 {
            assert(f[i].0 == x);
        }
    }
    assert forall|x: Seq<char>| #[trigger] map_of(f).dom().contains(x) implies map_of(f)[x] == m[x] by {
        let j = choose|j: int| 0 <= j < f.len() && f[j].0 == x;
        assert(map_of(f)[f[j].0] == f[j].1);
        if j != i {
            assert(map_of(e)[e[j].0] == e[j].1);
        }
    }
    assert(map_of(f) =~= m);
}

/// Whether entry `a` ranks above entry `b`: a higher count, or an equal
/// count and an earlier value.
pub open spec fn entry_above(e: Seq<(Seq<char>, u64)>, a: int, b: int) -> bool {
    e[a].1 > e[b].1 || (e[a].1 == e[b].1 && lex_lt(e[a].0, e[b].0))
}

/// Whether entry `a` is greater than entry `b` by (count, value): a higher
/// count, or an equal count and a later value.
pub open spec fn pair_gt(a: (Seq<char>, u64), b: (Seq<char>, u64)) -> bool {
    a.1 > b.1 || (a.1 == b.1 && lex_lt(b.0, a.0))
}

proof fn lemma_above_order(e: Seq<(Seq<char>, u64)>, a: int, b: int, c: int)
    requires
        distinct_keys(e),
        0 <= a < e.len(),
        0 <= b < e.len(),
        0 <= c < e.len(),
    ensures
        entry_above(e, a, b) && entry_above(e, b, c) ==> entry_above(e, a, c),
        a != b ==> entry_above(e, a, b) || entry_above(e, b, a),
        !entry_above(e, a, a),
        entry_above(e, a, b) ==> !entry_above(e, b, a),
{
    if entry_above(e, a, b) && entry_above(e, b, c) && e[a].1 == e[b].1 && e[b].1 == e[c].1 {
        lemma_lex_transitive(e[a].0, e[b].0, e[c].0);
    }
    if a != b {
        if a < b {
            assert(e[a].0 != e[b].0);
        } else {
            assert(e[b].0 != e[a].0);
        }
        lemma_lex_total(e[a].0, e[b].0);
    }
    lemma_lex_irreflexive(e[a].0);
    if entry_above(e, a, b) && e[a].1 == e[b].1 {
        lemma_lex_asymmetric(e[a].0, e[b].0);
    }
}

/// Whether the value of entry `a` comes before that of entry `b`.
pub open spec fn key_below(e: Seq<(Seq<char>, u64)>, a: int, b: int) -> bool {
    lex_lt(e[a].0, e[b].0)
}

proof fn lemma_key_order(e: Seq<(Seq<char>, u64)>, a: int, b: int, c: int)
    requires
        distinct_keys(e),
        0 <= a < e.len(),
        0 <= b < e.len(),
        0 <= c < e.len(),
    ensures
        key_below(e, a, b) && key_below(e, b, c) ==> key_below(e, a, c),
        a != b ==> key_below(e, a, b) || key_below(e, b, a),
        !key_below(e, a, a),
        key_below(e, a, b) ==> !key_below(e, b, a),
{
    if key_below(e, a, b) && key_below(e, b, c) {
        lemma_lex_transitive(e[a].0, e[b].0, e[c].0);
    }
    if a != b {
        if a < b {
            assert(e[a].0 != e[b].0);
        } else {
            assert(e[b].0 != e[a].0);
        }
        lemma_lex_total(e[a].0, e[b].0);
    }
    lemma_lex_irreflexive(e[a].0);
    if key_below(e, a, b) {
        lemma_lex_asymmetric(e[a].0, e[b].0);
    }
}

proof fn lemma_pair_order(a: (Seq<char>, u64), b: (Seq<char>, u64), c: (Seq<char>, u64))
    ensures
        pair_gt(a, b) && pair_gt(b, c) ==> pair_gt(a, c),
        a.0 != b.0 ==> pair_gt(a, b) || pair_gt(b, a),
{
    if pair_gt(a, b) && pair_gt(b, c) && a.1 == b.1 && b.1 == c.1 {
        lemma_lex_transitive(c.0, b.0, a.0);
    }
    if a.0 != b.0 {
        lemma_lex_total(a.0, b.0);
    }
}

/// Whether `v` lists the `k` values of `c` (of `card` values) that rank
/// highest, from the highest.
pub open spec fn is_top(c: Map<Seq<char>, u64>, card: nat, k: nat, v: Seq<Seq<char>>) -> bool {
    &&& v.len() == if k < card { k } else { card }
    &&& forall|i: int| 0 <= i < v.len() ==> c.dom().contains(#[trigger] v[i])
    &&& forall|i: int, j: int| 0 <= i < j < v.len() ==> ranks_above(c, v[i], v[j])
    &&& forall|x: Seq<char>, i: int|
        c.dom().contains(x) && !v.contains(x) && 0 <= i < v.len() ==> #[trigger] ranks_above(c, v[i], x)
}

/// The counts of `a` and `b` added together.
pub open spec fn merged(a: Map<Seq<char>, u64>, b: Map<Seq<char>, u64>) -> Map<Seq<char>, u64> {
    Map::new(
        |k: Seq<char>| a.dom().contains(k) || b.dom().contains(k),
        |k: Seq<char>|
            (if a.dom().contains(k) { a[k] as int } else { 0 } + if b.dom().contains(k) {
                b[k] as int
            } else {
                0
            }) as u64,
    )
}

/// Whether `s` lists the values of `c` in strictly increasing lexicographic
/// order.
pub open spec fn sorted_keys(c: Map<Seq<char>, u64>, s: Seq<Seq<char>>) -> bool {
    &&& forall|i: int, j: int| 0 <= i < j < s.len() ==> lex_lt(s[i], s[j])
    &&& forall|x: Seq<char>| c.dom().contains(x) <==> s.contains(x)
}

/// How many times each distinct value was seen.
#[derive(Debug, Clone)]
pub struct Frequencies {
    counter: Vec<(String, u64)>,
}

impl Frequencies {
    pub closed spec fn entries(&self) -> Seq<(Seq<char>, u64)> {
        self.counter@.map_values(|p: (String, u64)| (p.0@, p.1))
    }

    /// The count of each value seen.
    pub closed spec fn counts(&self) -> Map<Seq<char>, u64> {
        map_of(self.entries())
    }

    /// The number of distinct values seen.
    pub closed spec fn spec_cardinality(&self) -> nat {
        self.counter@.len()
    }

    pub closed spec fn wf(&self) -> bool {
        distinct_keys(self.entries())
    }

    pub fn new() -> (r: Self)
        ensures
            r.wf(),
            r.counts() == Map::<Seq<char>, u64>::empty(),
            r.spec_cardinality() == 0,
    {
        Self { counter: Vec::new() }
    }

    pub fn clear(&mut self)
        ensures
            final(self).wf(),
            final(self).counts() == Map::<Seq<char>, u64>::empty(),
            final(self).spec_cardinality() == 0,
    {
        self.counter.clear();
    }

    fn find(&self, value: &str) -> (r: Option<usize>)
        requires
            self.wf(),
        ensures
            r matches Some(i) ==> i < self.entries().len() && self.entries()[i as int].0 == value@,
            r is None ==> forall|i: int| 0 <= i < self.entries().len() ==> self.entries()[i].0 != value@,
    {
        let mut i: usize = 0;
        while i < self.counter.len()
            invariant
                i <= self.counter@.len(),
                forall|k: int| 0 <= k < i ==> self.entries()[k].0 != value@,
            decreases self.counter@.len() - i,
        {
            if str_eq(self.counter[i].0.as_str(), value) {
                return Some(i);
            }
            i += 1;
        }
        None
    }

    /// Adds `count` occurrences of `value`.
    pub fn add_count(&mut self, value: String, count: u64)
        requires
            old(self).wf(),
            old(self).counts().dom().contains(value@) ==> old(self).counts()[value@] + count
                <= u64::MAX,
        ensures
            final(self).wf(),
            final(self).counts() == old(self).counts().insert(
                value@,
                if old(self).counts().dom().contains(value@) {
                    (old(self).counts()[value@] + count) as u64
                } else {
                    count
                },
            ),
            final(self).spec_cardinality() == old(self).spec_cardinality() + if old(
                self,
            ).counts().dom().contains(value@) {
                0nat
            } else {
                1nat
            },
    {
        proof {
            lemma_map_of(self.entries());
        }
        let ghost e0 = self.entries();
        match self.find(value.as_str()) {
            Some(i) => {
                let current = self.counter[i].1;
                let key = self.counter[i].0.clone();
                self.counter.set(i, (key, current + count));
                proof {
                    assert(self.entries() == e0.update(i as int, (e0[i as int].0, (current + count) as u64)));
                    lemma_map_update(e0, i as int, (current + count) as u64);
                }
            },
            None => {
                self.counter.push((value, count));
                proof {
                    assert(self.entries() =~= e0.push((value@, count)));
                    assert(self.entries().drop_last() == e0);
                    lemma_map_of(self.entries());
                }
            },
        }
    }

    /// Adds one occurrence of `value`.
    pub fn add(&mut self, value: String)
        requires
            old(self).wf(),
            old(self).counts().dom().contains(value@) ==> old(self).counts()[value@] < u64::MAX,
        ensures
            final(self).wf(),
            final(self).counts() == freq_add(old(self).counts(), value@),
            final(self).spec_cardinality() == old(self).spec_cardinality() + if old(
                self,
            ).counts().dom().contains(value@) {
                0nat
            } else {
                1nat
            },
    {
        self.add_count(value, 1);
    }

    fn key_before(&self, a: usize, b: usize) -> (r: bool)
        requires
            a < self.entries().len(),
            b < self.entries().len(),
        ensures
            r == key_below(self.entries(), a as int, b as int),
    {
        str_lt(self.counter[a].0.as_str(), self.counter[b].0.as_str())
    }

    fn above(&self, a: usize, b: usize) -> (r: bool)
        requires
            a < self.entries().len(),
            b < self.entries().len(),
        ensures
            r == entry_above(self.entries(), a as int, b as int),
    {
        let ca = self.counter[a].1;
        let cb = self.counter[b].1;
        ca > cb || (ca == cb && str_lt(self.counter[a].0.as_str(), self.counter[b].0.as_str()))
    }

    /// The indices of the `k` entries that rank highest, from the highest.
    fn select_top(&self, k: usize) -> (idx: Vec<usize>)
        requires
            self.wf(),
        ensures
            idx@.len() == if k < self.entries().len() { k as int } else { self.entries().len() as int },
            forall|i: int| 0 <= i < idx@.len() ==> idx@[i] < self.entries().len(),
            forall|i: int, j: int| 0 <= i < j < idx@.len() ==> entry_above(self.entries(), idx@[i] as int, idx@[j] as int),
            forall|x: usize, i: int|
                x < self.entries().len() && !idx@.contains(x) && 0 <= i < idx@.len()
                    ==> #[trigger] entry_above(self.entries(), idx@[i] as int, x as int),
    {
        let n = self.counter.len();
        let ghost e = self.entries();
        let target = if k < n { k } else { n };
        let mut remaining: Vec<usize> = Vec::new();
        let mut z: usize = 0;
        while z < n
            invariant
                z <= n,
                remaining@ == Seq::new(z as nat, |i: int| i as usize),
            decreases n - z,
        {
            remaining.push(z);
            z += 1;
        }
        let mut idx: Vec<usize> = Vec::new();
        proof {
            assert forall|x: usize| x < n implies (#[trigger] remaining@.contains(x) <==> !idx@.contains(x)) by {
                assert(remaining@[x as int] == x);
            }
        }
        while idx.len() < target
            invariant
                n == e.len(),
                e == self.entries(),
                distinct_keys(e),
                target <= n,
                idx@.len() <= target,
                remaining@.len() + idx@.len() == n,
                forall|i: int, j: int| 0 <= i < j < remaining@.len() ==> remaining@[i] != remaining@[j],
                forall|i: int| 0 <= i < idx@.len() ==> idx@[i] < n,
                forall|i: int| 0 <= i < remaining@.len() ==> remaining@[i] < n,
                forall|x: usize| x < n ==> (#[trigger] remaining@.contains(x) <==> !idx@.contains(x)),
                forall|i: int, j: int| 0 <= i < j < idx@.len() ==> entry_above(e, idx@[i] as int, idx@[j] as int),
                forall|x: usize, i: int|
                    x < n && !idx@.contains(x) && 0 <= i < idx@.len() ==> #[trigger] entry_above(e, idx@[i] as int, x as int),
            decreases target - idx@.len(),
        {
            let m = remaining.len();
            let mut best: usize = 0;
            let mut i: usize = 1;
            while i < m
                invariant
                    n == e.len(),
                    e == self.entries(),
                    distinct_keys(e),
                    m == remaining@.len(),
                    m > 0,
                    forall|t: int| 0 <= t < m ==> remaining@[t] < n,
                    1 <= i <= m,
                    best < i,
                    forall|t: int| 0 <= t < i && remaining@[t] != remaining@[best as int] ==> entry_above(
                        e,
                        remaining@[best as int] as int,
                        remaining@[t] as int,
                    ),
                decreases m - i,
            {
                let cand = remaining[i];
                let cur = remaining[best];
                if self.above(cand, cur) {
                    proof {
                        assert forall|t: int| 0 <= t < i + 1 && remaining@[t] != cand implies entry_above(
                            e,
                            cand as int,
                            remaining@[t] as int,
                        ) by {
                            lemma_above_order(e, cand as int, cur as int, remaining@[t] as int);
                        }
                    }
                    best = i;
                } else {
                    proof {
                        lemma_above_order(e, cand as int, cur as int, cand as int);
                    }
                }
                i += 1;
            }
            let b = remaining[best];
            let ghost before = idx@;
            let ghost rem_before = remaining@;
            assert(rem_before.contains(b)) by {
                assert(rem_before[best as int] == b);
            }
            assert(!before.contains(b));
            remaining.remove(best);
            idx.push(b);
            proof {
                assert forall|i: int, j: int| 0 <= i < j < remaining@.len() implies remaining@[i] != remaining@[j] by {
                    let i2 = if i < best { i } else { i + 1 };
                    let j2 = if j < best { j } else { j + 1 };
                    assert(remaining@[i] == rem_before[i2]);
                    assert(remaining@[j] == rem_before[j2]);
                }
                assert forall|x: usize| x < n implies (#[trigger] remaining@.contains(x) <==> !idx@.contains(x)) by {
                    if x == b {
                        assert(idx@[idx@.len() - 1] == b);
                        if remaining@.contains(x) {
                            let j = choose|j: int| 0 <= j < remaining@.len() && remaining@[j] == x;
                            if j < best {
                                assert(rem_before[j] == x);
                                assert(rem_before[best as int] == x);
                            } else {
                                assert(rem_before[j + 1] == x);
                                assert(rem_before[best as int] == x);
                            }
                            assert(false);
                        }
                    } else {
                        if idx@.contains(x) {
                            let j = choose|j: int| 0 <= j < idx@.len() && idx@[j] == x;
                            assert(before[j] == x);
                        }
                        if before.contains(x) {
                            let j = choose|j: int| 0 <= j < before.len() && before[j] == x;
                            assert(idx@[j] == x);
                        }
                        if rem_before.contains(x) {
                            let j = choose|j: int| 0 <= j < rem_before.len() && rem_before[j] == x;
                            if j < best {
                                assert(remaining@[j] == x);
                            } else {
                                assert(j != best);
                                assert(remaining@[j - 1] == x);
                            }
                        }
                        if remaining@.contains(x) {
                            let j = choose|j: int| 0 <= j < remaining@.len() && remaining@[j] == x;
                            if j < best {
                                assert(rem_before[j] == x);
                            } else {
                                assert(rem_before[j + 1] == x);
                            }
                        }
                    }
                }
                assert forall|i: int, j: int| 0 <= i < j < idx@.len() implies entry_above(e, idx@[i] as int, idx@[j] as int) by {
                    assert(idx@[i] == before[i]);
                    if j < idx@.len() - 1 {
                        assert(idx@[j] == before[j]);
                    } else {
                        assert(!before.contains(b));
                    }
                }
                assert forall|x: usize, i: int|
                    x < n && !idx@.contains(x) && 0 <= i < idx@.len() implies #[trigger] entry_above(e, idx@[i] as int, x as int) by {
                    assert(x != b) by {
                        assert(idx@[idx@.len() - 1] == b);
                    }
                    assert(!before.contains(x)) by {
                        if before.contains(x) {
                            let j = choose|j: int| 0 <= j < before.len() && before[j] == x;
                            assert(idx@[j] == x);
                        }
                    }
                    assert(rem_before.contains(x));
                    let t = choose|t: int| 0 <= t < rem_before.len() && rem_before[t] == x;
                    if i < before.len() {
                        assert(idx@[i] == before[i]);
                    } else {
                        assert(rem_before[t] != rem_before[best as int]);
                    }
                }
            }
        }
        idx
    }

    /// The indices of the entries, by increasing value.
    fn sorted_indices(&self) -> (idx: Vec<usize>)
        requires
            self.wf(),
        ensures
            idx@.len() == self.entries().len(),
            forall|i: int| 0 <= i < idx@.len() ==> idx@[i] < self.entries().len(),
            forall|i: int, j: int| 0 <= i < j < idx@.len() ==> key_below(self.entries(), idx@[i] as int, idx@[j] as int),
            forall|x: usize| x < self.entries().len() ==> #[trigger] idx@.contains(x),
    {
        let n = self.counter.len();
        let ghost e = self.entries();
        let target = n;
        let mut remaining: Vec<usize> = Vec::new();
        let mut z: usize = 0;
        while z < n
            invariant
                z <= n,
                remaining@ == Seq::new(z as nat, |i: int| i as usize),
            decreases n - z,
        {
            remaining.push(z);
            z += 1;
        }
        let mut idx: Vec<usize> = Vec::new();
        proof {
            assert forall|x: usize| x < n implies (#[trigger] remaining@.contains(x) <==> !idx@.contains(x)) by {
                assert(remaining@[x as int] == x);
            }
        }
        while idx.len() < target
            invariant
                n == e.len(),
                e == self.entries(),
                distinct_keys(e),
                target <= n,
                idx@.len() <= target,
                remaining@.len() + idx@.len() == n,
                forall|i: int, j: int| 0 <= i < j < remaining@.len() ==> remaining@[i] != remaining@[j],
                forall|i: int| 0 <= i < idx@.len() ==> idx@[i] < n,
                forall|i: int| 0 <= i < remaining@.len() ==> remaining@[i] < n,
                forall|x: usize| x < n ==> (#[trigger] remaining@.contains(x) <==> !idx@.contains(x)),
                forall|i: int, j: int| 0 <= i < j < idx@.len() ==> key_below(e, idx@[i] as int, idx@[j] as int),
                forall|x: usize, i: int|
                    x < n && !idx@.contains(x) && 0 <= i < idx@.len() ==> #[trigger] key_below(e, idx@[i] as int, x as int),
            decreases target - idx@.len(),
        {
            let m = remaining.len();
            let mut best: usize = 0;
            let mut i: usize = 1;
            while i < m
                invariant
                    n == e.len(),
                    e == self.entries(),
                    distinct_keys(e),
                    m == remaining@.len(),
                    m > 0,
                    forall|t: int| 0 <= t < m ==> remaining@[t] < n,
                    1 <= i <= m,
                    best < i,
                    forall|t: int| 0 <= t < i && remaining@[t] != remaining@[best as int] ==> key_below(e,
                        remaining@[best as int] as int,
                        remaining@[t] as int,
                    ),
                decreases m - i,
            {
                let cand = remaining[i];
                let cur = remaining[best];
                if self.key_before(cand, cur) {
                    proof {
                        assert forall|t: int| 0 <= t < i + 1 && remaining@[t] != cand implies key_below(e,
                            cand as int,
                            remaining@[t] as int,
                        ) by {
                            lemma_key_order(e, cand as int, cur as int, remaining@[t] as int);
                        }
                    }
                    best = i;
                } else {
                    proof {
                        lemma_key_order(e, cand as int, cur as int, cand as int);
                    }
                }
                i += 1;
            }
            let b = remaining[best];
            let ghost before = idx@;
            let ghost rem_before = remaining@;
            assert(rem_before.contains(b)) by {
                assert(rem_before[best as int] == b);
            }
            assert(!before.contains(b));
            remaining.remove(best);
            idx.push(b);
            proof {
                assert forall|i: int, j: int| 0 <= i < j < remaining@.len() implies remaining@[i] != remaining@[j] by {
                    let i2 = if i < best { i } else { i + 1 };
                    let j2 = if j < best { j } else { j + 1 };
                    assert(remaining@[i] == rem_before[i2]);
                    assert(remaining@[j] == rem_before[j2]);
                }
                assert forall|x: usize| x < n implies (#[trigger] remaining@.contains(x) <==> !idx@.contains(x)) by {
                    if x == b {
                        assert(idx@[idx@.len() - 1] == b);
                        if remaining@.contains(x) {
                            let j = choose|j: int| 0 <= j < remaining@.len() && remaining@[j] == x;
                            if j < best {
                                assert(rem_before[j] == x);
                                assert(rem_before[best as int] == x);
                            } else {
                                assert(rem_before[j + 1] == x);
                                assert(rem_before[best as int] == x);
                            }
                            assert(false);
                        }
                    } else {
                        if idx@.contains(x) {
                            let j = choose|j: int| 0 <= j < idx@.len() && idx@[j] == x;
                            assert(before[j] == x);
                        }
                        if before.contains(x) {
                            let j = choose|j: int| 0 <= j < before.len() && before[j] == x;
                            assert(idx@[j] == x);
                        }
                        if rem_before.contains(x) {
                            let j = choose|j: int| 0 <= j < rem_before.len() && rem_before[j] == x;
                            if j < best {
                                assert(remaining@[j] == x);
                            } else {
                                assert(j != best);
                                assert(remaining@[j - 1] == x);
                            }
                        }
                        if remaining@.contains(x) {
                            let j = choose|j: int| 0 <= j < remaining@.len() && remaining@[j] == x;
                            if j < best {
                                assert(rem_before[j] == x);
                            } else {
                                assert(rem_before[j + 1] == x);
                            }
                        }
                    }
                }
                assert forall|i: int, j: int| 0 <= i < j < idx@.len() implies key_below(e, idx@[i] as int, idx@[j] as int) by {
                    assert(idx@[i] == before[i]);
                    if j < idx@.len() - 1 {
                        assert(idx@[j] == before[j]);
                    } else {
                        assert(!before.contains(b));
                    }
                }
                assert forall|x: usize, i: int|
                    x < n && !idx@.contains(x) && 0 <= i < idx@.len() implies #[trigger] key_below(e, idx@[i] as int, x as int) by {
                    assert(x != b) by {
                        assert(idx@[idx@.len() - 1] == b);
                    }
                    assert(!before.contains(x)) by {
                        if before.contains(x) {
                            let j = choose|j: int| 0 <= j < before.len() && before[j] == x;
                            assert(idx@[j] == x);
                        }
                    }
                    assert(rem_before.contains(x));
                    let t = choose|t: int| 0 <= t < rem_before.len() && rem_before[t] == x;
                    if i < before.len() {
                        assert(idx@[i] == before[i]);
                    } else {
                        assert(rem_before[t] != rem_before[best as int]);
                    }
                }
            }
        }
        assert forall|x: usize| x < n implies #[trigger] idx@.contains(x) by {
            assert(!remaining@.contains(x));
        }
        idx
    }

    /// The `k` most common values, from the most common; equal counts are
    /// ordered by value.
    pub fn most_common(&self, k: usize) -> (r: Vec<String>)
        requires
            self.wf(),
        ensures
            is_top(self.counts(), self.spec_cardinality(), k as nat, strings_view(r@)),
    {
        let idx = self.select_top(k);
        let n = self.counter.len();
        let ghost e = self.entries();
        let mut r: Vec<String> = Vec::new();
        let mut t: usize = 0;
        while t < idx.len()
            invariant
                e == self.entries(),
                t <= idx@.len(),
                r@.len() == t,
                forall|i: int| 0 <= i < idx@.len() ==> idx@[i] < e.len(),
                forall|i: int| 0 <= i < t ==> #[trigger] r@[i]@ == e[idx@[i] as int].0,
            decreases idx@.len() - t,
        {
            r.push(self.counter[idx[t]].0.clone());
            t += 1;
        }
        proof {
            lemma_map_of(e);
            let c = self.counts();
            assert forall|i: int| 0 <= i < r@.len() implies c.dom().contains(#[trigger] r@[i]@) by {
                assert(e[idx@[i] as int].0 == r@[i]@);
            }
            assert forall|i: int, j: int| 0 <= i < j < r@.len() implies ranks_above(c, r@[i]@, r@[j]@) by {
                assert(r@[i]@ == e[idx@[i] as int].0);
                assert(r@[j]@ == e[idx@[j] as int].0);
                assert(entry_above(self.entries(), idx@[i] as int, idx@[j] as int));
                assert(c[e[idx@[i] as int].0] == e[idx@[i] as int].1);
                assert(c[e[idx@[j] as int].0] == e[idx@[j] as int].1);
            }
            assert forall|x: Seq<char>, i: int|
                c.dom().contains(x) && !strings_view(r@).contains(x) && 0 <= i < r@.len() implies #[trigger] ranks_above(c, r@[i]@, x) by {
                assert(map_of(e).dom().contains(x));
                let y = choose|y: int| 0 <= y < e.len() && e[y].0 == x;
                assert(0 <= y < e.len());
                assert(e.len() == n);
                if idx@.contains(y as usize) {
                    let w = choose|w: int| 0 <= w < idx@.len() && idx@[w] == y as usize;
                    assert(idx@[w] as int == y);
                    assert(r@[w]@ == e[idx@[w] as int].0);
                    assert(strings_view(r@)[w] == r@[w]@);
                    assert(strings_view(r@)[w] == x);
                }
                assert(c[e[y].0] == e[y].1);
                assert(c[e[idx@[i] as int].0] == e[idx@[i] as int].1);
                assert(r@[i]@ == e[idx@[i] as int].0);
                assert(entry_above(e, idx@[i] as int, (y as usize) as int));
            }
        }
        r
    }

    /// The counts of the `k` most common values (see `most_common`).
    pub fn most_common_counts(&self, k: usize) -> (r: Vec<u64>)
        requires
            self.wf(),
        ensures
            exists|v: Seq<Seq<char>>| #[trigger] is_top(self.counts(), self.spec_cardinality(), k as nat, v)
                && r@ == v.map_values(|x: Seq<char>| self.counts()[x]),
    {
        let names = self.most_common(k);
        assert forall|i: int| 0 <= i < names@.len() implies self.counts().dom().contains(#[trigger] names@[i]@) by {
            assert(strings_view(names@)[i] == names@[i]@);
        }
        let mut r: Vec<u64> = Vec::new();
        let mut t: usize = 0;
        proof {
            lemma_map_of(self.entries());
        }
        while t < names.len()
            invariant
                self.wf(),
                t <= names@.len(),
                r@.len() == t,
                forall|i: int| 0 <= i < names@.len() ==> self.counts().dom().contains(#[trigger] names@[i]@),
                forall|i: int| 0 <= i < t ==> r@[i] == self.counts()[names@[i]@],
            decreases names@.len() - t,
        {
            let found = self.find(names[t].as_str());
            proof {
                lemma_map_of(self.entries());
                assert(self.counts().dom().contains(names@[t as int]@));
            }
            let i = match found {
                Some(i) => i,
                None => {
                    proof {
                        let y = choose|y: int| 0 <= y < self.entries().len() && self.entries()[y].0 == names@[t as int]@;
                    }
                    0
                },
            };
            r.push(self.counter[i].1);
            t += 1;
        }
        assert(r@ =~= strings_view(names@).map_values(|x: Seq<char>| self.counts()[x]));
        assert(is_top(self.counts(), self.spec_cardinality(), k as nat, strings_view(names@)));
        r
    }

    /// The value greatest by (count, value): the most common value, the
    /// latest in lexicographic order among equally common ones.
    pub fn mode(&self) -> (r: Option<String>)
        requires
            self.wf(),
        ensures
            r is None <==> self.spec_cardinality() == 0,
            r matches Some(s) ==> self.counts().dom().contains(s@) && forall|x: Seq<char>|
                #[trigger] self.counts().dom().contains(x) ==> !pair_gt(
                    (x, self.counts()[x]),
                    (s@, self.counts()[s@]),
                ),
    {
        let n = self.counter.len();
        if n == 0 {
            return None;
        }
        let ghost e = self.entries();
        let mut best: usize = 0;
        let mut i: usize = 1;
        proof {
            lemma_lex_irreflexive(e[0].0);
        }
        while i < n
            invariant
                n == e.len(),
                e == self.entries(),
                1 <= i <= n,
                best < i,
                forall|j: int| 0 <= j < i ==> !pair_gt(#[trigger] e[j], e[best as int]),
            decreases n - i,
        {
            let ci = self.counter[i].1;
            let cb = self.counter[best].1;
            if ci > cb || (ci == cb && str_lt(self.counter[best].0.as_str(), self.counter[i].0.as_str())) {
                proof {
                    assert(pair_gt(e[i as int], e[best as int]));
                    assert forall|j: int| 0 <= j < i + 1 implies !pair_gt(#[trigger] e[j], e[i as int]) by {
                        lemma_pair_order(e[j], e[i as int], e[best as int]);
                        if j == i {
                            lemma_lex_irreflexive(e[j].0);
                        }
                    }
                }
                best = i;
            }
            i += 1;
        }
        proof {
            lemma_map_of(e);
            assert forall|x: Seq<char>| #[trigger] self.counts().dom().contains(x) implies !pair_gt(
                (x, self.counts()[x]),
                (e[best as int].0, self.counts()[e[best as int].0]),
            ) by {
                let y = choose|y: int| 0 <= y < e.len() && e[y].0 == x;
                assert(self.counts()[e[y].0] == e[y].1);
                assert(self.counts()[e[best as int].0] == e[best as int].1);
                assert(!pair_gt(e[y], e[best as int]));
            }
            assert(self.counts().dom().contains(e[best as int].0));
        }
        Some(self.counter[best].0.clone())
    }

    /// All the values of the highest count, in the order they were first
    /// seen.
    pub fn modes(&self) -> (r: Option<Vec<String>>)
        requires
            self.wf(),
        ensures
            r is None <==> self.spec_cardinality() == 0,
            r matches Some(v) ==> {
                let c = self.counts();
                &&& v@.len() > 0
                &&& forall|i: int| 0 <= i < v@.len() ==> c.dom().contains(#[trigger] v@[i]@) && c[v@[i]@] == c[v@[0]@]
                &&& forall|x: Seq<char>| #[trigger] c.dom().contains(x) ==> c[x] <= c[v@[0]@] && (c[x] == c[v@[0]@] ==> strings_view(v@).contains(x))
                &&& forall|i: int, j: int| 0 <= i < j < v@.len() ==> v@[i]@ != v@[j]@
            },
    {
        let n = self.counter.len();
        if n == 0 {
            return None;
        }
        let ghost e = self.entries();
        let mut max: u64 = self.counter[0].1;
        let mut i: usize = 1;
        assert(e[0].1 == max);
        while i < n
            invariant
                n == e.len(),
                e == self.entries(),
                1 <= i <= n,
                exists|j: int| 0 <= j < i && e[j].1 == max,
                forall|j: int| 0 <= j < i ==> (#[trigger] e[j]).1 <= max,
            decreases n - i,
        {
            if self.counter[i].1 > max {
                max = self.counter[i].1;
                assert(e[i as int].1 == max);
            }
            i += 1;
        }
        let mut v: Vec<String> = Vec::new();
        let ghost mut from: Seq<int> = Seq::empty();
        let mut k: usize = 0;
        while k < n
            invariant
                n == e.len(),
                e == self.entries(),
                distinct_keys(e),
                k <= n,
                exists|j: int| 0 <= j < n && e[j].1 == max,
                forall|j: int| 0 <= j < n ==> (#[trigger] e[j]).1 <= max,
                from.len() == v@.len(),
                forall|t: int| 0 <= t < from.len() ==> 0 <= #[trigger] from[t] < k && e[from[t]].1 == max,
                forall|t: int| 0 <= t < from.len() ==> #[trigger] v@[t]@ == e[from[t]].0,
                forall|t: int, u: int| 0 <= t < u < from.len() ==> from[t] < from[u],
                forall|j: int| 0 <= j < k && e[j].1 == max ==> from.contains(j),
            decreases n - k,
        {
            if self.counter[k].1 == max {
                let c = self.counter[k].0.clone();
                assert(c@ == e[k as int].0);
                let ghost vb = v@;
                v.push(c);
                proof {
                    let fb = from;
                    from = from.push(k as int);
                    assert forall|t: int, u: int| 0 <= t < u < from.len() implies from[t] < from[u] by {
                        if u < fb.len() {
                            assert(from[t] == fb[t] && from[u] == fb[u]);
                        } else {
                            assert(from[t] == fb[t]);
                        }
                    }
                    assert forall|t: int| 0 <= t < from.len() implies 0 <= #[trigger] from[t] < k + 1 && e[from[t]].1 == max by {
                        if t < fb.len() {
                            assert(from[t] == fb[t]);
                        }
                    }
                    assert forall|t: int| 0 <= t < from.len() implies #[trigger] v@[t]@ == e[from[t]].0 by {
                        if t < fb.len() {
                            assert(v@[t] == vb[t]);
                            assert(from[t] == fb[t]);
                            assert(vb[t]@ == e[fb[t]].0);
                        } else {
                            assert(v@[t] == c);
                        }
                    }
                    assert forall|j: int| 0 <= j < k + 1 && e[j].1 == max implies from.contains(j) by {
                        if j == k {
                            assert(from[from.len() - 1] == j);
                        } else {
                            assert(fb.contains(j));
                            let t = choose|t: int| 0 <= t < fb.len() && fb[t] == j;
                            assert(from[t] == j);
                        }
                    }
                }
            } else {
                proof {
                    assert forall|j: int| 0 <= j < k + 1 && e[j].1 == max implies from.contains(j) by {
                        assert(j != k);
                    }
                }
            }
            k += 1;
        }
        proof {
            lemma_map_of(e);
            let c = self.counts();
            assert(k == n);
            let j0 = choose|j: int| 0 <= j < n && e[j].1 == max;
            assert(from.contains(j0));
            assert(from.len() > 0);
            assert(0 <= from[0] < n);
            assert(v@[0]@ == e[from[0]].0);
            assert(map_of(e)[e[from[0]].0] == e[from[0]].1);
            assert forall|i: int| 0 <= i < v@.len() implies c.dom().contains(#[trigger] v@[i]@) && c[v@[i]@] == c[v@[0]@] by {
                assert(0 <= from[i] < n);
                assert(v@[i]@ == e[from[i]].0);
                assert(map_of(e)[e[from[i]].0] == e[from[i]].1);
                assert(map_of(e).dom().contains(e[from[i]].0));
            }
            assert forall|x: Seq<char>| #[trigger] c.dom().contains(x) implies c[x] <= c[v@[0]@] && (c[x] == c[v@[0]@] ==> strings_view(v@).contains(x)) by {
                let y = choose|y: int| 0 <= y < e.len() && e[y].0 == x;
                assert(c[e[y].0] == e[y].1);
                if c[x] == c[v@[0]@] {
                    assert(from.contains(y));
                    let t = choose|t: int| 0 <= t < from.len() && from[t] == y;
                    assert(strings_view(v@)[t] == v@[t]@);
                }
            }
            assert forall|i: int, j: int| 0 <= i < j < v@.len() implies v@[i]@ != v@[j]@ by {
                assert(v@[i]@ == e[from[i]].0);
                assert(v@[j]@ == e[from[j]].0);
            }
        }
        Some(v)
    }

    /// Adds the counts of `other`.
    pub fn merge(&mut self, other: Self)
        requires
            old(self).wf(),
            other.wf(),
            forall|k: Seq<char>| old(self).counts().dom().contains(k) && other.counts().dom().contains(k)
                ==> old(self).counts()[k] + other.counts()[k] <= u64::MAX,
        ensures
            final(self).wf(),
            final(self).counts() == merged(old(self).counts(), other.counts()),
    {
        let ghost a = self.counts();
        let ghost b = other.counts();
        let ghost eb = other.entries();
        let mut rest = other.counter;
        let ghost mut done: Seq<(Seq<char>, u64)> = Seq::empty();
        proof {
            assert(merged(a, map_of(done)) =~= a);
        }
        while rest.len() > 0
            invariant
                self.wf(),
                distinct_keys(eb),
                b == map_of(eb),
                forall|k: Seq<char>| a.dom().contains(k) && b.dom().contains(k) ==> a[k] + b[k] <= u64::MAX,
                done + rest@.map_values(|p: (String, u64)| (p.0@, p.1)) == eb,
                self.counts() == merged(a, map_of(done)),
            decreases rest@.len(),
        {
            let ghost before = rest@.map_values(|p: (String, u64)| (p.0@, p.1));
            let (key, count) = rest.remove(0);
            let ghost item = (key@, count);
            proof {
                assert(before[0] == item);
                assert(before =~= seq![item] + rest@.map_values(|p: (String, u64)| (p.0@, p.1)));
                let i = done.len() as int;
                assert(eb[i] == item);
                assert(distinct_keys(done)) by {
                    assert forall|x: int, y: int| 0 <= x < y < done.len() implies done[x].0 != done[y].0 by {
                        assert(done[x] == eb[x]);
                        assert(done[y] == eb[y]);
                    }
                }
                lemma_map_of(done);
                lemma_map_of(eb);
                assert(!map_of(done).dom().contains(key@)) by {
                    if map_of(done).dom().contains(key@) {
                        let x = choose|x: int| 0 <= x < done.len() && done[x].0 == key@;
                        assert(done[x] == eb[x]);
                    }
                }
                assert(b[eb[i].0] == eb[i].1);
            }
            self.add_count(key, count);
            proof {
                let nd = done.push(item);
                assert(nd.drop_last() == done);
                assert(merged(a, map_of(nd)) =~= merged(a, map_of(done)).insert(
                    item.0,
                    if merged(a, map_of(done)).dom().contains(item.0) {
                        (merged(a, map_of(done))[item.0] + count) as u64
                    } else {
                        count
                    },
                ));
                done = nd;
                assert(done + rest@.map_values(|p: (String, u64)| (p.0@, p.1)) =~= eb);
            }
        }
        proof {
            assert(rest@.map_values(|p: (String, u64)| (p.0@, p.1)) =~= Seq::<(Seq<char>, u64)>::empty());
            assert(done =~= eb);
        }
    }

    /// The distinct values, sorted, joined with `separator`.
    pub fn join(&self, separator: &str) -> (r: String)
        requires
            self.wf(),
        ensures
            exists|s: Seq<Seq<char>>| #[trigger] sorted_keys(self.counts(), s) && r@ == joined(s, separator@),
    {
        let idx = self.sorted_indices();
        let ghost e = self.entries();
        let n = self.counter.len();
        let mut keys: Vec<String> = Vec::new();
        let mut t: usize = 0;
        while t < idx.len()
            invariant
                e == self.entries(),
                n == e.len(),
                idx@.len() == n,
                t <= idx@.len(),
                keys@.len() == t,
                forall|i: int| 0 <= i < idx@.len() ==> idx@[i] < n,
                forall|i: int| 0 <= i < t ==> #[trigger] keys@[i]@ == e[idx@[i] as int].0,
            decreases idx@.len() - t,
        {
            keys.push(self.counter[idx[t]].0.clone());
            t += 1;
        }
        let r = join_strings(&keys, separator);
        proof {
            lemma_map_of(e);
            let sv = strings_view(keys@);
            let c = self.counts();
            assert forall|i: int, j: int| 0 <= i < j < sv.len() implies lex_lt(sv[i], sv[j]) by {
                assert(sv[i] == keys@[i]@);
                assert(sv[j] == keys@[j]@);
                assert(key_below(self.entries(), idx@[i] as int, idx@[j] as int));
            }
            assert forall|x: Seq<char>| c.dom().contains(x) <==> sv.contains(x) by {
                if c.dom().contains(x) {
                    assert(map_of(e).dom().contains(x));
                    let y = choose|y: int| 0 <= y < e.len() && e[y].0 == x;
                    assert(idx@.contains(y as usize));
                    let w = choose|w: int| 0 <= w < idx@.len() && idx@[w] == y as usize;
                    assert(sv[w] == keys@[w]@);
                }
                if sv.contains(x) {
                    let w = choose|w: int| 0 <= w < sv.len() && sv[w] == x;
                    assert(sv[w] == keys@[w]@);
                    assert(e[idx@[w] as int].0 == x);
                }
            }
            assert(sorted_keys(c, sv));
        }
        r
    }

    pub fn cardinality(&self) -> (r: usize)
        ensures
            r == self.spec_cardinality(),
    {
        self.counter.len()
    }
}


/// The counts once one more occurrence of `v` is counted.
pub open spec fn freq_add(m: Map<Seq<char>, u64>, v: Seq<char>) -> Map<Seq<char>, u64> {
    m.insert(
        v,
        if m.dom().contains(v) {
            (m[v] + 1) as u64
        } else {
            1u64
        },
    )
}

/// The counts of values added in order.
pub open spec fn freq_of(s: Seq<Seq<char>>) -> Map<Seq<char>, u64>
    decreases s.len(),
{
    if s.len() == 0 {
        Map::empty()
    } else {
        freq_add(freq_of(s.drop_last()), s.last())
    }
}

/// How many times `k` occurs in `s`.
pub open spec fn occurrences(s: Seq<Seq<char>>, k: Seq<char>) -> nat
    decreases s.len(),
{
    if s.len() == 0 {
        0
    } else {
        occurrences(s.drop_last(), k) + if s.last() == k {
            1nat
        } else {
            0nat
        }
    }
}

proof fn lemma_occurrences_concat(a: Seq<Seq<char>>, b: Seq<Seq<char>>, k: Seq<char>)
    ensures
        occurrences(a + b, k) == occurrences(a, k) + occurrences(b, k),
    decreases b.len(),
{
    if b.len() > 0 {
        lemma_occurrences_concat(a, b.drop_last(), k);
        assert((a + b).drop_last() == a + b.drop_last());
        assert((a + b).last() == b.last());
    } else {
        assert(a + b == a);
    }
}

proof fn lemma_freq_of(s: Seq<Seq<char>>, k: Seq<char>)
    requires
        occurrences(s, k) <= u64::MAX,
    ensures
        freq_of(s).dom().contains(k) <==> occurrences(s, k) > 0,
        freq_of(s).dom().contains(k) ==> freq_of(s)[k] == occurrences(s, k),
    decreases s.len(),
{
    if s.len() > 0 {
        lemma_freq_of(s.drop_last(), k);
    }
}

/// Two parts of the values, counted apart then merged, give the counts of
/// all of them: parallel chunks merge into what one pass gives, as long as
/// no count goes past what a `u64` holds.
pub proof fn law_frequencies_merge_concat(a: Seq<Seq<char>>, b: Seq<Seq<char>>)
    requires
        forall|k: Seq<char>| occurrences(a + b, k) <= u64::MAX,
    ensures
        merged(freq_of(a), freq_of(b)) == freq_of(a + b),
{
    assert forall|k: Seq<char>|
        #![trigger freq_of(a + b).dom().contains(k)]
        merged(freq_of(a), freq_of(b)).dom().contains(k) == freq_of(a + b).dom().contains(k) && (
        freq_of(a + b).dom().contains(k) ==> merged(freq_of(a), freq_of(b))[k] == freq_of(
            a + b,
        )[k]) by {
        lemma_occurrences_concat(a, b, k);
        lemma_freq_of(a, k);
        lemma_freq_of(b, k);
        lemma_freq_of(a + b, k);
    }
    assert(merged(freq_of(a), freq_of(b)) =~= freq_of(a + b));
}

} // verus!
