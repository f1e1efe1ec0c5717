//! How the value an aggregation reads out of a row is handed to each of the
//! aggregators it shares, for the aggregators whose state is exact: truth
//! counts, the first and last values, the lexicographic extent, the
//! frequencies, the list of values and the types seen.
use vstd::prelude::*;

use crate::aggregators::{first_add, join_strings, joined, strings_view, AllAny, Count, First, Last, Values};
use crate::extent::{add_string, lemma_lex_irreflexive, lemma_lex_transitive, lex_lt, LexicographicExtent};
use crate::frequencies::{freq_add, is_top, pair_gt, sorted_keys, Frequencies};
use crate::planner::AggregationMethod;
use crate::text::{decimal, has_prefix, push_decimal, starts_with};
use crate::types::{count_flags, first_flag, flag_names, likely_flags, type_label, type_of_rank, type_rank, Type, Types};

verus! {

/// How a value reads, as far as telling its type goes: as an integer, as a
/// float, as a datetime, or as none of these.
#[derive(Debug, Clone, Copy, PartialEq, Eq, Structural)]
pub enum ValueShape {
    Integer,
    Float,
    DateTime,
    Other,
}

/// A value read out of a row, as the aggregators see it: its text, whether
/// it is truthy, whether it is nullish (empty or missing), in which case
/// the aggregators that keep values skip it, and how it reads.
#[derive(Debug, Clone)]
pub struct CellValue {
    pub text: String,
    pub truthy: bool,
    pub nullish: bool,
    pub shape: ValueShape,
}

/// The type a value is counted as: empty when nullish, else an integer, a
/// float or a date by how it reads, else a url when its text starts with
/// `http://` or `https://`, else a string.
pub open spec fn type_of_cell(v: CellValue) -> Type {
    if v.nullish {
        Type::Empty
    } else {
        match v.shape {
            ValueShape::Integer => Type::Int,
            ValueShape::Float => Type::Float,
            ValueShape::DateTime => Type::Date,
            ValueShape::Other => if has_prefix(v.text@, "http://"@) || has_prefix(
                v.text@,
                "https://"@,
            ) {
                Type::Url
            } else {
                Type::String
            },
        }
    }
}

fn cell_type(v: &CellValue) -> (r: Type)
    ensures
        r == type_of_cell(*v),
{
    if v.nullish {
        return Type::Empty;
    }
    match v.shape {
        ValueShape::Integer => Type::Int,
        ValueShape::Float => Type::Float,
        ValueShape::DateTime => Type::Date,
        ValueShape::Other => {
            if starts_with(v.text.as_str(), "http://") || starts_with(v.text.as_str(), "https://") {
                Type::Url
            } else {
                Type::String
            }
        },
    }
}

/// One aggregator with exact state.
pub enum ExactAggregator {
    AllAny(AllAny),
    Count(Count),
    First(First<String>),
    Last(Last<String>),
    LexicographicExtent(LexicographicExtent),
    Frequencies(Frequencies),
    Values(Values),
    Types(Types),
}

/// A kept value and its row, by the characters of the value.
pub open spec fn item_view(o: Option<(usize, String)>) -> Option<(usize, Seq<char>)> {
    match o {
        Some((i, s)) => Some((i, s@)),
        None => None,
    }
}

/// Whether an aggregator can take `value`: a value is missing only for a
/// count of rows, counts stay within their integer types.
pub open spec fn can_take(a: ExactAggregator, value: Option<CellValue>) -> bool {
    match a {
        ExactAggregator::Count(c) => match value {
            Some(v) => if v.truthy {
                c.spec_truthy() < usize::MAX
            } else {
                c.spec_falsey() < usize::MAX
            },
            None => c.spec_truthy() < usize::MAX,
        },
        ExactAggregator::Frequencies(f) => value is Some && f.wf() && (!value->0.nullish
            && f.counts().dom().contains(value->0.text@) ==> f.counts()[value->0.text@]
            < u64::MAX),
        _ => value is Some,
    }
}

/// Whether `new` is what aggregator `old` becomes once it takes `value`
/// read out of row `index`: truth values go to the all/any and count
/// aggregators (a missing value counts as truthy), the others take the
/// text of a value that is not nullish.
pub open spec fn routed(old: ExactAggregator, new: ExactAggregator, index: usize, value: Option<CellValue>) -> bool {
    match (old, new) {
        (ExactAggregator::AllAny(a), ExactAggregator::AllAny(b)) => {
            &&& b.spec_all() == (a.spec_all() && value->0.truthy)
            &&& b.spec_any() == (a.spec_any() || value->0.truthy)
        },
        (ExactAggregator::Count(a), ExactAggregator::Count(b)) => {
            let t = match value {
                Some(v) => v.truthy,
                None => true,
            };
            &&& b.spec_truthy() == a.spec_truthy() + if t { 1nat } else { 0nat }
            &&& b.spec_falsey() == a.spec_falsey() + if t { 0nat } else { 1nat }
        },
        (ExactAggregator::First(a), ExactAggregator::First(b)) => item_view(b.spec_item())
            == if value->0.nullish {
            item_view(a.spec_item())
        } else {
            first_add(item_view(a.spec_item()), (index, value->0.text@))
        },
        (ExactAggregator::Last(a), ExactAggregator::Last(b)) => item_view(b.spec_item())
            == if value->0.nullish {
            item_view(a.spec_item())
        } else {
            Some((index, value->0.text@))
        },
        (ExactAggregator::LexicographicExtent(a), ExactAggregator::LexicographicExtent(b)) => b.spec_extent()
            == if value->0.nullish {
            a.spec_extent()
        } else {
            add_string(a.spec_extent(), value->0.text@)
        },
        (ExactAggregator::Frequencies(a), ExactAggregator::Frequencies(b)) => {
            &&& b.wf()
            &&& b.counts() == if value->0.nullish {
                a.counts()
            } else {
                freq_add(a.counts(), value->0.text@)
            }
        },
        (ExactAggregator::Values(a), ExactAggregator::Values(b)) => b.spec_values()
            == if value->0.nullish {
            a.spec_values()
        } else {
            a.spec_values().push(value->0.text@)
        },
        (ExactAggregator::Types(a), ExactAggregator::Types(b)) => b.flags() == a.flags().update(
            type_rank(type_of_cell(value->0)),
            true,
        ),
        _ => false,
    }
}

fn take_value(agg: ExactAggregator, index: usize, value: &Option<CellValue>) -> (r: ExactAggregator)
    requires
        can_take(agg, *value),
    ensures
        routed(agg, r, index, *value),
{
    match agg {
        ExactAggregator::AllAny(mut a) => {
            let v = value.as_ref().unwrap();
            a.add(v.truthy);
            ExactAggregator::AllAny(a)
        },
        ExactAggregator::Count(mut c) => {
            match value {
                Some(v) => c.add(v.truthy),
                None => c.add_truthy(),
            }
            ExactAggregator::Count(c)
        },
        ExactAggregator::First(mut f) => {
            let v = value.as_ref().unwrap();
            if !v.nullish {
                f.add(index, v.text.clone());
            }
            ExactAggregator::First(f)
        },
        ExactAggregator::Last(mut l) => {
            let v = value.as_ref().unwrap();
            if !v.nullish {
                l.add(index, v.text.clone());
            }
            ExactAggregator::Last(l)
        },
        ExactAggregator::LexicographicExtent(mut e) => {
            let v = value.as_ref().unwrap();
            if !v.nullish {
                e.add(v.text.as_str());
            }
            ExactAggregator::LexicographicExtent(e)
        },
        ExactAggregator::Frequencies(mut f) => {
            let v = value.as_ref().unwrap();
            if !v.nullish {
                f.add(v.text.clone());
            }
            ExactAggregator::Frequencies(f)
        },
        ExactAggregator::Values(mut vs) => {
            let v = value.as_ref().unwrap();
            if !v.nullish {
                vs.add(v.text.clone());
            }
            ExactAggregator::Values(vs)
        },
        ExactAggregator::Types(mut t) => {
            let v = value.as_ref().unwrap();
            let ty = cell_type(v);
            t.set(ty);
            ExactAggregator::Types(t)
        },
    }
}

/// What an aggregation gives once all rows were read: nothing, a truth
/// value, a count or a text.
#[derive(Debug, Clone, PartialEq)]
pub enum ExactValue {
    Missing,
    Bool(bool),
    Count(usize),
    Text(String),
}

/// Whether `r` is the text `s`.
pub open spec fn is_text(r: Option<ExactValue>, s: Seq<char>) -> bool {
    r matches Some(ExactValue::Text(t)) && t@ == s
}

/// Whether `r` is the value kept as `o`, or nothing when none was kept.
pub open spec fn is_kept_text(r: Option<ExactValue>, o: Option<Seq<char>>) -> bool {
    match o {
        None => r == Some(ExactValue::Missing),
        Some(s) => is_text(r, s),
    }
}

/// Whether `s` is a mode of the counts `c`: a value seen, and none is
/// greater by (count, value).
pub open spec fn is_mode(c: Map<Seq<char>, u64>, s: Seq<char>) -> bool {
    c.dom().contains(s) && forall|x: Seq<char>|
        #[trigger] c.dom().contains(x) ==> !pair_gt((x, c[x]), (s, c[s]))
}

/// Whether `v` holds, once each, exactly the values of the highest count.
pub open spec fn are_modes(c: Map<Seq<char>, u64>, v: Seq<Seq<char>>) -> bool {
    &&& v.len() > 0
    &&& forall|i: int| 0 <= i < v.len() ==> c.dom().contains(#[trigger] v[i]) && c[v[i]] == c[v[0]]
    &&& forall|x: Seq<char>| #[trigger] c.dom().contains(x) ==> c[x] <= c[v[0]] && (c[x] == c[v[0]] ==> v.contains(x))
    &&& forall|i: int, j: int| 0 <= i < j < v.len() ==> v[i] != v[j]
}

/// The counts of the values `v`, written in decimal.
pub open spec fn count_texts(c: Map<Seq<char>, u64>, v: Seq<Seq<char>>) -> Seq<Seq<char>> {
    v.map_values(|x: Seq<char>| decimal(c[x] as nat))
}

/// The most likely type's name, out of the set of types seen: none when no
/// type was seen, `mixed` when several remain likely.
pub open spec fn likely_type(f: Seq<bool>) -> Option<Seq<char>> {
    let l = likely_flags(f);
    if count_flags(l) == 0 {
        None
    } else if count_flags(l) == 1 {
        Some(type_label(type_of_rank(first_flag(l))))
    } else {
        Some("mixed"@)
    }
}

/// Whether an aggregator is well formed: frequencies keep each value once.
pub open spec fn agg_wf(a: ExactAggregator) -> bool {
    a matches ExactAggregator::Frequencies(f) ==> f.wf()
}

fn decimal_strings(v: &Vec<u64>) -> (r: Vec<String>)
    ensures
        strings_view(r@) == v@.map_values(|n: u64| decimal(n as nat)),
{
    let mut r: Vec<String> = Vec::new();
    let mut i: usize = 0;
    while i < v.len()
        invariant
            i <= v@.len(),
            strings_view(r@) == v@.take(i as int).map_values(|n: u64| decimal(n as nat)),
        decreases v@.len() - i,
    {
        let mut s = String::new();
        push_decimal(&mut s, v[i] as u128);
        let ghost before = r@;
        r.push(s);
        assert(v@.take(i + 1) == v@.take(i as int).push(v@[i as int]));
        assert(strings_view(r@) =~= strings_view(before).push(s@));
        assert(v@.take(i + 1).map_values(|n: u64| decimal(n as nat)) =~= v@.take(i as int).map_values(
            |n: u64| decimal(n as nat),
        ).push(decimal(v@[i as int] as nat)));
        i += 1;
    }
    assert(v@.take(i as int) == v@);
    r
}

fn owned_strings(v: &Vec<&'static str>) -> (r: Vec<String>)
    ensures
        strings_view(r@) == v@.map_values(|s: &'static str| s@),
{
    let mut r: Vec<String> = Vec::new();
    let mut i: usize = 0;
    while i < v.len()
        invariant
            i <= v@.len(),
            strings_view(r@) == v@.take(i as int).map_values(|s: &'static str| s@),
        decreases v@.len() - i,
    {
        let s = v[i].to_owned();
        let ghost before = r@;
        r.push(s);
        assert(v@.take(i + 1) == v@.take(i as int).push(v@[i as int]));
        assert(strings_view(r@) =~= strings_view(before).push(s@));
        assert(v@.take(i + 1).map_values(|s: &'static str| s@) =~= v@.take(i as int).map_values(
            |s: &'static str| s@,
        ).push(v@[i as int]@));
        i += 1;
    }
    assert(v@.take(i as int) == v@);
    r
}

/// Whether `r` is the value of `method` out of aggregator `a`, once all
/// rows were read, values being joined with `sep`: whether all or any values
/// were truthy, how many were, the first and last values kept, the
/// lexicographically first and last, how many distinct values there were,
/// all the values joined, a mode, all the modes joined, the distinct values
/// sorted and joined, the `k` most common values or their counts joined,
/// the types seen joined with `|`, or the most likely type; `None` when `a`
/// does not compute `method`.
pub open spec fn gives(a: ExactAggregator, method: AggregationMethod, sep: Seq<char>, r: Option<ExactValue>) -> bool {
    match (method, a) {
        (AggregationMethod::All, ExactAggregator::AllAny(x)) => r == Some(ExactValue::Bool(x.spec_all())),
        (AggregationMethod::Any, ExactAggregator::AllAny(x)) => r == Some(ExactValue::Bool(x.spec_any())),
        (AggregationMethod::Count, ExactAggregator::Count(c)) => r == Some(
            ExactValue::Count(c.spec_truthy() as usize),
        ),
        (AggregationMethod::First, ExactAggregator::First(f)) => is_kept_text(
            r,
            match item_view(f.spec_item()) {
                Some((_, t)) => Some(t),
                None => None,
            },
        ),
        (AggregationMethod::Last, ExactAggregator::Last(l)) => is_kept_text(
            r,
            match item_view(l.spec_item()) {
                Some((_, t)) => Some(t),
                None => None,
            },
        ),
        (AggregationMethod::LexFirst, ExactAggregator::LexicographicExtent(e)) => is_kept_text(
            r,
            match e.spec_extent() {
                Some((lo, _)) => Some(lo),
                None => None,
            },
        ),
        (AggregationMethod::LexLast, ExactAggregator::LexicographicExtent(e)) => is_kept_text(
            r,
            match e.spec_extent() {
                Some((_, hi)) => Some(hi),
                None => None,
            },
        ),
        (AggregationMethod::Cardinality, ExactAggregator::Frequencies(f)) => r == Some(
            ExactValue::Count(f.spec_cardinality() as usize),
        ),
        (AggregationMethod::Values, ExactAggregator::Values(v)) => is_text(
            r,
            joined(v.spec_values(), sep),
        ),
        (AggregationMethod::Mode, ExactAggregator::Frequencies(f)) => if f.spec_cardinality() == 0 {
            r == Some(ExactValue::Missing)
        } else {
            r matches Some(ExactValue::Text(t)) && is_mode(f.counts(), t@)
        },
        (AggregationMethod::Modes, ExactAggregator::Frequencies(f)) => if f.spec_cardinality() == 0 {
            r == Some(ExactValue::Missing)
        } else {
            exists|v: Seq<Seq<char>>| #[trigger] are_modes(f.counts(), v) && is_text(r, joined(v, sep))
        },
        (AggregationMethod::DistinctValues, ExactAggregator::Frequencies(f)) => exists|
            v: Seq<Seq<char>>,
        | #[trigger] sorted_keys(f.counts(), v) && is_text(r, joined(v, sep)),
        (AggregationMethod::MostCommonValues(k), ExactAggregator::Frequencies(f)) => exists|
            v: Seq<Seq<char>>,
        | #[trigger] is_top(f.counts(), f.spec_cardinality(), k as nat, v) && is_text(
            r,
            joined(v, sep),
        ),
        (AggregationMethod::MostCommonCounts(k), ExactAggregator::Frequencies(f)) => exists|
            v: Seq<Seq<char>>,
        | #[trigger] is_top(f.counts(), f.spec_cardinality(), k as nat, v) && is_text(
            r,
            joined(count_texts(f.counts(), v), sep),
        ),
        (AggregationMethod::Types, ExactAggregator::Types(t)) => is_text(
            r,
            joined(flag_names(t.flags()), "|"@),
        ),
        (AggregationMethod::Type, ExactAggregator::Types(t)) => is_kept_text(r, likely_type(t.flags())),
        _ => r is None,
    }
}

impl ExactAggregator {
    /// The value of `method` out of this aggregator, once all rows were
    /// read: whether all or any values were truthy, how many were, the
    /// first and last values kept, the lexicographically first and last,
    /// how many distinct values there were, all the values joined with
    /// `separator`, the modes, the distinct values, the most common values
    /// or their counts, the types seen or the most likely type (see
    /// `gives`). `None` when the aggregator does not compute `method`.
    pub fn final_value(&self, method: AggregationMethod, separator: &str) -> (r: Option<ExactValue>)
        requires
            agg_wf(*self),
        ensures
            gives(*self, method, separator@, r),
    {
        match (method, self) {
            (AggregationMethod::All, ExactAggregator::AllAny(a)) => Some(ExactValue::Bool(a.all())),
            (AggregationMethod::Any, ExactAggregator::AllAny(a)) => Some(ExactValue::Bool(a.any())),
            (AggregationMethod::Count, ExactAggregator::Count(c)) => Some(
                ExactValue::Count(c.get_truthy()),
            ),
            (AggregationMethod::First, ExactAggregator::First(f)) => match f.first() {
                Some(t) => Some(ExactValue::Text(t.clone())),
                None => Some(ExactValue::Missing),
            },
            (AggregationMethod::Last, ExactAggregator::Last(l)) => match l.last() {
                Some(t) => Some(ExactValue::Text(t.clone())),
                None => Some(ExactValue::Missing),
            },
            (AggregationMethod::LexFirst, ExactAggregator::LexicographicExtent(e)) => match e.first() {
                Some(t) => Some(ExactValue::Text(t)),
                None => Some(ExactValue::Missing),
            },
            (AggregationMethod::LexLast, ExactAggregator::LexicographicExtent(e)) => match e.last() {
                Some(t) => Some(ExactValue::Text(t)),
                None => Some(ExactValue::Missing),
            },
            (AggregationMethod::Cardinality, ExactAggregator::Frequencies(f)) => Some(
                ExactValue::Count(f.cardinality()),
            ),
            (AggregationMethod::Values, ExactAggregator::Values(v)) => Some(
                ExactValue::Text(v.join(separator)),
            ),
            (AggregationMethod::Mode, ExactAggregator::Frequencies(f)) => match f.mode() {
                Some(t) => Some(ExactValue::Text(t)),
                None => Some(ExactValue::Missing),
            },
            (AggregationMethod::Modes, ExactAggregator::Frequencies(f)) => match f.modes() {
                Some(v) => {
                    proof {
                        let c = f.counts();
                        let w = strings_view(v@);
                        assert forall|i: int| 0 <= i < w.len() implies c.dom().contains(#[trigger] w[i])
                            && c[w[i]] == c[w[0]] by {
                            assert(w[i] == v@[i]@);
                            assert(w[0] == v@[0]@);
                        }
                        assert forall|i: int, j: int| 0 <= i < j < w.len() implies w[i] != w[j] by {
                            assert(w[i] == v@[i]@);
                            assert(w[j] == v@[j]@);
                        }
                        assert forall|x: Seq<char>| #[trigger] c.dom().contains(x) implies c[x] <= c[w[0]] && (c[x]
                            == c[w[0]] ==> w.contains(x)) by {
                            assert(w[0] == v@[0]@);
                        }
                        assert(are_modes(c, w));
                    }
                    Some(ExactValue::Text(join_strings(&v, separator)))
                },
                None => Some(ExactValue::Missing),
            },
            (AggregationMethod::DistinctValues, ExactAggregator::Frequencies(f)) => Some(
                ExactValue::Text(f.join(separator)),
            ),
            (AggregationMethod::MostCommonValues(k), ExactAggregator::Frequencies(f)) => {
                let top = f.most_common(k);
                let r = join_strings(&top, separator);
                proof {
                    assert(is_top(f.counts(), f.spec_cardinality(), k as nat, strings_view(top@)));
                }
                Some(ExactValue::Text(r))
            },
            (AggregationMethod::MostCommonCounts(k), ExactAggregator::Frequencies(f)) => {
                let counts = f.most_common_counts(k);
                let texts = decimal_strings(&counts);
                let r = join_strings(&texts, separator);
                proof {
                    let c = f.counts();
                    let v = choose|v: Seq<Seq<char>>| #[trigger] is_top(c, f.spec_cardinality(), k as nat, v)
                        && counts@ == v.map_values(|x: Seq<char>| c[x]);
                    assert(strings_view(texts@) =~= count_texts(c, v));
                    assert(is_top(c, f.spec_cardinality(), k as nat, v));
                }
                Some(ExactValue::Text(r))
            },
            (AggregationMethod::Types, ExactAggregator::Types(t)) => {
                let names = t.sorted_types();
                let owned = owned_strings(&names);
                Some(ExactValue::Text(join_strings(&owned, "|")))
            },
            (AggregationMethod::Type, ExactAggregator::Types(t)) => match t.most_likely_type() {
                Some(name) => Some(ExactValue::Text(name.to_owned())),
                None => Some(ExactValue::Missing),
            },
            _ => None,
        }
    }
}

/// The aggregators with exact state that a set of aggregations on the same
/// expression share.
pub struct ExactAggregators {
    methods: Vec<ExactAggregator>,
}

impl ExactAggregators {
    /// The aggregators, in order.
    pub closed spec fn spec_methods(&self) -> Seq<ExactAggregator> {
        self.methods@
    }

    /// Shares the given aggregators.
    pub fn new(methods: Vec<ExactAggregator>) -> (r: Self)
        ensures
            r.spec_methods() == methods@,
    {
        Self { methods }
    }

    /// Hands the value read out of row `index` to each aggregator, in
    /// order; a missing value (an aggregation without expression) only
    /// counts a row.
    pub fn process_value(&mut self, index: usize, value: Option<CellValue>)
        requires
            forall|i: int| 0 <= i < old(self).spec_methods().len() ==> can_take(
                #[trigger] old(self).spec_methods()[i],
                value,
            ),
        ensures
            final(self).spec_methods().len() == old(self).spec_methods().len(),
            forall|i: int|
                0 <= i < old(self).spec_methods().len() ==> routed(
                    #[trigger] old(self).spec_methods()[i],
                    final(self).spec_methods()[i],
                    index,
                    value,
                ),
    {
        let ghost olds = self.methods@;
        assert forall|i: int| 0 <= i < olds.len() implies can_take(#[trigger] olds[i], value) by {
            assert(olds[i] == old(self).spec_methods()[i]);
        }
        let mut rest: Vec<ExactAggregator> = Vec::new();
        std::mem::swap(&mut rest, &mut self.methods);
        let mut done: Vec<ExactAggregator> = Vec::new();
        while rest.len() > 0
            invariant
                done@.len() + rest@.len() == olds.len(),
                rest@ == olds.skip(done@.len() as int),
                forall|i: int| 0 <= i < olds.len() ==> can_take(#[trigger] olds[i], value),
                forall|i: int| 0 <= i < done@.len() ==> routed(#[trigger] olds[i], done@[i], index, value),
            decreases rest@.len(),
        {
            let ghost k = done@.len() as int;
            let agg = rest.remove(0);
            assert(agg == olds[k]);
            let next = take_value(agg, index, &value);
            done.push(next);
            assert(rest@ =~= olds.skip(done@.len() as int));
        }
        self.methods = done;
    }

    /// The value of `method` out of the aggregator at `handle`.
    pub fn get_final_value(&self, handle: usize, method: AggregationMethod, separator: &str) -> (r:
        Option<ExactValue>)
        requires
            handle < self.spec_methods().len(),
            agg_wf(self.spec_methods()[handle as int]),
        ensures
            gives(self.spec_methods()[handle as int], method, separator@, r),
    {
        self.methods[handle].final_value(method, separator)
    }
}


/// Run over rows whose indices are `idx` and whose values are `vals`,
/// starting empty, the last aggregator keeps the value of the latest row
/// whose value is not nullish, with that row's index, and keeps nothing when
/// every value is nullish: a nullish value never changes what it gives.
pub proof fn law_last_keeps_latest_value(
    states: Seq<Last<String>>,
    idx: Seq<usize>,
    vals: Seq<CellValue>,
)
    requires
        states.len() == vals.len() + 1,
        idx.len() == vals.len(),
        states[0].spec_item() is None,
        forall|i: int|
            0 <= i < vals.len() ==> #[trigger] routed(
                ExactAggregator::Last(states[i]),
                ExactAggregator::Last(states[i + 1]),
                idx[i],
                Some(vals[i]),
            ),
    ensures
        match item_view(states.last().spec_item()) {
            None => forall|k: int| 0 <= k < vals.len() ==> (#[trigger] vals[k]).nullish,
            Some((i, t)) => exists|j: int|
                0 <= j < vals.len() && !(#[trigger] vals[j]).nullish && idx[j] == i && vals[j].text@
                    == t && forall|k: int| j < k < vals.len() ==> (#[trigger] vals[k]).nullish,
        },
    decreases vals.len(),
{
    let n = vals.len() as int;
    if n > 0 {
        let s2 = states.drop_last();
        let i2 = idx.drop_last();
        let v2 = vals.drop_last();
        assert forall|i: int| 0 <= i < v2.len() implies #[trigger] routed(
            ExactAggregator::Last(s2[i]),
            ExactAggregator::Last(s2[i + 1]),
            i2[i],
            Some(v2[i]),
        ) by {
            assert(routed(
                ExactAggregator::Last(states[i]),
                ExactAggregator::Last(states[i + 1]),
                idx[i],
                Some(vals[i]),
            ));
        }
        law_last_keeps_latest_value(s2, i2, v2);
        assert(routed(
            ExactAggregator::Last(states[n - 1]),
            ExactAggregator::Last(states[n]),
            idx[n - 1],
            Some(vals[n - 1]),
        ));
        assert(s2.last() == states[n - 1]);
        if vals[n - 1].nullish {
            match item_view(s2.last().spec_item()) {
                None => {
                    assert forall|k: int| 0 <= k < n implies (#[trigger] vals[k]).nullish by {
                        if k < n - 1 {
                            assert(vals[k] == v2[k]);
                        }
                    }
                },
                Some((i, t)) => {
                    let j = choose|j: int|
                        0 <= j < v2.len() && !(#[trigger] v2[j]).nullish && i2[j] == i && v2[j].text@
                            == t && forall|k: int| j < k < v2.len() ==> (#[trigger] v2[k]).nullish;
                    assert(vals[j] == v2[j]);
                    assert forall|k: int| j < k < n implies (#[trigger] vals[k]).nullish by {
                        if k < n - 1 {
                            assert(vals[k] == v2[k]);
                        }
                    }
                },
            }
        } else {
            assert(!vals[n - 1].nullish);
        }
    }
}

/// Run the same way, the first aggregator keeps the value of the earliest
/// row whose value is not nullish, with that row's index, and keeps nothing
/// when every value is nullish.
pub proof fn law_first_keeps_earliest_value(
    states: Seq<First<String>>,
    idx: Seq<usize>,
    vals: Seq<CellValue>,
)
    requires
        states.len() == vals.len() + 1,
        idx.len() == vals.len(),
        states[0].spec_item() is None,
        forall|i: int|
            0 <= i < vals.len() ==> #[trigger] routed(
                ExactAggregator::First(states[i]),
                ExactAggregator::First(states[i + 1]),
                idx[i],
                Some(vals[i]),
            ),
    ensures
        match item_view(states.last().spec_item()) {
            None => forall|k: int| 0 <= k < vals.len() ==> (#[trigger] vals[k]).nullish,
            Some((i, t)) => exists|j: int|
                0 <= j < vals.len() && !(#[trigger] vals[j]).nullish && idx[j] == i && vals[j].text@
                    == t && forall|k: int| 0 <= k < j ==> (#[trigger] vals[k]).nullish,
        },
    decreases vals.len(),
{
    let n = vals.len() as int;
    if n > 0 {
        let s2 = states.drop_last();
        let i2 = idx.drop_last();
        let v2 = vals.drop_last();
        assert forall|i: int| 0 <= i < v2.len() implies #[trigger] routed(
            ExactAggregator::First(s2[i]),
            ExactAggregator::First(s2[i + 1]),
            i2[i],
            Some(v2[i]),
        ) by {
            assert(routed(
                ExactAggregator::First(states[i]),
                ExactAggregator::First(states[i + 1]),
                idx[i],
                Some(vals[i]),
            ));
        }
        law_first_keeps_earliest_value(s2, i2, v2);
        assert(routed(
            ExactAggregator::First(states[n - 1]),
            ExactAggregator::First(states[n]),
            idx[n - 1],
            Some(vals[n - 1]),
        ));
        assert(s2.last() == states[n - 1]);
        match item_view(s2.last().spec_item()) {
            None => {
                assert forall|k: int| 0 <= k < n - 1 implies (#[trigger] vals[k]).nullish by {
                    assert(vals[k] == v2[k]);
                }
                if !vals[n - 1].nullish {
                    assert(item_view(states[n].spec_item()) == Some((idx[n - 1], vals[n - 1].text@)));
                }
            },
            Some((i, t)) => {
                let j = choose|j: int|
                    0 <= j < v2.len() && !(#[trigger] v2[j]).nullish && i2[j] == i && v2[j].text@ == t
                        && forall|k: int| 0 <= k < j ==> (#[trigger] v2[k]).nullish;
                assert(vals[j] == v2[j]);
                assert forall|k: int| 0 <= k < j implies (#[trigger] vals[k]).nullish by {
                    assert(vals[k] == v2[k]);
                }
            },
        }
    }
}


/// The texts of the values that are not nullish, in order.
pub open spec fn present_texts(vals: Seq<CellValue>) -> Seq<Seq<char>>
    decreases vals.len(),
{
    if vals.len() == 0 {
        Seq::empty()
    } else if vals.last().nullish {
        present_texts(vals.drop_last())
    } else {
        present_texts(vals.drop_last()).push(vals.last().text@)
    }
}

/// How many of the values are truthy.
pub open spec fn truthy_values(vals: Seq<CellValue>) -> nat
    decreases vals.len(),
{
    if vals.len() == 0 {
        0
    } else {
        truthy_values(vals.drop_last()) + if vals.last().truthy {
            1nat
        } else {
            0nat
        }
    }
}

/// How many of the values that are not nullish have the text `t`.
pub open spec fn occurrences(vals: Seq<CellValue>, t: Seq<char>) -> nat
    decreases vals.len(),
{
    if vals.len() == 0 {
        0
    } else {
        occurrences(vals.drop_last(), t) + if !vals.last().nullish && vals.last().text@ == t {
            1nat
        } else {
            0nat
        }
    }
}

/// Run over values, starting empty, the values aggregator holds the texts
/// of the values that are not nullish, in the order they came.
pub proof fn law_values_keep_present_texts(states: Seq<Values>, idx: Seq<usize>, vals: Seq<CellValue>)
    requires
        states.len() == vals.len() + 1,
        idx.len() == vals.len(),
        states[0].spec_values() == Seq::<Seq<char>>::empty(),
        forall|i: int|
            0 <= i < vals.len() ==> #[trigger] routed(
                ExactAggregator::Values(states[i]),
                ExactAggregator::Values(states[i + 1]),
                idx[i],
                Some(vals[i]),
            ),
    ensures
        states.last().spec_values() == present_texts(vals),
    decreases vals.len(),
{
    let n = vals.len() as int;
    if n > 0 {
        let s2 = states.drop_last();
        let i2 = idx.drop_last();
        let v2 = vals.drop_last();
        assert forall|i: int| 0 <= i < v2.len() implies #[trigger] routed(
            ExactAggregator::Values(s2[i]),
            ExactAggregator::Values(s2[i + 1]),
            i2[i],
            Some(v2[i]),
        ) by {
            assert(routed(
                ExactAggregator::Values(states[i]),
                ExactAggregator::Values(states[i + 1]),
                idx[i],
                Some(vals[i]),
            ));
        }
        law_values_keep_present_texts(s2, i2, v2);
        assert(routed(
            ExactAggregator::Values(states[n - 1]),
            ExactAggregator::Values(states[n]),
            idx[n - 1],
            Some(vals[n - 1]),
        ));
    }
}

/// Run over values, starting from zero, the count aggregator counts the
/// truthy values and the others, each value once, nullish or not.
pub proof fn law_count_counts_truthy(states: Seq<Count>, idx: Seq<usize>, vals: Seq<CellValue>)
    requires
        states.len() == vals.len() + 1,
        idx.len() == vals.len(),
        states[0].spec_truthy() == 0,
        states[0].spec_falsey() == 0,
        forall|i: int|
            0 <= i < vals.len() ==> #[trigger] routed(
                ExactAggregator::Count(states[i]),
                ExactAggregator::Count(states[i + 1]),
                idx[i],
                Some(vals[i]),
            ),
    ensures
        states.last().spec_truthy() == truthy_values(vals),
        states.last().spec_truthy() + states.last().spec_falsey() == vals.len(),
    decreases vals.len(),
{
    let n = vals.len() as int;
    if n > 0 {
        let s2 = states.drop_last();
        let i2 = idx.drop_last();
        let v2 = vals.drop_last();
        assert forall|i: int| 0 <= i < v2.len() implies #[trigger] routed(
            ExactAggregator::Count(s2[i]),
            ExactAggregator::Count(s2[i + 1]),
            i2[i],
            Some(v2[i]),
        ) by {
            assert(routed(
                ExactAggregator::Count(states[i]),
                ExactAggregator::Count(states[i + 1]),
                idx[i],
                Some(vals[i]),
            ));
        }
        law_count_counts_truthy(s2, i2, v2);
        assert(routed(
            ExactAggregator::Count(states[n - 1]),
            ExactAggregator::Count(states[n]),
            idx[n - 1],
            Some(vals[n - 1]),
        ));
    }
}

/// Run over values, starting fresh, the all/any aggregator says whether
/// every value, and whether some value, was truthy.
pub proof fn law_all_any_of_values(states: Seq<AllAny>, idx: Seq<usize>, vals: Seq<CellValue>)
    requires
        states.len() == vals.len() + 1,
        idx.len() == vals.len(),
        states[0].spec_all(),
        !states[0].spec_any(),
        forall|i: int|
            0 <= i < vals.len() ==> #[trigger] routed(
                ExactAggregator::AllAny(states[i]),
                ExactAggregator::AllAny(states[i + 1]),
                idx[i],
                Some(vals[i]),
            ),
    ensures
        states.last().spec_all() == (forall|k: int| 0 <= k < vals.len() ==> (#[trigger] vals[k]).truthy),
        states.last().spec_any() == (exists|k: int| 0 <= k < vals.len() && (#[trigger] vals[k]).truthy),
    decreases vals.len(),
{
    let n = vals.len() as int;
    if n > 0 {
        let s2 = states.drop_last();
        let i2 = idx.drop_last();
        let v2 = vals.drop_last();
        assert forall|i: int| 0 <= i < v2.len() implies #[trigger] routed(
            ExactAggregator::AllAny(s2[i]),
            ExactAggregator::AllAny(s2[i + 1]),
            i2[i],
            Some(v2[i]),
        ) by {
            assert(routed(
                ExactAggregator::AllAny(states[i]),
                ExactAggregator::AllAny(states[i + 1]),
                idx[i],
                Some(vals[i]),
            ));
        }
        law_all_any_of_values(s2, i2, v2);
        assert(routed(
            ExactAggregator::AllAny(states[n - 1]),
            ExactAggregator::AllAny(states[n]),
            idx[n - 1],
            Some(vals[n - 1]),
        ));
        assert forall|k: int| 0 <= k < n - 1 implies vals[k] == v2[k] by {}
        if states.last().spec_all() {
            assert forall|k: int| 0 <= k < n implies (#[trigger] vals[k]).truthy by {
                if k < n - 1 {
                    assert(vals[k] == v2[k]);
                }
            }
        }
        if exists|k: int| 0 <= k < n && (#[trigger] vals[k]).truthy {
            let k = choose|k: int| 0 <= k < n && (#[trigger] vals[k]).truthy;
            if k < n - 1 {
                assert(v2[k].truthy);
            }
        }
        if states.last().spec_any() {
            if !vals[n - 1].truthy {
                let k = choose|k: int| 0 <= k < v2.len() && (#[trigger] v2[k]).truthy;
                assert(vals[k] == v2[k]);
            }
        }
    }
}

/// Run over values, starting empty, the frequencies give each text the
/// number of values, not nullish, that have it, and know no other text.
pub proof fn law_frequencies_count_occurrences(
    states: Seq<Frequencies>,
    idx: Seq<usize>,
    vals: Seq<CellValue>,
    t: Seq<char>,
)
    requires
        states.len() == vals.len() + 1,
        idx.len() == vals.len(),
        states[0].counts() == Map::<Seq<char>, u64>::empty(),
        occurrences(vals, t) <= u64::MAX,
        forall|i: int|
            0 <= i < vals.len() ==> #[trigger] routed(
                ExactAggregator::Frequencies(states[i]),
                ExactAggregator::Frequencies(states[i + 1]),
                idx[i],
                Some(vals[i]),
            ),
    ensures
        states.last().counts().dom().contains(t) == (occurrences(vals, t) > 0),
        states.last().counts().dom().contains(t) ==> states.last().counts()[t] == occurrences(vals, t),
    decreases vals.len(),
{
    let n = vals.len() as int;
    if n > 0 {
        let s2 = states.drop_last();
        let i2 = idx.drop_last();
        let v2 = vals.drop_last();
        assert forall|i: int| 0 <= i < v2.len() implies #[trigger] routed(
            ExactAggregator::Frequencies(s2[i]),
            ExactAggregator::Frequencies(s2[i + 1]),
            i2[i],
            Some(v2[i]),
        ) by {
            assert(routed(
                ExactAggregator::Frequencies(states[i]),
                ExactAggregator::Frequencies(states[i + 1]),
                idx[i],
                Some(vals[i]),
            ));
        }
        law_frequencies_count_occurrences(s2, i2, v2, t);
        assert(routed(
            ExactAggregator::Frequencies(states[n - 1]),
            ExactAggregator::Frequencies(states[n]),
            idx[n - 1],
            Some(vals[n - 1]),
        ));
        assert(s2.last() == states[n - 1]);
        let before = states[n - 1].counts();
        let after = states[n].counts();
        let v = vals[n - 1];
        if !v.nullish && v.text@ == t {
            assert(occurrences(vals, t) == occurrences(v2, t) + 1);
            assert(after == freq_add(before, t));
        } else if !v.nullish {
            assert(after == freq_add(before, v.text@));
            assert(after[t] == before[t]);
        }
    }
}


/// Run over values, starting empty, the lexicographic extent holds the
/// lexicographically first and last of the texts of the values that are not
/// nullish (two of those texts, none of them before the first nor after the
/// last), and nothing when every value is nullish.
pub proof fn law_lex_extent_of_values(
    states: Seq<LexicographicExtent>,
    idx: Seq<usize>,
    vals: Seq<CellValue>,
)
    requires
        states.len() == vals.len() + 1,
        idx.len() == vals.len(),
        states[0].spec_extent() is None,
        forall|i: int|
            0 <= i < vals.len() ==> #[trigger] routed(
                ExactAggregator::LexicographicExtent(states[i]),
                ExactAggregator::LexicographicExtent(states[i + 1]),
                idx[i],
                Some(vals[i]),
            ),
    ensures
        match states.last().spec_extent() {
            None => present_texts(vals).len() == 0,
            Some((lo, hi)) => {
                let p = present_texts(vals);
                &&& p.contains(lo)
                &&& p.contains(hi)
                &&& forall|k: int| 0 <= k < p.len() ==> !lex_lt(#[trigger] p[k], lo) && !lex_lt(hi, p[k])
            },
        },
    decreases vals.len(),
{
    let n = vals.len() as int;
    if n > 0 {
        let s2 = states.drop_last();
        let i2 = idx.drop_last();
        let v2 = vals.drop_last();
        assert forall|i: int| 0 <= i < v2.len() implies #[trigger] routed(
            ExactAggregator::LexicographicExtent(s2[i]),
            ExactAggregator::LexicographicExtent(s2[i + 1]),
            i2[i],
            Some(v2[i]),
        ) by {
            assert(routed(
                ExactAggregator::LexicographicExtent(states[i]),
                ExactAggregator::LexicographicExtent(states[i + 1]),
                idx[i],
                Some(vals[i]),
            ));
        }
        law_lex_extent_of_values(s2, i2, v2);
        assert(routed(
            ExactAggregator::LexicographicExtent(states[n - 1]),
            ExactAggregator::LexicographicExtent(states[n]),
            idx[n - 1],
            Some(vals[n - 1]),
        ));
        assert(s2.last() == states[n - 1]);
        let v = vals[n - 1];
        let p2 = present_texts(v2);
        let p = present_texts(vals);
        if !v.nullish {
            let t = v.text@;
            assert(p == p2.push(t));
            assert(p[p2.len() as int] == t);
            match states[n - 1].spec_extent() {
                None => {
                    lemma_lex_irreflexive(t);
                    assert forall|k: int| 0 <= k < p.len() implies !lex_lt(#[trigger] p[k], t) && !lex_lt(t, p[k]) by {
                        assert(p[k] == t);
                    }
                },
                Some((lo, hi)) => {
                    let lo_k = choose|k: int| 0 <= k < p2.len() && p2[k] == lo;
                    let hi_k = choose|k: int| 0 <= k < p2.len() && p2[k] == hi;
                    assert(p[lo_k] == lo);
                    assert(p[hi_k] == hi);
                    assert(!lex_lt(hi, p2[lo_k]));
                    if lex_lt(t, lo) {
                        assert forall|k: int| 0 <= k < p.len() implies !lex_lt(#[trigger] p[k], t) && !lex_lt(hi, p[k]) by {
                            if k < p2.len() {
                                assert(p[k] == p2[k]);
                                assert(!lex_lt(p2[k], lo));
                                if lex_lt(p2[k], t) {
                                    lemma_lex_transitive(p2[k], t, lo);
                                }
                            } else {
                                assert(p[k] == t);
                                lemma_lex_irreflexive(t);
                                if lex_lt(hi, t) {
                                    lemma_lex_transitive(hi, t, lo);
                                }
                            }
                        }
                    } else if lex_lt(hi, t) {
                        assert forall|k: int| 0 <= k < p.len() implies !lex_lt(#[trigger] p[k], lo) && !lex_lt(t, p[k]) by {
                            if k < p2.len() {
                                assert(p[k] == p2[k]);
                                assert(!lex_lt(hi, p2[k]));
                                if lex_lt(t, p2[k]) {
                                    lemma_lex_transitive(hi, t, p2[k]);
                                }
                            } else {
                                assert(p[k] == t);
                                lemma_lex_irreflexive(t);
                                if lex_lt(t, lo) {
                                    lemma_lex_transitive(hi, t, lo);
                                }
                            }
                        }
                    } else {
                        assert forall|k: int| 0 <= k < p.len() implies !lex_lt(#[trigger] p[k], lo) && !lex_lt(hi, p[k]) by {
                            if k < p2.len() {
                                assert(p[k] == p2[k]);
                            } else {
                                assert(p[k] == t);
                            }
                        }
                    }
                },
            }
        } else {
            assert(p == p2);
        }
    }
}

} // verus!
