//! How an aggregation program plans its work: which aggregators each
//! aggregation method needs, shared between the methods that can use the
//! same, and which aggregations read the same expressions.
use vstd::prelude::*;

verus! {

/// The unit in which a time span is counted.
#[derive(Debug, Clone, Copy, PartialEq, Eq, Structural)]
pub enum CountUnit {
    Second,
    Hour,
    Day,
    Year,
}

/// Which middle value a median gives for an even number of values: their
/// interpolation, the higher or the lower one.
#[derive(Debug, Clone, Copy, PartialEq, Eq, Structural)]
pub enum MedianType {
    Interpolation,
    High,
    Low,
}

/// An aggregation method, as far as planning goes: its kind, and for the
/// methods that keep the top values, how many of them.
#[derive(Debug, Clone, Copy, PartialEq, Eq, Structural)]
pub enum AggregationMethod {
    All,
    Any,
    ApproxCardinality,
    ApproxQuantile,
    ArgMin,
    ArgMax,
    ArgTop(usize),
    Cardinality,
    Correlation,
    Count,
    CountTime(CountUnit),
    CovariancePop,
    CovarianceSample,
    DistinctValues,
    Earliest,
    First,
    Latest,
    Last,
    LexFirst,
    LexLast,
    Min,
    Max,
    Mean,
    Median(MedianType),
    Mode,
    Modes,
    MostCommonValues(usize),
    MostCommonCounts(usize),
    Percentage,
    Quartile(usize),
    Quantile,
    Ratio,
    Sparkline,
    Sum,
    Values,
    VarPop,
    VarSample,
    StddevPop,
    StddevSample,
    Top(usize),
    Type,
    Types,
}

/// The aggregators out of which the methods are computed.
#[derive(Debug, Clone, Copy, PartialEq, Eq, Structural)]
pub enum AggregatorKind {
    AllAny,
    ApproxCardinality,
    ApproxQuantiles,
    ArgExtent,
    ArgTop(usize),
    Count,
    CovarianceWelford,
    First,
    Frequencies,
    Last,
    LexicographicExtent,
    Numbers,
    NumericExtent,
    Sum,
    Types,
    Values,
    Welford,
    ZonedExtent,
}

/// The aggregator a method asks for when none that serves it is there.
pub open spec fn kind_for(m: AggregationMethod) -> AggregatorKind {
    match m {
        AggregationMethod::All | AggregationMethod::Any => AggregatorKind::AllAny,
        AggregationMethod::ApproxCardinality => AggregatorKind::ApproxCardinality,
        AggregationMethod::ApproxQuantile => AggregatorKind::ApproxQuantiles,
        AggregationMethod::Count | AggregationMethod::Ratio | AggregationMethod::Percentage =>
            AggregatorKind::Count,
        AggregationMethod::CovariancePop | AggregationMethod::CovarianceSample
        | AggregationMethod::Correlation => AggregatorKind::CovarianceWelford,
        AggregationMethod::Min | AggregationMethod::Max => AggregatorKind::NumericExtent,
        AggregationMethod::ArgMin | AggregationMethod::ArgMax => AggregatorKind::ArgExtent,
        AggregationMethod::ArgTop(k) | AggregationMethod::Top(k) => AggregatorKind::ArgTop(k),
        AggregationMethod::First => AggregatorKind::First,
        AggregationMethod::Last => AggregatorKind::Last,
        AggregationMethod::LexFirst | AggregationMethod::LexLast =>
            AggregatorKind::LexicographicExtent,
        AggregationMethod::Earliest | AggregationMethod::Latest | AggregationMethod::CountTime(_) =>
            AggregatorKind::ZonedExtent,
        AggregationMethod::Median(_) | AggregationMethod::Quantile | AggregationMethod::Quartile(_)
        | AggregationMethod::Sparkline => AggregatorKind::Numbers,
        AggregationMethod::Mode | AggregationMethod::Modes | AggregationMethod::Cardinality
        | AggregationMethod::DistinctValues | AggregationMethod::MostCommonCounts(_)
        | AggregationMethod::MostCommonValues(_) => AggregatorKind::Frequencies,
        AggregationMethod::Sum => AggregatorKind::Sum,
        AggregationMethod::Mean | AggregationMethod::VarPop | AggregationMethod::VarSample
        | AggregationMethod::StddevPop | AggregationMethod::StddevSample =>
            AggregatorKind::Welford,
        AggregationMethod::Types | AggregationMethod::Type => AggregatorKind::Types,
        AggregationMethod::Values => AggregatorKind::Values,
    }
}

/// Whether an aggregator can compute a method: the one the method asks
/// for, or, for a minimum or a maximum, an extent that also keeps the
/// arguments of its extremes.
pub open spec fn serves(k: AggregatorKind, m: AggregationMethod) -> bool {
    k == kind_for(m) || ((m is Min || m is Max) && k == AggregatorKind::ArgExtent)
}

/// The aggregators with `k` among them, and where it stands: the first
/// one equal to `k`, else `k` added at the end.
pub open spec fn upsert(s: Seq<AggregatorKind>, k: AggregatorKind) -> (Seq<AggregatorKind>, int) {
    match s.index_of_first(k) {
        Some(i) => (s, i),
        None => (s.push(k), s.len() as int),
    }
}

/// The aggregators once a method is added to them, and where the one that
/// computes it stands. A minimum or a maximum uses an extent that keeps
/// arguments where there is one; an argument of an extreme turns a plain
/// extent into one that keeps arguments.
pub open spec fn planned(s: Seq<AggregatorKind>, m: AggregationMethod) -> (
    Seq<AggregatorKind>,
    int,
) {
    match m {
        AggregationMethod::Min | AggregationMethod::Max => match s.index_of_first(
            AggregatorKind::ArgExtent,
        ) {
            Some(i) => (s, i),
            None => upsert(s, AggregatorKind::NumericExtent),
        },
        AggregationMethod::ArgMin | AggregationMethod::ArgMax => match s.index_of_first(
            AggregatorKind::NumericExtent,
        ) {
            Some(i) => (s.update(i, AggregatorKind::ArgExtent), i),
            None => upsert(s, AggregatorKind::ArgExtent),
        },
        _ => upsert(s, kind_for(m)),
    }
}

/// The aggregators that a set of aggregations on the same expressions
/// share; each aggregation of one of the methods gets its handle there.
#[derive(Debug, Clone)]
pub struct CompositeAggregator {
    methods: Vec<AggregatorKind>,
}

fn kind_of_method(m: &AggregationMethod) -> (r: AggregatorKind)
    ensures
        r == kind_for(*m),
{
    match m {
        AggregationMethod::All | AggregationMethod::Any => AggregatorKind::AllAny,
        AggregationMethod::ApproxCardinality => AggregatorKind::ApproxCardinality,
        AggregationMethod::ApproxQuantile => AggregatorKind::ApproxQuantiles,
        AggregationMethod::Count | AggregationMethod::Ratio | AggregationMethod::Percentage =>
            AggregatorKind::Count,
        AggregationMethod::CovariancePop | AggregationMethod::CovarianceSample
        | AggregationMethod::Correlation => AggregatorKind::CovarianceWelford,
        AggregationMethod::Min | AggregationMethod::Max => AggregatorKind::NumericExtent,
        AggregationMethod::ArgMin | AggregationMethod::ArgMax => AggregatorKind::ArgExtent,
        AggregationMethod::ArgTop(k) | AggregationMethod::Top(k) => AggregatorKind::ArgTop(*k),
        AggregationMethod::First => AggregatorKind::First,
        AggregationMethod::Last => AggregatorKind::Last,
        AggregationMethod::LexFirst | AggregationMethod::LexLast =>
            AggregatorKind::LexicographicExtent,
        AggregationMethod::Earliest | AggregationMethod::Latest | AggregationMethod::CountTime(_) =>
            AggregatorKind::ZonedExtent,
        AggregationMethod::Median(_) | AggregationMethod::Quantile | AggregationMethod::Quartile(_)
        | AggregationMethod::Sparkline => AggregatorKind::Numbers,
        AggregationMethod::Mode | AggregationMethod::Modes | AggregationMethod::Cardinality
        | AggregationMethod::DistinctValues | AggregationMethod::MostCommonCounts(_)
        | AggregationMethod::MostCommonValues(_) => AggregatorKind::Frequencies,
        AggregationMethod::Sum => AggregatorKind::Sum,
        AggregationMethod::Mean | AggregationMethod::VarPop | AggregationMethod::VarSample
        | AggregationMethod::StddevPop | AggregationMethod::StddevSample =>
            AggregatorKind::Welford,
        AggregationMethod::Types | AggregationMethod::Type => AggregatorKind::Types,
        AggregationMethod::Values => AggregatorKind::Values,
    }
}

/// Where `k` first stands among `v`.
fn position(v: &Vec<AggregatorKind>, k: AggregatorKind) -> (r: Option<usize>)
    ensures
        r matches Some(j) ==> v@.index_of_first(k) == Some(j as int) && j < v@.len() && v@[j as int]
            == k,
        r is None ==> v@.index_of_first(k) is None && !v@.contains(k),
{
    proof {
        v@.index_of_first_ensures(k);
    }
    let mut i: usize = 0;
    while i < v.len()
        invariant
            i <= v@.len(),
            forall|j: int| 0 <= j < i ==> v@[j] != k,
        decreases v@.len() - i,
    {
        if v[i] == k {
            proof {
                v@.index_of_first_ensures(k);
                assert(v@.contains(k));
            }
            return Some(i);
        }
        i += 1;
    }
    proof {
        if v@.contains(k) {
            let j = choose|j: int| 0 <= j < v@.len() && v@[j] == k;
            assert(v@[j] == k);
        }
    }
    None
}

impl CompositeAggregator {
    /// The kinds of the aggregators, in order.
    pub closed spec fn kinds(&self) -> Seq<AggregatorKind> {
        self.methods@
    }

    /// No aggregator yet.
    pub fn new() -> (r: Self)
        ensures
            r.kinds() == Seq::<AggregatorKind>::empty(),
    {
        Self { methods: Vec::new() }
    }

    /// The kinds of the aggregators, in order.
    pub fn aggregator_kinds(&self) -> (r: Vec<AggregatorKind>)
        ensures
            r@ == self.kinds(),
    {
        self.methods.clone()
    }

    /// A fresh copy of the aggregators.
    pub fn duplicate(&self) -> (r: Self)
        ensures
            r.kinds() == self.kinds(),
    {
        Self { methods: self.methods.clone() }
    }

    fn upsert(&mut self, k: AggregatorKind) -> (r: usize)
        ensures
            (final(self).kinds(), r as int) == upsert(old(self).kinds(), k),
    {
        match position(&self.methods, k) {
            Some(idx) => idx,
            None => {
                let idx = self.methods.len();
                self.methods.push(k);
                idx
            },
        }
    }

    /// Adds what a method needs, reusing an aggregator that serves it when
    /// there is one, and gives back the handle of the aggregator that
    /// computes it.
    pub fn add_method(&mut self, method: &AggregationMethod) -> (r: usize)
        ensures
            (final(self).kinds(), r as int) == planned(old(self).kinds(), *method),
    {
        match method {
            AggregationMethod::Min | AggregationMethod::Max => {
                match position(&self.methods, AggregatorKind::ArgExtent) {
                    None => self.upsert(AggregatorKind::NumericExtent),
                    Some(idx) => idx,
                }
            },
            AggregationMethod::ArgMin | AggregationMethod::ArgMax => {
                match position(&self.methods, AggregatorKind::NumericExtent) {
                    None => self.upsert(AggregatorKind::ArgExtent),
                    Some(idx) => {
                        self.methods.set(idx, AggregatorKind::ArgExtent);
                        idx
                    },
                }
            },
            _ => self.upsert(kind_of_method(method)),
        }
    }
}


/// Whether a set of aggregators repeats none: no kind twice, and no plain
/// extent beside one that keeps arguments.
pub open spec fn composite_wf(s: Seq<AggregatorKind>) -> bool {
    &&& s.no_duplicates()
    &&& !(s.contains(AggregatorKind::NumericExtent) && s.contains(AggregatorKind::ArgExtent))
}

proof fn lemma_upsert(s: Seq<AggregatorKind>, k: AggregatorKind)
    ensures
        ({
            let (t, i) = upsert(s, k);
            &&& 0 <= i < t.len()
            &&& t[i] == k
            &&& t.len() >= s.len()
            &&& forall|j: int| 0 <= j < s.len() ==> t[j] == s[j]
            &&& (s.no_duplicates() ==> t.no_duplicates())
            &&& forall|x: AggregatorKind| t.contains(x) ==> (s.contains(x) || x == k)
        }),
{
    s.index_of_first_ensures(k);
    let (t, i) = upsert(s, k);
    if s.index_of_first(k) is None {
        assert forall|x: AggregatorKind| t.contains(x) implies (s.contains(x) || x == k) by {
            let j = choose|j: int| 0 <= j < t.len() && t[j] == x;
            if j < s.len() {
                assert(s[j] == x);
            }
        }
    }
}

/// Adding a method repeats no aggregator: the planner combines what the
/// methods need and never computes the same thing twice.
pub proof fn law_planner_never_repeats(s: Seq<AggregatorKind>, m: AggregationMethod)
    requires
        composite_wf(s),
    ensures
        composite_wf(planned(s, m).0),
{
    let arg = AggregatorKind::ArgExtent;
    let num = AggregatorKind::NumericExtent;
    s.index_of_first_ensures(arg);
    s.index_of_first_ensures(num);
    let t = planned(s, m).0;
    match m {
        AggregationMethod::Min | AggregationMethod::Max => {
            if s.index_of_first(arg) is None {
                lemma_upsert(s, num);
            }
        },
        AggregationMethod::ArgMin | AggregationMethod::ArgMax => {
            if s.index_of_first(num) is Some {
                let i = s.index_of_first(num)->0;
                assert(!s.contains(arg));
                assert forall|a: int, b: int|
                    0 <= a < t.len() && 0 <= b < t.len() && a != b implies t[a] != t[b] by {
                    if a == i {
                        assert(s[b] != arg);
                    } else if b == i {
                        assert(s[a] != arg);
                    } else {
                        assert(s[a] != s[b]);
                    }
                }
                assert(!t.contains(num)) by {
                    if t.contains(num) {
                        let j = choose|j: int| 0 <= j < t.len() && t[j] == num;
                        assert(j != i);
                        assert(s[j] == num && s[i] == num);
                    }
                }
            } else {
                lemma_upsert(s, arg);
            }
        },
        _ => {
            lemma_upsert(s, kind_for(m));
            assert(kind_for(m) != num && kind_for(m) != arg);
        },
    }
}

/// The handle that adding a method gives back points to an aggregator
/// that computes the method, and no aggregator is taken away.
pub proof fn law_handle_serves(s: Seq<AggregatorKind>, m: AggregationMethod)
    ensures
        ({
            let (t, i) = planned(s, m);
            &&& 0 <= i < t.len()
            &&& serves(t[i], m)
            &&& t.len() >= s.len()
        }),
{
    let arg = AggregatorKind::ArgExtent;
    let num = AggregatorKind::NumericExtent;
    s.index_of_first_ensures(arg);
    s.index_of_first_ensures(num);
    lemma_upsert(s, num);
    lemma_upsert(s, arg);
    lemma_upsert(s, kind_for(m));
}

/// The handles given out before stay good: an aggregator that computed a
/// method still computes it once another method is added.
pub proof fn law_handles_stay_valid(
    s: Seq<AggregatorKind>,
    m: AggregationMethod,
    j: int,
    earlier: AggregationMethod,
)
    requires
        0 <= j < s.len(),
        serves(s[j], earlier),
    ensures
        serves(planned(s, m).0[j], earlier),
{
    let arg = AggregatorKind::ArgExtent;
    let num = AggregatorKind::NumericExtent;
    s.index_of_first_ensures(arg);
    s.index_of_first_ensures(num);
    lemma_upsert(s, num);
    lemma_upsert(s, arg);
    lemma_upsert(s, kind_for(m));
}


/// An aggregation to plan: its name, its method, and the expressions it
/// reads, as a key that aggregations reading the same expressions share.
#[derive(Debug, Clone)]
pub struct ConcreteAggregation {
    pub agg_name: String,
    pub method: AggregationMethod,
    pub key: u64,
}

/// The aggregators that run on the values of one key.
#[derive(Debug, Clone)]
pub struct PlannerExecutionUnit {
    pub key: u64,
    pub aggregator_blueprint: CompositeAggregator,
}

/// Where the result of one aggregation is read: the execution unit of its
/// key, and the aggregator there that computes it.
#[derive(Debug, Clone)]
pub struct PlannerOutputUnit {
    pub expr_index: usize,
    pub aggregator_index: usize,
    pub agg_name: String,
    pub agg_method: AggregationMethod,
}

/// The plan of an aggregation program: one execution unit per key, and
/// one output unit per aggregation, in the order of the aggregations.
#[derive(Debug, Clone)]
pub struct ConcreteAggregationPlanner {
    pub execution_plan: Vec<PlannerExecutionUnit>,
    pub output_plan: Vec<PlannerOutputUnit>,
}

/// The keys, each once, in the order they first come in.
pub open spec fn distinct_keys(ks: Seq<u64>) -> Seq<u64>
    decreases ks.len(),
{
    if ks.len() == 0 {
        Seq::empty()
    } else {
        let d = distinct_keys(ks.drop_last());
        if d.contains(ks.last()) {
            d
        } else {
            d.push(ks.last())
        }
    }
}

/// The keys of the aggregations, in order.
pub open spec fn keys_of(aggs: Seq<ConcreteAggregation>) -> Seq<u64> {
    aggs.map_values(|a: ConcreteAggregation| a.key)
}

/// The aggregators that the methods of the aggregations of key `k` need,
/// added in order.
pub open spec fn blueprint(aggs: Seq<ConcreteAggregation>, k: u64) -> Seq<AggregatorKind>
    decreases aggs.len(),
{
    if aggs.len() == 0 {
        Seq::empty()
    } else {
        let b = blueprint(aggs.drop_last(), k);
        if aggs.last().key == k {
            planned(b, aggs.last().method).0
        } else {
            b
        }
    }
}

/// The keys of the execution units, in order.
pub open spec fn unit_keys(units: Seq<PlannerExecutionUnit>) -> Seq<u64> {
    units.map_values(|u: PlannerExecutionUnit| u.key)
}

proof fn lemma_contains_drop_last(ks: Seq<u64>, x: u64)
    requires
        ks.len() > 0,
    ensures
        ks.contains(x) <==> (ks.drop_last().contains(x) || x == ks.last()),
{
    let t = ks.drop_last();
    if ks.contains(x) && x != ks.last() {
        let j = choose|j: int| 0 <= j < ks.len() && ks[j] == x;
        assert(t[j] == x);
    }
    if t.contains(x) {
        let j = choose|j: int| 0 <= j < t.len() && t[j] == x;
        assert(ks[j] == x);
    }
    if x == ks.last() {
        assert(ks[ks.len() - 1] == x);
    }
}

proof fn lemma_distinct_keys(ks: Seq<u64>)
    ensures
        distinct_keys(ks).no_duplicates(),
        forall|x: u64| distinct_keys(ks).contains(x) <==> ks.contains(x),
    decreases ks.len(),
{
    if ks.len() > 0 {
        let t = ks.drop_last();
        let d = distinct_keys(t);
        let last = ks.last();
        lemma_distinct_keys(t);
        assert forall|x: u64| distinct_keys(ks).contains(x) <==> ks.contains(x) by {
            lemma_contains_drop_last(ks, x);
            if !d.contains(last) {
                lemma_contains_drop_last(d.push(last), x);
                assert(d.push(last).drop_last() == d);
            }
        }
        if !d.contains(last) {
            assert forall|a: int, b: int|
                0 <= a < d.push(last).len() && 0 <= b < d.push(last).len() && a != b implies d.push(
                last,
            )[a] != d.push(last)[b] by {
                if a == d.len() {
                    assert(d[b] != last);
                } else if b == d.len() {
                    assert(d[a] != last);
                }
            }
        }
    }
}

proof fn lemma_blueprint_absent(aggs: Seq<ConcreteAggregation>, k: u64)
    requires
        !keys_of(aggs).contains(k),
    ensures
        blueprint(aggs, k) == Seq::<AggregatorKind>::empty(),
    decreases aggs.len(),
{
    if aggs.len() > 0 {
        assert(keys_of(aggs)[aggs.len() - 1] == aggs.last().key);
        assert(!keys_of(aggs.drop_last()).contains(k)) by {
            if keys_of(aggs.drop_last()).contains(k) {
                let j = choose|j: int|
                    0 <= j < keys_of(aggs.drop_last()).len() && keys_of(aggs.drop_last())[j] == k;
                assert(keys_of(aggs)[j] == k);
            }
        }
        lemma_blueprint_absent(aggs.drop_last(), k);
    }
}

impl ConcreteAggregationPlanner {
    /// Plans the aggregations: the aggregations of one key share an
    /// execution unit, whose aggregators serve all their methods.
    pub fn from_aggregations(aggregations: Vec<ConcreteAggregation>) -> (r: Self)
        ensures
            unit_keys(r.execution_plan@) == distinct_keys(keys_of(aggregations@)),
            forall|j: int|
                0 <= j < r.execution_plan@.len() ==> (
                #[trigger] r.execution_plan@[j]).aggregator_blueprint.kinds() == blueprint(
                    aggregations@,
                    r.execution_plan@[j].key,
                ),
            r.output_plan@.len() == aggregations@.len(),
            forall|i: int|
                0 <= i < r.output_plan@.len() ==> {
                    let u = #[trigger] r.output_plan@[i];
                    let a = aggregations@[i];
                    &&& u.agg_name@ == a.agg_name@
                    &&& u.agg_method == a.method
                    &&& u.expr_index < r.execution_plan@.len()
                    &&& r.execution_plan@[u.expr_index as int].key == a.key
                    &&& u.aggregator_index == planned(
                        blueprint(aggregations@.take(i), a.key),
                        a.method,
                    ).1
                },
    {
        let ghost aggs = aggregations@;
        let mut execution_plan: Vec<PlannerExecutionUnit> = Vec::new();
        let mut output_plan: Vec<PlannerOutputUnit> = Vec::new();
        let mut t: usize = 0;
        while t < aggregations.len()
            invariant
                t <= aggs.len(),
                aggs == aggregations@,
                unit_keys(execution_plan@) == distinct_keys(keys_of(aggs.take(t as int))),
                forall|j: int|
                    0 <= j < execution_plan@.len() ==> (
                    #[trigger] execution_plan@[j]).aggregator_blueprint.kinds() == blueprint(
                        aggs.take(t as int),
                        execution_plan@[j].key,
                    ),
                output_plan@.len() == t,
                forall|i: int|
                    0 <= i < t ==> {
                        let u = #[trigger] output_plan@[i];
                        let a = aggs[i];
                        &&& u.agg_name@ == a.agg_name@
                        &&& u.agg_method == a.method
                        &&& u.expr_index < execution_plan@.len()
                        &&& execution_plan@[u.expr_index as int].key == a.key
                        &&& u.aggregator_index == planned(blueprint(aggs.take(i), a.key), a.method).1
                    },
            decreases aggs.len() - t,
        {
            let key = aggregations[t].key;
            let method = aggregations[t].method;
            let ghost before = aggs.take(t as int);
            let ghost after = aggs.take(t + 1);
            proof {
                assert(after.drop_last() == before);
                assert(keys_of(after).drop_last() == keys_of(before));
                lemma_distinct_keys(keys_of(before));
            }
            let mut found: Option<usize> = None;
            let mut j: usize = 0;
            while j < execution_plan.len() && found.is_none()
                invariant
                    j <= execution_plan@.len(),
                    found matches Some(f) ==> f < execution_plan@.len() && execution_plan@[f as int].key
                        == key,
                    found is None ==> forall|q: int| 0 <= q < j ==> execution_plan@[q].key != key,
                decreases execution_plan@.len() - j + (if found is None {
                    1int
                } else {
                    0int
                }),
            {
                if execution_plan[j].key == key {
                    found = Some(j);
                } else {
                    j += 1;
                }
            }
            let ghost old_plan = execution_plan@;
            let expr_index = match found {
                Some(f) => {
                    proof {
                        assert(unit_keys(old_plan)[f as int] == key);
                        assert(distinct_keys(keys_of(before)).contains(key));
                    }
                    f
                },
                None => {
                    proof {
                        assert(!unit_keys(old_plan).contains(key)) by {
                            if unit_keys(old_plan).contains(key) {
                                let q = choose|q: int|
                                    0 <= q < unit_keys(old_plan).len() && unit_keys(old_plan)[q]
                                        == key;
                                assert(old_plan[q].key == key);
                            }
                        }
                        lemma_blueprint_absent(before, key);
                    }
                    execution_plan.push(
                        PlannerExecutionUnit { key, aggregator_blueprint: CompositeAggregator::new() },
                    );
                    proof {
                        assert(unit_keys(execution_plan@) == unit_keys(old_plan).push(key));
                    }
                    execution_plan.len() - 1
                },
            };
            let ghost mid_plan = execution_plan@;
            let mut unit = execution_plan.remove(expr_index);
            let aggregator_index = unit.aggregator_blueprint.add_method(&method);
            execution_plan.insert(expr_index, unit);
            proof {
                assert(execution_plan@ == mid_plan.update(expr_index as int, unit));
                assert(unit_keys(execution_plan@) =~= unit_keys(mid_plan));
                assert(keys_of(after)[t as int] == key);
                assert forall|q: int| 0 <= q < execution_plan@.len() implies (
                #[trigger] execution_plan@[q]).aggregator_blueprint.kinds() == blueprint(
                    after,
                    execution_plan@[q].key,
                ) by {
                    if q != expr_index {
                        assert(execution_plan@[q] == mid_plan[q]);
                        if mid_plan[q].key == key {
                            lemma_distinct_keys(keys_of(before));
                            assert(unit_keys(mid_plan)[q] == key);
                            assert(unit_keys(mid_plan)[expr_index as int] == key);
                        }
                    }
                }
            }
            output_plan.push(
                PlannerOutputUnit {
                    expr_index,
                    aggregator_index,
                    agg_name: aggregations[t].agg_name.clone(),
                    agg_method: method,
                },
            );
            t += 1;
        }
        assert(aggs.take(t as int) == aggs);
        ConcreteAggregationPlanner { execution_plan, output_plan }
    }
}


/// However many aggregations are planned, the aggregators of one key
/// repeat none.
pub proof fn law_blueprints_never_repeat(aggs: Seq<ConcreteAggregation>, k: u64)
    ensures
        composite_wf(blueprint(aggs, k)),
    decreases aggs.len(),
{
    if aggs.len() > 0 {
        law_blueprints_never_repeat(aggs.drop_last(), k);
        if aggs.last().key == k {
            law_planner_never_repeats(blueprint(aggs.drop_last(), k), aggs.last().method);
        }
    }
}

proof fn lemma_blueprint_grows(aggs: Seq<ConcreteAggregation>, n: int, k: u64, j: int, m: AggregationMethod)
    requires
        0 <= n <= aggs.len(),
        0 <= j < blueprint(aggs.take(n), k).len(),
        serves(blueprint(aggs.take(n), k)[j], m),
    ensures
        j < blueprint(aggs, k).len(),
        serves(blueprint(aggs, k)[j], m),
    decreases aggs.len() - n,
{
    if n < aggs.len() {
        let b = blueprint(aggs.take(n), k);
        assert(aggs.take(n + 1).drop_last() == aggs.take(n));
        if aggs[n].key == k {
            law_handle_serves(b, aggs[n].method);
            law_handles_stay_valid(b, aggs[n].method, j, m);
        }
        lemma_blueprint_grows(aggs, n + 1, k, j, m);
    } else {
        assert(aggs.take(n) == aggs);
    }
}

/// Each aggregation reads its result from an aggregator, among those of
/// its key once all aggregations are planned, that computes its method.
pub proof fn law_outputs_are_served(aggs: Seq<ConcreteAggregation>, i: int)
    requires
        0 <= i < aggs.len(),
    ensures
        ({
            let a = aggs[i];
            let h = planned(blueprint(aggs.take(i), a.key), a.method).1;
            &&& 0 <= h < blueprint(aggs, a.key).len()
            &&& serves(blueprint(aggs, a.key)[h], a.method)
        }),
{
    let a = aggs[i];
    let b = blueprint(aggs.take(i), a.key);
    law_handle_serves(b, a.method);
    assert(aggs.take(i + 1).drop_last() == aggs.take(i));
    assert(aggs.take(i + 1).last() == a);
    lemma_blueprint_grows(aggs, i + 1, a.key, planned(b, a.method).1, a.method);
}


impl ConcreteAggregationPlanner {
    /// One fresh set of aggregators per execution unit, for a group of
    /// rows to aggregate.
    pub fn instantiate_aggregators(&self) -> (r: Vec<CompositeAggregator>)
        ensures
            r@.len() == self.execution_plan@.len(),
            forall|j: int|
                0 <= j < r@.len() ==> (#[trigger] r@[j]).kinds()
                    == self.execution_plan@[j].aggregator_blueprint.kinds(),
    {
        let mut r: Vec<CompositeAggregator> = Vec::new();
        let mut j: usize = 0;
        while j < self.execution_plan.len()
            invariant
                j <= self.execution_plan@.len(),
                r@.len() == j,
                forall|q: int|
                    0 <= q < j ==> (#[trigger] r@[q]).kinds()
                        == self.execution_plan@[q].aggregator_blueprint.kinds(),
            decreases self.execution_plan@.len() - j,
        {
            r.push(self.execution_plan[j].aggregator_blueprint.duplicate());
            j += 1;
        }
        r
    }

    /// The names of the aggregations, in order: the header of the output.
    pub fn headers(&self) -> (r: Vec<String>)
        ensures
            r@.len() == self.output_plan@.len(),
            forall|i: int| 0 <= i < r@.len() ==> (#[trigger] r@[i])@ == self.output_plan@[i].agg_name@,
    {
        let mut r: Vec<String> = Vec::new();
        let mut i: usize = 0;
        while i < self.output_plan.len()
            invariant
                i <= self.output_plan@.len(),
                r@.len() == i,
                forall|q: int| 0 <= q < i ==> (#[trigger] r@[q])@ == self.output_plan@[q].agg_name@,
            decreases self.output_plan@.len() - i,
        {
            r.push(self.output_plan[i].agg_name.clone());
            i += 1;
        }
        r
    }
}

} // verus!
