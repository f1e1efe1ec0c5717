//! Aggregation programs: the functions an aggregation may compute, the
//! arguments each takes, and the checks a program passes before it runs.
use vstd::prelude::*;
use vstd::std_specs::range::RangeInclusiveView;

use crate::arguments::{count_required, new_range, Argument, Arity, FunctionArguments};
use crate::error::{ConcretizationError, InvalidArity};
use crate::functions::{kind_of, positionals, ranged, sig, signature_of, ArgKind};
use crate::parser::Aggregation;
use crate::expr::{expr_view, lemma_list_view_map, list_view, Expr, ExprV};
use crate::planner::{AggregationMethod, CountUnit, MedianType};
use crate::text::str_eq;

verus! {

/// The aggregation functions that take the aggregated value alone.
pub open spec fn is_unary_aggregation(name: Seq<char>) -> bool {
    name == "all"@ || name == "any"@ || name == "approx_cardinality"@ || name == "cardinality"@
        || name == "correlation"@ || name == "count"@ || name == "count_seconds"@ || name
        == "count_hours"@ || name == "count_days"@ || name == "count_years"@ || name
        == "covariance"@ || name == "covariance_pop"@ || name == "covariance_sample"@ || name
        == "earliest"@ || name == "first"@ || name == "latest"@ || name == "last"@ || name
        == "lex_first"@ || name == "lex_last"@ || name == "min"@ || name == "max"@ || name
        == "avg"@ || name == "mean"@ || name == "median"@ || name == "median_high"@ || name
        == "median_low"@ || name == "mode"@ || name == "percentage"@ || name == "q1"@ || name
        == "q2"@ || name == "q3"@ || name == "var"@ || name == "var_pop"@ || name
        == "var_sample"@ || name == "ratio"@ || name == "stddev"@ || name == "stddev_pop"@
        || name == "stddev_sample"@ || name == "sum"@ || name == "type"@ || name == "types"@
}

/// How many arguments, the aggregated value included, each aggregation
/// function takes, at least and at most.
pub open spec fn aggregation_bounds(name: Seq<char>) -> Option<(nat, nat)> {
    if is_unary_aggregation(name) {
        Some((1, 1))
    } else if name == "approx_quantile"@ || name == "quantile"@ {
        Some((2, 2))
    } else if name == "argmin"@ || name == "argmax"@ || name == "distinct_values"@ || name
        == "modes"@ || name == "values"@ || name == "sparkline"@ {
        Some((1, 2))
    } else if name == "most_common"@ || name == "most_common_counts"@ || name == "top"@ {
        Some((1, 3))
    } else if name == "argtop"@ {
        Some((1, 4))
    } else {
        None
    }
}

/// The formal arguments of each aggregation function, by name: as many
/// positional arguments as it needs, then optional ones.
pub open spec fn aggregation_signature(name: Seq<char>) -> Option<(bool, Seq<ArgKind>)> {
    match aggregation_bounds(name) {
        None => None,
        Some((lo, hi)) => if lo == hi {
            Some(sig(false, positionals(lo)))
        } else {
            Some(sig(false, ranged(lo, hi)))
        },
    }
}

fn unary_aggregation(name: &str) -> (r: bool)
    ensures
        r == is_unary_aggregation(name@),
{
    str_eq(name, "all") || str_eq(name, "any") || str_eq(name, "approx_cardinality") || str_eq(
        name,
        "cardinality",
    ) || str_eq(name, "correlation") || str_eq(name, "count") || str_eq(name, "count_seconds")
        || str_eq(name, "count_hours") || str_eq(name, "count_days") || str_eq(name, "count_years")
        || str_eq(name, "covariance") || str_eq(name, "covariance_pop") || str_eq(
        name,
        "covariance_sample",
    ) || str_eq(name, "earliest") || str_eq(name, "first") || str_eq(name, "latest") || str_eq(
        name,
        "last",
    ) || str_eq(name, "lex_first") || str_eq(name, "lex_last") || str_eq(name, "min") || str_eq(
        name,
        "max",
    ) || str_eq(name, "avg") || str_eq(name, "mean") || str_eq(name, "median") || str_eq(
        name,
        "median_high",
    ) || str_eq(name, "median_low") || str_eq(name, "mode") || str_eq(name, "percentage")
        || str_eq(name, "q1") || str_eq(name, "q2") || str_eq(name, "q3") || str_eq(name, "var")
        || str_eq(name, "var_pop") || str_eq(name, "var_sample") || str_eq(name, "ratio") || str_eq(
        name,
        "stddev",
    ) || str_eq(name, "stddev_pop") || str_eq(name, "stddev_sample") || str_eq(name, "sum")
        || str_eq(name, "type") || str_eq(name, "types")
}

/// The formal arguments of the aggregation function named `name`, or
/// `None` when there is no such function.
pub fn get_function_arguments_parser(name: &str) -> (r: Option<FunctionArguments>)
    ensures
        match aggregation_signature(name@) {
            None => r is None,
            Some(s) => (r matches Some(f) && signature_of(f) == s),
        },
{
    if unary_aggregation(name) {
        return Some(FunctionArguments::unary());
    }
    if str_eq(name, "approx_quantile") || str_eq(name, "quantile") {
        return Some(FunctionArguments::binary());
    }
    if str_eq(name, "argmin") || str_eq(name, "argmax") || str_eq(name, "distinct_values")
        || str_eq(name, "modes") || str_eq(name, "values") || str_eq(name, "sparkline") {
        return Some(FunctionArguments::with_range(new_range(1, 2)));
    }
    if str_eq(name, "most_common") || str_eq(name, "most_common_counts") || str_eq(name, "top") {
        return Some(FunctionArguments::with_range(new_range(1, 3)));
    }
    if str_eq(name, "argtop") {
        return Some(FunctionArguments::with_range(new_range(1, 4)));
    }
    None
}

pub(crate) proof fn lemma_required_of_kinds(f: FunctionArguments, lo: nat, hi: nat)
    requires
        lo <= hi,
        signature_of(f) == sig(false, ranged(lo, hi)) || (lo == hi && signature_of(f) == sig(
            false,
            positionals(lo),
        )),
    ensures
        count_required(f.formal()) == lo,
        f.formal().len() == hi,
{
    let s = f.formal();
    assert(signature_of(f).1.len() == s.len());
    assert(s.len() == hi);
    assert forall|i: int| 0 <= i < s.len() implies (#[trigger] s[i]).spec_is_optional() == (i
        >= lo) by {
        assert(signature_of(f).1[i] == kind_of(s[i]));
    }
    lemma_count_required_prefix(s, lo);
}

proof fn lemma_count_required_prefix(s: Seq<Argument>, lo: nat)
    requires
        lo <= s.len(),
        forall|i: int| 0 <= i < s.len() ==> (#[trigger] s[i]).spec_is_optional() == (i >= lo),
    ensures
        count_required(s) == lo,
    decreases s.len(),
{
    if s.len() > 0 {
        let t = s.drop_last();
        if lo < s.len() {
            assert forall|i: int| 0 <= i < t.len() implies (#[trigger] t[i]).spec_is_optional() == (
            i >= lo) by {
                assert(t[i] == s[i]);
            }
            lemma_count_required_prefix(t, lo);
        } else {
            lemma_all_required(t);
        }
    }
}

proof fn lemma_all_required(s: Seq<Argument>)
    requires
        forall|i: int| 0 <= i < s.len() ==> !(#[trigger] s[i]).spec_is_optional(),
    ensures
        count_required(s) == s.len(),
    decreases s.len(),
{
    if s.len() > 0 {
        let t = s.drop_last();
        assert forall|i: int| 0 <= i < t.len() implies !(#[trigger] t[i]).spec_is_optional() by {
            assert(t[i] == s[i]);
        }
        lemma_all_required(t);
    }
}

/// Checks a call of the aggregation function `name` with `n_args`
/// arguments besides the aggregated value: an unknown name, and a number
/// of arguments that the function does not take, are errors.
pub fn validate_aggregation_method(name: &str, n_args: usize) -> (r: Result<
    FunctionArguments,
    ConcretizationError,
>)
    requires
        n_args < usize::MAX,
    ensures
        aggregation_bounds(name@) is None ==> (r matches Err(ConcretizationError::UnknownFunction(
            n,
        )) && n@ == name@),
        aggregation_bounds(name@) matches Some((lo, hi)) ==> {
            &&& (r is Ok <==> lo <= n_args + 1 <= hi)
            &&& r matches Ok(f) ==> Some(signature_of(f)) == aggregation_signature(name@)
            &&& r matches Err(e) ==> (e matches ConcretizationError::InvalidArity(n, ia) && n@
                == name@ && ia.got == n_args + 1)
        },
{
    match get_function_arguments_parser(name) {
        None => Err(ConcretizationError::UnknownFunction(name.to_owned())),
        Some(function_arguments) => {
            proof {
                let (lo, hi) = aggregation_bounds(name@)->0;
                lemma_required_of_kinds(function_arguments, lo, hi);
            }
            match function_arguments.validate_arity(n_args + 1) {
                Ok(()) => Ok(function_arguments),
                Err(invalid_arity) => Err(
                    ConcretizationError::InvalidArity(name.to_owned(), invalid_arity),
                ),
            }
        },
    }
}

/// How many arguments, beside the aggregated value, an aggregation of the
/// older form accepts, at least and at most.
pub open spec fn legacy_arity_range(name: Seq<char>) -> (nat, nat) {
    if name == "count"@ {
        (0, 1)
    } else if name == "quantile"@ {
        (2, 2)
    } else if name == "values"@ || name == "distinct_values"@ || name == "argmin"@ || name
        == "argmax"@ || name == "modes"@ {
        (1, 2)
    } else if name == "most_common"@ || name == "most_common_counts"@ || name == "top"@ {
        (1, 3)
    } else if name == "argtop"@ {
        (1, 4)
    } else {
        (1, 1)
    }
}

/// Checks that an aggregation has as many arguments as its function takes;
/// otherwise the error reports the range of them it takes.
pub fn validate_aggregation_function_arity(aggregation: &Aggregation) -> (r: Result<
    (),
    ConcretizationError,
>)
    ensures
        ({
            let (lo, hi) = legacy_arity_range(aggregation.func_name@);
            &&& (r is Ok <==> lo <= aggregation.args@.len() <= hi)
            &&& r matches Err(e) ==> (e matches ConcretizationError::InvalidArity(n, ia) && n@
                == aggregation.func_name@ && ia.got == aggregation.args@.len() && (
            ia.expected matches Arity::Range(rg) && rg@ == (RangeInclusiveView {
                start: lo as usize,
                end: hi as usize,
                exhausted: false,
            })))
        }),
{
    let arity = aggregation.args.len();
    let name = aggregation.func_name.as_str();
    let (lo, hi): (usize, usize) = if str_eq(name, "count") {
        (0, 1)
    } else if str_eq(name, "quantile") {
        (2, 2)
    } else if str_eq(name, "values") || str_eq(name, "distinct_values") || str_eq(name, "argmin")
        || str_eq(name, "argmax") || str_eq(name, "modes") {
        (1, 2)
    } else if str_eq(name, "most_common") || str_eq(name, "most_common_counts") || str_eq(
        name,
        "top",
    ) {
        (1, 3)
    } else if str_eq(name, "argtop") {
        (1, 4)
    } else {
        (1, 1)
    };
    if !(lo <= arity && arity <= hi) {
        return Err(
            ConcretizationError::InvalidArity(
                aggregation.func_name.clone(),
                InvalidArity::from_arity(Arity::Range(new_range(lo, hi)), arity),
            ),
        );
    }
    Ok(())
}


/// An argument of an aggregation, once concretized, as far as reading the
/// method goes: whether it is a value known before any row is read, and if
/// so, how it reads as a `usize`, whether it reads as a number, and how it
/// reads as a string.
#[derive(Debug, Clone, PartialEq)]
pub struct StaticArgument {
    pub is_value: bool,
    pub as_usize: Option<usize>,
    pub as_number: bool,
    pub as_str: Option<String>,
}

/// A method read out of its arguments: the method, the separator it joins
/// values with, and how many values or bars it keeps.
#[derive(Debug, Clone, PartialEq)]
pub struct ParsedMethod {
    pub method: AggregationMethod,
    pub separator: Option<String>,
    pub size: Option<usize>,
}

/// The aggregation functions whose first argument, after the aggregated
/// value, is how many values they keep, and which the parser moves to the
/// front of their arguments.
pub open spec fn takes_size_first(name: Seq<char>) -> bool {
    name == "most_common"@ || name == "most_common_counts"@ || name == "top"@ || name
        == "argtop"@
}

/// An argument read as a `usize`, `None` where it cannot be statically.
pub open spec fn static_usize(a: StaticArgument) -> Option<usize> {
    if a.is_value {
        a.as_usize
    } else {
        None
    }
}

/// The separator an optional argument gives: `|` when there is none,
/// `None` where it cannot be read statically as a string.
pub open spec fn static_separator(a: Option<StaticArgument>) -> Option<Seq<char>> {
    match a {
        None => Some("|"@),
        Some(arg) => if arg.is_value {
            match arg.as_str {
                Some(s) => Some(s@),
                None => None,
            }
        } else {
            None
        },
    }
}

pub open spec fn arg_at(args: Seq<StaticArgument>, i: int) -> Option<StaticArgument> {
    if 0 <= i < args.len() {
        Some(args[i])
    } else {
        None
    }
}

/// The method an aggregation function stands for, out of its arguments
/// besides the aggregated value: `None` where an argument that must be
/// known before reading rows is not.
pub open spec fn method_of(name: Seq<char>, args: Seq<StaticArgument>) -> Option<
    (AggregationMethod, Option<Seq<char>>, Option<usize>),
> {
    if name == "approx_quantile"@ || name == "quantile"@ {
        if args.len() > 0 && args[0].is_value && args[0].as_number {
            Some(
                (if name == "quantile"@ {
                    AggregationMethod::Quantile
                } else {
                    AggregationMethod::ApproxQuantile
                }, None, None),
            )
        } else {
            None
        }
    } else if name == "argtop"@ || name == "top"@ || name == "most_common"@ || name
        == "most_common_counts"@ {
        let sep_index = if name == "argtop"@ {
            2int
        } else {
            1int
        };
        match (
            if args.len() > 0 {
                static_usize(args[0])
            } else {
                None
            },
            static_separator(arg_at(args, sep_index)),
        ) {
            (Some(k), Some(sep)) => Some(
                (if name == "argtop"@ {
                    AggregationMethod::ArgTop(k)
                } else if name == "top"@ {
                    AggregationMethod::Top(k)
                } else if name == "most_common"@ {
                    AggregationMethod::MostCommonValues(k)
                } else {
                    AggregationMethod::MostCommonCounts(k)
                }, Some(sep), Some(k)),
            ),
            _ => None,
        }
    } else if name == "distinct_values"@ || name == "modes"@ || name == "values"@ {
        match static_separator(arg_at(args, 0)) {
            Some(sep) => Some(
                (if name == "distinct_values"@ {
                    AggregationMethod::DistinctValues
                } else if name == "modes"@ {
                    AggregationMethod::Modes
                } else {
                    AggregationMethod::Values
                }, Some(sep), None),
            ),
            None => None,
        }
    } else if name == "sparkline"@ {
        if args.len() == 0 {
            Some((AggregationMethod::Sparkline, None, Some(10usize)))
        } else {
            match static_usize(args[0]) {
                Some(k) => Some((AggregationMethod::Sparkline, None, Some(k))),
                None => None,
            }
        }
    } else {
        Some((plain_method(name), None, None))
    }
}

/// The method of the aggregation functions that take no argument besides
/// the aggregated value, or whose other arguments it does not read.
pub open spec fn plain_method(name: Seq<char>) -> AggregationMethod {
    if name == "all"@ {
        AggregationMethod::All
    } else if name == "any"@ {
        AggregationMethod::Any
    } else if name == "approx_cardinality"@ {
        AggregationMethod::ApproxCardinality
    } else if name == "argmin"@ {
        AggregationMethod::ArgMin
    } else if name == "argmax"@ {
        AggregationMethod::ArgMax
    } else if name == "cardinality"@ {
        AggregationMethod::Cardinality
    } else if name == "correlation"@ {
        AggregationMethod::Correlation
    } else if name == "count"@ {
        AggregationMethod::Count
    } else if name == "count_seconds"@ {
        AggregationMethod::CountTime(CountUnit::Second)
    } else if name == "count_hours"@ {
        AggregationMethod::CountTime(CountUnit::Hour)
    } else if name == "count_days"@ {
        AggregationMethod::CountTime(CountUnit::Day)
    } else if name == "count_years"@ {
        AggregationMethod::CountTime(CountUnit::Year)
    } else if name == "covariance"@ || name == "covariance_pop"@ {
        AggregationMethod::CovariancePop
    } else if name == "covariance_sample"@ {
        AggregationMethod::CovarianceSample
    } else if name == "earliest"@ {
        AggregationMethod::Earliest
    } else if name == "first"@ {
        AggregationMethod::First
    } else if name == "latest"@ {
        AggregationMethod::Latest
    } else if name == "last"@ {
        AggregationMethod::Last
    } else if name == "lex_first"@ {
        AggregationMethod::LexFirst
    } else if name == "lex_last"@ {
        AggregationMethod::LexLast
    } else if name == "min"@ {
        AggregationMethod::Min
    } else if name == "max"@ {
        AggregationMethod::Max
    } else if name == "avg"@ || name == "mean"@ {
        AggregationMethod::Mean
    } else if name == "median"@ {
        AggregationMethod::Median(MedianType::Interpolation)
    } else if name == "median_high"@ {
        AggregationMethod::Median(MedianType::High)
    } else if name == "median_low"@ {
        AggregationMethod::Median(MedianType::Low)
    } else if name == "mode"@ {
        AggregationMethod::Mode
    } else if name == "percentage"@ {
        AggregationMethod::Percentage
    } else if name == "q1"@ {
        AggregationMethod::Quartile(0)
    } else if name == "q2"@ {
        AggregationMethod::Quartile(1)
    } else if name == "q3"@ {
        AggregationMethod::Quartile(2)
    } else if name == "var"@ || name == "var_pop"@ {
        AggregationMethod::VarPop
    } else if name == "var_sample"@ {
        AggregationMethod::VarSample
    } else if name == "ratio"@ {
        AggregationMethod::Ratio
    } else if name == "stddev"@ || name == "stddev_pop"@ {
        AggregationMethod::StddevPop
    } else if name == "stddev_sample"@ {
        AggregationMethod::StddevSample
    } else if name == "sum"@ {
        AggregationMethod::Sum
    } else if name == "type"@ {
        AggregationMethod::Type
    } else {
        AggregationMethod::Types
    }
}

fn plain_method_of(name: &str) -> (r: AggregationMethod)
    ensures
        r == plain_method(name@),
{
    if str_eq(name, "all") {
        AggregationMethod::All
    } else if str_eq(name, "any") {
        AggregationMethod::Any
    } else if str_eq(name, "approx_cardinality") {
        AggregationMethod::ApproxCardinality
    } else if str_eq(name, "argmin") {
        AggregationMethod::ArgMin
    } else if str_eq(name, "argmax") {
        AggregationMethod::ArgMax
    } else if str_eq(name, "cardinality") {
        AggregationMethod::Cardinality
    } else if str_eq(name, "correlation") {
        AggregationMethod::Correlation
    } else if str_eq(name, "count") {
        AggregationMethod::Count
    } else if str_eq(name, "count_seconds") {
        AggregationMethod::CountTime(CountUnit::Second)
    } else if str_eq(name, "count_hours") {
        AggregationMethod::CountTime(CountUnit::Hour)
    } else if str_eq(name, "count_days") {
        AggregationMethod::CountTime(CountUnit::Day)
    } else if str_eq(name, "count_years") {
        AggregationMethod::CountTime(CountUnit::Year)
    } else if str_eq(name, "covariance") || str_eq(name, "covariance_pop") {
        AggregationMethod::CovariancePop
    } else if str_eq(name, "covariance_sample") {
        AggregationMethod::CovarianceSample
    } else if str_eq(name, "earliest") {
        AggregationMethod::Earliest
    } else if str_eq(name, "first") {
        AggregationMethod::First
    } else if str_eq(name, "latest") {
        AggregationMethod::Latest
    } else if str_eq(name, "last") {
        AggregationMethod::Last
    } else if str_eq(name, "lex_first") {
        AggregationMethod::LexFirst
    } else if str_eq(name, "lex_last") {
        AggregationMethod::LexLast
    } else if str_eq(name, "min") {
        AggregationMethod::Min
    } else if str_eq(name, "max") {
        AggregationMethod::Max
    } else if str_eq(name, "avg") || str_eq(name, "mean") {
        AggregationMethod::Mean
    } else if str_eq(name, "median") {
        AggregationMethod::Median(MedianType::Interpolation)
    } else if str_eq(name, "median_high") {
        AggregationMethod::Median(MedianType::High)
    } else if str_eq(name, "median_low") {
        AggregationMethod::Median(MedianType::Low)
    } else if str_eq(name, "mode") {
        AggregationMethod::Mode
    } else if str_eq(name, "percentage") {
        AggregationMethod::Percentage
    } else if str_eq(name, "q1") {
        AggregationMethod::Quartile(0)
    } else if str_eq(name, "q2") {
        AggregationMethod::Quartile(1)
    } else if str_eq(name, "q3") {
        AggregationMethod::Quartile(2)
    } else if str_eq(name, "var") || str_eq(name, "var_pop") {
        AggregationMethod::VarPop
    } else if str_eq(name, "var_sample") {
        AggregationMethod::VarSample
    } else if str_eq(name, "ratio") {
        AggregationMethod::Ratio
    } else if str_eq(name, "stddev") || str_eq(name, "stddev_pop") {
        AggregationMethod::StddevPop
    } else if str_eq(name, "stddev_sample") {
        AggregationMethod::StddevSample
    } else if str_eq(name, "sum") {
        AggregationMethod::Sum
    } else if str_eq(name, "type") {
        AggregationMethod::Type
    } else {
        AggregationMethod::Types
    }
}

fn separator_of(args: &Vec<StaticArgument>, i: usize) -> (r: Option<String>)
    ensures
        match static_separator(arg_at(args@, i as int)) {
            Some(s) => r matches Some(t) && t@ == s,
            None => r is None,
        },
{
    if i >= args.len() {
        return Some("|".to_owned());
    }
    if !args[i].is_value {
        return None;
    }
    match &args[i].as_str {
        Some(s) => Some(s.clone()),
        None => None,
    }
}

fn usize_of(args: &Vec<StaticArgument>, i: usize) -> (r: Option<usize>)
    requires
        i < args@.len(),
    ensures
        r == static_usize(args@[i as int]),
{
    if args[i].is_value {
        args[i].as_usize
    } else {
        None
    }
}

/// Reads the method of an aggregation function named `name` out of its
/// arguments besides the aggregated value: an unknown name, a number of
/// arguments the function does not take, and an argument that must be
/// known before reading rows but is not, are errors.
pub fn parse_aggregation_method(name: &str, args: &Vec<StaticArgument>) -> (r: Result<
    ParsedMethod,
    ConcretizationError,
>)
    requires
        args@.len() < usize::MAX,
        takes_size_first(name@) ==> args@.len() > 0,
    ensures
        aggregation_bounds(name@) is None ==> (r matches Err(ConcretizationError::UnknownFunction(
            n,
        )) && n@ == name@),
        aggregation_bounds(name@) matches Some((lo, hi)) ==> {
            &&& !(lo <= args@.len() + 1 <= hi) ==> (r matches Err(
                ConcretizationError::InvalidArity(n, ia),
            ) && n@ == name@ && ia.got == args@.len() + 1)
            &&& lo <= args@.len() + 1 <= hi ==> match method_of(name@, args@) {
                None => r matches Err(ConcretizationError::NotStaticallyAnalyzable),
                Some((m, sep, size)) => r matches Ok(p) && p.method == m && p.size == size && match (
                    p.separator,
                    sep,
                ) {
                    (Some(a), Some(b)) => a@ == b,
                    (None, None) => true,
                    _ => false,
                },
            }
        },
{
    match validate_aggregation_method(name, args.len()) {
        Err(e) => {
            return Err(e);
        },
        Ok(_) => {},
    }
    if str_eq(name, "approx_quantile") || str_eq(name, "quantile") {
        if args.len() > 0 && args[0].is_value && args[0].as_number {
            let method = if str_eq(name, "quantile") {
                AggregationMethod::Quantile
            } else {
                AggregationMethod::ApproxQuantile
            };
            return Ok(ParsedMethod { method, separator: None, size: None });
        }
        return Err(ConcretizationError::NotStaticallyAnalyzable);
    }
    if str_eq(name, "argtop") || str_eq(name, "top") || str_eq(name, "most_common") || str_eq(
        name,
        "most_common_counts",
    ) {
        let sep_index: usize = if str_eq(name, "argtop") {
            2
        } else {
            1
        };
        let k = if args.len() > 0 {
            usize_of(args, 0)
        } else {
            None
        };
        let sep = separator_of(args, sep_index);
        match (k, sep) {
            (Some(k), Some(sep)) => {
                let method = if str_eq(name, "argtop") {
                    AggregationMethod::ArgTop(k)
                } else if str_eq(name, "top") {
                    AggregationMethod::Top(k)
                } else if str_eq(name, "most_common") {
                    AggregationMethod::MostCommonValues(k)
                } else {
                    AggregationMethod::MostCommonCounts(k)
                };
                return Ok(ParsedMethod { method, separator: Some(sep), size: Some(k) });
            },
            _ => {
                return Err(ConcretizationError::NotStaticallyAnalyzable);
            },
        }
    }
    if str_eq(name, "distinct_values") || str_eq(name, "modes") || str_eq(name, "values") {
        match separator_of(args, 0) {
            Some(sep) => {
                let method = if str_eq(name, "distinct_values") {
                    AggregationMethod::DistinctValues
                } else if str_eq(name, "modes") {
                    AggregationMethod::Modes
                } else {
                    AggregationMethod::Values
                };
                return Ok(ParsedMethod { method, separator: Some(sep), size: None });
            },
            None => {
                return Err(ConcretizationError::NotStaticallyAnalyzable);
            },
        }
    }
    if str_eq(name, "sparkline") {
        if args.len() == 0 {
            return Ok(
                ParsedMethod { method: AggregationMethod::Sparkline, separator: None, size: Some(10) },
            );
        }
        return match usize_of(args, 0) {
            Some(k) => Ok(
                ParsedMethod { method: AggregationMethod::Sparkline, separator: None, size: Some(k) },
            ),
            None => Err(ConcretizationError::NotStaticallyAnalyzable),
        };
    }
    Ok(ParsedMethod { method: plain_method_of(name), separator: None, size: None })
}


/// The aggregation functions that read a pair of series.
pub open spec fn reads_pairs(name: Seq<char>) -> bool {
    name == "covariance"@ || name == "covariance_pop"@ || name == "covariance_sample"@ || name
        == "correlation"@
}

/// The arguments of an aggregation, reordered so that the aggregated
/// expression comes first (the functions that keep a number of values take
/// it first).
pub open spec fn reordered_args(name: Seq<char>, args: Seq<ExprV>) -> Seq<ExprV> {
    if takes_size_first(name) {
        args.update(0, args[1]).update(1, args[0])
    } else {
        args
    }
}

/// The expressions an aggregation reads, and the arguments of its method:
/// the first argument, once reordered; the second one too for functions of
/// pairs that have one; then the rest.
pub open spec fn split_arguments(name: Seq<char>, args: Seq<ExprV>) -> (
    Option<ExprV>,
    Option<ExprV>,
    Seq<ExprV>,
) {
    let a = reordered_args(name, args);
    let pair = a.len() > 1 && reads_pairs(name);
    (
        if a.len() > 0 {
            Some(a[0])
        } else {
            None
        },
        if pair {
            Some(a[1])
        } else {
            None
        },
        if pair {
            a.skip(2)
        } else if a.len() > 0 {
            a.skip(1)
        } else {
            a
        },
    )
}

/// Splits the arguments of an aggregation into the expression it
/// aggregates, the second one of a pair, and the arguments of its method.
pub fn split_aggregation_arguments(aggregation: Aggregation) -> (r: (
    Option<Expr>,
    Option<Expr>,
    Vec<Expr>,
))
    requires
        takes_size_first(aggregation.func_name@) ==> aggregation.args@.len() >= 2,
    ensures
        ({
            let (e, p, rest) = split_arguments(
                aggregation.func_name@,
                list_view(aggregation.args@),
            );
            &&& r.0 matches Some(x) ==> e == Some(expr_view(x))
            &&& r.0 is None ==> e is None
            &&& r.1 matches Some(x) ==> p == Some(expr_view(x))
            &&& r.1 is None ==> p is None
            &&& list_view(r.2@) == rest
        }),
{
    let Aggregation { agg_name: _, args, func_name } = aggregation;
    let name = func_name.as_str();
    let ghost orig = args@;
    let ghost f = |e: Expr| expr_view(e);
    proof {
        lemma_list_view_map(orig);
    }
    let mut rest = args;
    if str_eq(name, "most_common") || str_eq(name, "most_common_counts") || str_eq(name, "top")
        || str_eq(name, "argtop") {
        let first = rest.remove(0);
        rest.insert(1, first);
        proof {
            assert(rest@ =~= orig.update(0, orig[1]).update(1, orig[0]));
        }
    }
    let ghost a = rest@;
    proof {
        lemma_list_view_map(a);
        assert(a.map_values(f) =~= reordered_args(func_name@, orig.map_values(f)));
    }
    let expr = if rest.len() > 0 {
        Some(rest.remove(0))
    } else {
        None
    };
    let pair = if rest.len() > 0 && (str_eq(name, "covariance") || str_eq(name, "covariance_pop")
        || str_eq(name, "covariance_sample") || str_eq(name, "correlation")) {
        Some(rest.remove(0))
    } else {
        None
    };
    proof {
        let skip: int = if pair is Some {
            2
        } else if a.len() > 0 {
            1
        } else {
            0
        };
        assert(rest@ =~= a.skip(skip));
        lemma_list_view_map(rest@);
        assert(rest@.map_values(f) =~= a.map_values(f).skip(skip));
    }
    (expr, pair, rest)
}

} // verus!
