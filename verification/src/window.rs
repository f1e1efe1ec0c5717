//! Window aggregations: their functions and the arguments these take.
use vstd::prelude::*;

use crate::agg_program::lemma_required_of_kinds;
use crate::arguments::{new_range, FunctionArguments};
use crate::error::ConcretizationError;
use crate::functions::{positionals, ranged, sig, signature_of, ArgKind};
use crate::text::str_eq;

verus! {

/// The formal arguments of each window function, by name.
pub open spec fn window_signature(name: Seq<char>) -> Option<(bool, Seq<ArgKind>)> {
    if name == "row_number"@ || name == "row_index"@ {
        Some(sig(false, seq![]))
    } else if name == "lag"@ || name == "lead"@ {
        Some(sig(false, ranged(1, 2)))
    } else if name == "cumsum"@ || name == "cummin"@ || name == "cummax"@ {
        Some(sig(false, positionals(1)))
    } else if name == "rolling_sum"@ || name == "rolling_mean"@ || name == "rolling_avg"@ || name
        == "rolling_var"@ || name == "rolling_stddev"@ {
        Some(sig(false, positionals(2)))
    } else {
        None
    }
}

/// How many arguments each window function takes, at least and at most.
pub open spec fn window_bounds(name: Seq<char>) -> Option<(nat, nat)> {
    if name == "row_number"@ || name == "row_index"@ {
        Some((0, 0))
    } else if name == "lag"@ || name == "lead"@ {
        Some((1, 2))
    } else if name == "cumsum"@ || name == "cummin"@ || name == "cummax"@ {
        Some((1, 1))
    } else if name == "rolling_sum"@ || name == "rolling_mean"@ || name == "rolling_avg"@ || name
        == "rolling_var"@ || name == "rolling_stddev"@ {
        Some((2, 2))
    } else {
        None
    }
}

/// The formal arguments of the window function named `name`, or `None`
/// when there is no such function.
pub fn get_function(name: &str) -> (r: Option<FunctionArguments>)
    ensures
        match window_signature(name@) {
            None => r is None,
            Some(s) => (r matches Some(f) && signature_of(f) == s),
        },
{
    if str_eq(name, "row_number") || str_eq(name, "row_index") {
        return Some(FunctionArguments::nullary());
    }
    if str_eq(name, "lag") || str_eq(name, "lead") {
        return Some(FunctionArguments::with_range(new_range(1, 2)));
    }
    if str_eq(name, "cumsum") || str_eq(name, "cummin") || str_eq(name, "cummax") {
        return Some(FunctionArguments::unary());
    }
    if str_eq(name, "rolling_sum") || str_eq(name, "rolling_mean") || str_eq(name, "rolling_avg")
        || str_eq(name, "rolling_var") || str_eq(name, "rolling_stddev") {
        return Some(FunctionArguments::binary());
    }
    None
}


/// Which statistic a rolling Welford aggregation gives.
#[derive(Debug, Clone, Copy, PartialEq, Eq, Structural)]
pub enum WelfordStat {
    Mean,
    Var,
    Stddev,
}

/// A window aggregation, as far as its kind and its static parameters go:
/// how far ahead or behind it looks, and the size of its rolling window.
#[derive(Debug, Clone, Copy, PartialEq, Eq, Structural)]
pub enum WindowAggregationKind {
    Lead(usize),
    Lag(usize),
    RowNumber,
    RowIndex,
    CumulativeSum,
    CumulativeMin,
    CumulativeMax,
    RollingSum(usize),
    RollingWelford(WelfordStat, usize),
}

/// How many rows behind and ahead of the current one an aggregation reads.
pub open spec fn extent_of(k: WindowAggregationKind) -> (usize, usize) {
    match k {
        WindowAggregationKind::Lead(n) => (0, n),
        WindowAggregationKind::Lag(n) => (n, 0),
        _ => (0, 0),
    }
}

impl WindowAggregationKind {
    /// How many rows behind and ahead of the current one it reads.
    pub fn extent(&self) -> (r: (usize, usize))
        ensures
            r == extent_of(*self),
    {
        match self {
            WindowAggregationKind::Lead(n) => (0, *n),
            WindowAggregationKind::Lag(n) => (*n, 0),
            _ => (0, 0),
        }
    }
}

/// The kind of a window aggregation named `name` called with `n_args`
/// arguments, `size_arg` being the argument that gives its distance or its
/// window size read as a static `usize` (`None` where it is none): the
/// second argument of `lead` and `lag`, which default to one row, and the
/// first one of the rolling aggregations.
pub open spec fn window_kind(name: Seq<char>, n_args: nat, size_arg: Option<usize>) -> Option<
    WindowAggregationKind,
> {
    if name == "row_number"@ {
        Some(WindowAggregationKind::RowNumber)
    } else if name == "row_index"@ {
        Some(WindowAggregationKind::RowIndex)
    } else if name == "lead"@ || name == "lag"@ {
        let n = if n_args == 1 {
            Some(1usize)
        } else {
            size_arg
        };
        match n {
            None => None,
            Some(n) => if name == "lead"@ {
                Some(WindowAggregationKind::Lead(n))
            } else {
                Some(WindowAggregationKind::Lag(n))
            },
        }
    } else if name == "cumsum"@ {
        Some(WindowAggregationKind::CumulativeSum)
    } else if name == "cummin"@ {
        Some(WindowAggregationKind::CumulativeMin)
    } else if name == "cummax"@ {
        Some(WindowAggregationKind::CumulativeMax)
    } else {
        match size_arg {
            None => None,
            Some(w) => if name == "rolling_sum"@ {
                Some(WindowAggregationKind::RollingSum(w))
            } else if name == "rolling_var"@ {
                Some(WindowAggregationKind::RollingWelford(WelfordStat::Var, w))
            } else if name == "rolling_stddev"@ {
                Some(WindowAggregationKind::RollingWelford(WelfordStat::Stddev, w))
            } else {
                Some(WindowAggregationKind::RollingWelford(WelfordStat::Mean, w))
            },
        }
    }
}

/// Checks a window aggregation and tells its kind: an unknown function, a
/// number of arguments it does not take, and a distance or window size
/// that is no static integer, are errors.
pub fn concretize_window_aggregation(name: &str, n_args: usize, size_arg: Option<usize>) -> (r:
    Result<WindowAggregationKind, ConcretizationError>)
    ensures
        window_signature(name@) is None ==> (r matches Err(ConcretizationError::UnknownFunction(
            n,
        )) && n@ == name@),
        window_bounds(name@) matches Some((lo, hi)) ==> {
            &&& !(lo <= n_args <= hi) ==> (r matches Err(ConcretizationError::InvalidArity(n, ia))
                && n@ == name@ && ia.got == n_args)
            &&& lo <= n_args <= hi ==> match window_kind(name@, n_args as nat, size_arg) {
                Some(k) => r matches Ok(k2) && k2 == k,
                None => r matches Err(ConcretizationError::NotStaticallyAnalyzable),
            }
        },
{
    let spec_args = match get_function(name) {
        None => {
            return Err(ConcretizationError::UnknownFunction(name.to_owned()));
        },
        Some(a) => a,
    };
    proof {
        let (lo, hi) = window_bounds(name@)->0;
        assert(positionals(0) =~= Seq::<ArgKind>::empty());
        lemma_required_of_kinds(spec_args, lo, hi);
    }
    match spec_args.validate_arity(n_args) {
        Ok(()) => {},
        Err(invalid_arity) => {
            return Err(ConcretizationError::InvalidArity(name.to_owned(), invalid_arity));
        },
    }
    if str_eq(name, "row_number") {
        return Ok(WindowAggregationKind::RowNumber);
    }
    if str_eq(name, "row_index") {
        return Ok(WindowAggregationKind::RowIndex);
    }
    if str_eq(name, "lead") || str_eq(name, "lag") {
        let n = if n_args == 1 {
            1
        } else {
            match size_arg {
                None => {
                    return Err(ConcretizationError::NotStaticallyAnalyzable);
                },
                Some(n) => n,
            }
        };
        if str_eq(name, "lead") {
            return Ok(WindowAggregationKind::Lead(n));
        }
        return Ok(WindowAggregationKind::Lag(n));
    }
    if str_eq(name, "cumsum") {
        return Ok(WindowAggregationKind::CumulativeSum);
    }
    if str_eq(name, "cummin") {
        return Ok(WindowAggregationKind::CumulativeMin);
    }
    if str_eq(name, "cummax") {
        return Ok(WindowAggregationKind::CumulativeMax);
    }
    let w = match size_arg {
        None => {
            return Err(ConcretizationError::NotStaticallyAnalyzable);
        },
        Some(w) => w,
    };
    if str_eq(name, "rolling_sum") {
        Ok(WindowAggregationKind::RollingSum(w))
    } else if str_eq(name, "rolling_var") {
        Ok(WindowAggregationKind::RollingWelford(WelfordStat::Var, w))
    } else if str_eq(name, "rolling_stddev") {
        Ok(WindowAggregationKind::RollingWelford(WelfordStat::Stddev, w))
    } else {
        Ok(WindowAggregationKind::RollingWelford(WelfordStat::Mean, w))
    }
}

/// The most rows behind, and the most ahead, that any of the aggregations
/// reads.
pub open spec fn buffer_extent(ks: Seq<WindowAggregationKind>) -> (usize, usize)
    decreases ks.len(),
{
    if ks.len() == 0 {
        (0, 0)
    } else {
        let (p, f) = buffer_extent(ks.drop_last());
        let (a, b) = extent_of(ks.last());
        (if a > p {
            a
        } else {
            p
        }, if b > f {
            b
        } else {
            f
        })
    }
}

/// The most rows behind, and the most ahead, that any of the aggregations
/// reads: how many rows the program keeps on either side.
pub fn find_buffer_extent(aggs: &Vec<WindowAggregationKind>) -> (r: (usize, usize))
    ensures
        r == buffer_extent(aggs@),
        forall|i: int|
            0 <= i < aggs@.len() ==> extent_of(#[trigger] aggs@[i]).0 <= r.0 && extent_of(
                aggs@[i],
            ).1 <= r.1,
{
    let mut extent: (usize, usize) = (0, 0);
    let mut i: usize = 0;
    while i < aggs.len()
        invariant
            i <= aggs@.len(),
            extent == buffer_extent(aggs@.take(i as int)),
            forall|j: int|
                0 <= j < i ==> extent_of(#[trigger] aggs@[j]).0 <= extent.0 && extent_of(
                    aggs@[j],
                ).1 <= extent.1,
        decreases aggs@.len() - i,
    {
        let current = aggs[i].extent();
        proof {
            assert(aggs@.take(i + 1).drop_last() == aggs@.take(i as int));
        }
        if current.0 > extent.0 {
            extent.0 = current.0;
        }
        if current.1 > extent.1 {
            extent.1 = current.1;
        }
        i += 1;
    }
    assert(aggs@.take(i as int) == aggs@);
    extent
}

} // verus!
