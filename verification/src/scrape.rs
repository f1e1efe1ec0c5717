//! Scraping expressions: the functions that select elements of a page and
//! the arguments these take.
use vstd::prelude::*;

use crate::arguments::{new_range, Argument, FunctionArguments};
use crate::functions::{ranged, sig, signature_of, ArgKind};
use crate::text::str_eq;

verus! {

/// The formal arguments of each selection function, by name.
pub open spec fn selection_signature(name: Seq<char>) -> Option<(bool, Seq<ArgKind>)> {
    if name == "stay"@ || name == "root"@ {
        Some(sig(false, seq![]))
    } else if name == "parent"@ || name == "prev_sibling"@ || name == "next_sibling"@ {
        Some(sig(false, ranged(0, 1)))
    } else if name == "find_ancestor"@ {
        Some(sig(false, ranged(1, 2)))
    } else if name == "first"@ || name == "all"@ || name == "last"@ {
        Some(sig(false, seq![ArgKind::Positional, ArgKind::Optional, ArgKind::Named("containing"@)]))
    } else {
        None
    }
}

/// The formal arguments of the selection function named `name`, or `None`
/// when there is no such function.
pub fn get_selection_function_arguments(name: &str) -> (r: Option<FunctionArguments>)
    ensures
        match selection_signature(name@) {
            None => r is None,
            Some(s) => (r matches Some(f) && signature_of(f) == s),
        },
{
    if str_eq(name, "stay") || str_eq(name, "root") {
        return Some(FunctionArguments::nullary());
    }
    if str_eq(name, "parent") || str_eq(name, "prev_sibling") || str_eq(name, "next_sibling") {
        return Some(FunctionArguments::with_range(new_range(0, 1)));
    }
    if str_eq(name, "find_ancestor") {
        return Some(FunctionArguments::with_range(new_range(1, 2)));
    }
    if str_eq(name, "first") || str_eq(name, "all") || str_eq(name, "last") {
        return Some(
            FunctionArguments::complex(
                vec![Argument::Positional, Argument::Optional, Argument::with_name("containing")],
            ),
        );
    }
    None
}

} // verus!
