//! The special functions of the expression language: those that read the
//! headers or the row index, or that decide which of their arguments to
//! evaluate, and the arguments each takes.
use vstd::prelude::*;

use crate::arguments::{new_range, FunctionArguments};
use crate::functions::{positionals, ranged, sig, signature_of, ArgKind};
use crate::text::str_eq;

verus! {

/// The formal arguments of each special function, by name.
pub open spec fn special_signature(name: Seq<char>) -> Option<(bool, Seq<ArgKind>)> {
    if name == "col"@ || name == "header"@ || name == "col_index"@ || name == "col?"@ || name
        == "header?"@ || name == "col_index?"@ {
        Some(sig(false, ranged(1, 2)))
    } else if name == "cols"@ || name == "headers"@ {
        Some(sig(false, ranged(0, 2)))
    } else if name == "index"@ {
        Some(sig(false, seq![]))
    } else if name == "if"@ || name == "unless"@ {
        Some(sig(false, ranged(2, 3)))
    } else if name == "and"@ || name == "or"@ {
        Some(sig(true, positionals(2)))
    } else if name == "try"@ || name == "warn"@ {
        Some(sig(false, positionals(1)))
    } else if name == "map"@ || name == "filter"@ || name == "find"@ || name == "find_index"@ {
        Some(sig(false, positionals(2)))
    } else {
        None
    }
}

/// The formal arguments of the special function named `name`, or `None`
/// when no special function has that name.
pub fn get_special_function(name: &str) -> (r: Option<FunctionArguments>)
    ensures
        match special_signature(name@) {
            None => r is None,
            Some(s) => (r matches Some(f) && signature_of(f) == s),
        },
{
    if str_eq(name, "col") || str_eq(name, "header") || str_eq(name, "col_index") || str_eq(
        name,
        "col?",
    ) || str_eq(name, "header?") || str_eq(name, "col_index?") {
        return Some(FunctionArguments::with_range(new_range(1, 2)));
    }
    if str_eq(name, "cols") || str_eq(name, "headers") {
        return Some(FunctionArguments::with_range(new_range(0, 2)));
    }
    if str_eq(name, "index") {
        return Some(FunctionArguments::nullary());
    }
    if str_eq(name, "if") || str_eq(name, "unless") {
        return Some(FunctionArguments::with_range(new_range(2, 3)));
    }
    if str_eq(name, "and") || str_eq(name, "or") {
        return Some(FunctionArguments::variadic(2));
    }
    if str_eq(name, "try") || str_eq(name, "warn") {
        return Some(FunctionArguments::unary());
    }
    if str_eq(name, "map") || str_eq(name, "filter") || str_eq(name, "find") || str_eq(
        name,
        "find_index",
    ) {
        return Some(FunctionArguments::binary());
    }
    None
}

} // verus!
