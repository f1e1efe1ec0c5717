//! The formal arguments of the functions of the expression language.
use vstd::prelude::*;

use crate::arguments::{new_range, Argument, FunctionArguments};
use crate::text::str_eq;

verus! {

/// A formal argument, as a specification sees it.
pub ghost enum ArgKind {
    Positional,
    Optional,
    Named(Seq<char>),
}

pub open spec fn kind_of(a: Argument) -> ArgKind {
    match a {
        Argument::Positional => ArgKind::Positional,
        Argument::Optional => ArgKind::Optional,
        Argument::Named(n) => ArgKind::Named(n@),
    }
}

/// Whether a function is variadic, and its formal arguments.
pub open spec fn signature_of(f: FunctionArguments) -> (bool, Seq<ArgKind>) {
    (f.is_variadic(), f.formal().map_values(|a: Argument| kind_of(a)))
}

pub open spec fn sig(variadic: bool, args: Seq<ArgKind>) -> (bool, Seq<ArgKind>) {
    (variadic, args)
}

/// `n` positional arguments.
pub open spec fn positionals(n: nat) -> Seq<ArgKind> {
    Seq::new(n, |i: int| ArgKind::Positional)
}

/// `start` positional arguments, then optional ones up to `end` arguments.
pub open spec fn ranged(start: nat, end: nat) -> Seq<ArgKind> {
    Seq::new(if end > start { end } else { start }, |i: int| if i < start { ArgKind::Positional } else { ArgKind::Optional })
}

fn complex_of(v: Vec<Argument>) -> (r: FunctionArguments)
    ensures
        !r.is_variadic(),
        r.formal() == v@,
{
    FunctionArguments::complex(v)
}

/// The formal arguments of each function, by name.
pub open spec fn function_signature(name: Seq<char>) -> Option<(bool, Seq<ArgKind>)> {
    if name == "=="@ {
        Some(sig(false, seq![ArgKind::Positional, ArgKind::Positional]))
    } else
    if name == ">"@ {
        Some(sig(false, seq![ArgKind::Positional, ArgKind::Positional]))
    } else
    if name == ">="@ {
        Some(sig(false, seq![ArgKind::Positional, ArgKind::Positional]))
    } else
    if name == "<"@ {
        Some(sig(false, seq![ArgKind::Positional, ArgKind::Positional]))
    } else
    if name == "<="@ {
        Some(sig(false, seq![ArgKind::Positional, ArgKind::Positional]))
    } else
    if name == "!="@ {
        Some(sig(false, seq![ArgKind::Positional, ArgKind::Positional]))
    } else
    if name == "abs"@ {
        Some(sig(false, seq![ArgKind::Positional]))
    } else
    if name == "abspath"@ {
        Some(sig(false, seq![ArgKind::Positional]))
    } else
    if name == "add"@ {
        Some(sig(true, positionals(2)))
    } else
    if name == "argmax"@ {
        Some(sig(false, ranged(1, 2)))
    } else
    if name == "argmin"@ {
        Some(sig(false, ranged(1, 2)))
    } else
    if name == "basename"@ {
        Some(sig(false, ranged(1, 2)))
    } else
    if name == "bytesize"@ {
        Some(sig(false, seq![ArgKind::Positional]))
    } else
    if name == "carry_stemmer"@ {
        Some(sig(false, seq![ArgKind::Positional]))
    } else
    if name == "ceil"@ {
        Some(sig(false, ranged(1, 2)))
    } else
    if name == "cmd"@ {
        Some(sig(false, seq![ArgKind::Positional, ArgKind::Positional]))
    } else
    if name == "compact"@ {
        Some(sig(false, seq![ArgKind::Positional]))
    } else
    if name == "concat"@ {
        Some(sig(true, positionals(2)))
    } else
    if name == "contains"@ {
        Some(sig(false, seq![ArgKind::Positional, ArgKind::Positional]))
    } else
    if name == "copy"@ {
        Some(sig(false, seq![ArgKind::Positional, ArgKind::Positional]))
    } else
    if name == "count"@ {
        Some(sig(false, seq![ArgKind::Positional, ArgKind::Positional]))
    } else
    if name == "datetime"@ {
        Some(sig(false, seq![ArgKind::Positional, ArgKind::Named("format"@), ArgKind::Named("timezone"@)]))
    } else
    if name == "dirname"@ {
        Some(sig(false, seq![ArgKind::Positional]))
    } else
    if name == "div"@ {
        Some(sig(true, positionals(2)))
    } else
    if name == "earliest"@ {
        Some(sig(true, positionals(1)))
    } else
    if name == "endswith"@ {
        Some(sig(false, seq![ArgKind::Positional, ArgKind::Positional]))
    } else
    if name == "err"@ {
        Some(sig(false, seq![ArgKind::Positional]))
    } else
    if name == "escape_regex"@ {
        Some(sig(false, seq![ArgKind::Positional]))
    } else
    if name == "ext"@ {
        Some(sig(false, seq![ArgKind::Positional]))
    } else
    if name == "filesize"@ {
        Some(sig(false, seq![ArgKind::Positional]))
    } else
    if name == "fingerprint"@ {
        Some(sig(false, seq![ArgKind::Positional]))
    } else
    if name == "first"@ {
        Some(sig(false, seq![ArgKind::Positional]))
    } else
    if name == "float"@ {
        Some(sig(false, seq![ArgKind::Positional]))
    } else
    if name == "floor"@ {
        Some(sig(false, ranged(1, 2)))
    } else
    if name == "fmt"@ {
        Some(sig(true, positionals(2)))
    } else
    if name == "numfmt"@ {
        Some(sig(false, seq![ArgKind::Positional, ArgKind::Named("thousands_sep"@), ArgKind::Named("comma"@), ArgKind::Named("significance"@)]))
    } else
    if name == "get"@ {
        Some(sig(false, ranged(2, 3)))
    } else
    if name == "html_unescape"@ {
        Some(sig(false, seq![ArgKind::Positional]))
    } else
    if name == "idiv"@ {
        Some(sig(false, seq![ArgKind::Positional, ArgKind::Positional]))
    } else
    if name == "index_by"@ {
        Some(sig(false, seq![ArgKind::Positional, ArgKind::Positional]))
    } else
    if name == "int"@ {
        Some(sig(false, seq![ArgKind::Positional]))
    } else
    if name == "isfile"@ {
        Some(sig(false, seq![ArgKind::Positional]))
    } else
    if name == "join"@ {
        Some(sig(false, seq![ArgKind::Positional, ArgKind::Positional]))
    } else
    if name == "keys"@ {
        Some(sig(false, seq![ArgKind::Positional]))
    } else
    if name == "latest"@ {
        Some(sig(true, positionals(1)))
    } else
    if name == "last"@ {
        Some(sig(false, seq![ArgKind::Positional]))
    } else
    if name == "len"@ {
        Some(sig(false, seq![ArgKind::Positional]))
    } else
    if name == "log"@ {
        Some(sig(false, ranged(1, 2)))
    } else
    if name == "log2"@ {
        Some(sig(false, seq![ArgKind::Positional]))
    } else
    if name == "log10"@ {
        Some(sig(false, seq![ArgKind::Positional]))
    } else
    if name == "lower"@ {
        Some(sig(false, seq![ArgKind::Positional]))
    } else
    if name == "lru"@ {
        Some(sig(false, seq![ArgKind::Positional]))
    } else
    if name == "match"@ {
        Some(sig(false, ranged(2, 3)))
    } else
    if name == "max"@ {
        Some(sig(true, positionals(1)))
    } else
    if name == "md5"@ {
        Some(sig(false, seq![ArgKind::Positional]))
    } else
    if name == "mean"@ {
        Some(sig(false, seq![ArgKind::Positional]))
    } else
    if name == "mime_ext"@ {
        Some(sig(false, seq![ArgKind::Positional]))
    } else
    if name == "min"@ {
        Some(sig(true, positionals(1)))
    } else
    if name == "mod"@ {
        Some(sig(false, seq![ArgKind::Positional, ArgKind::Positional]))
    } else
    if name == "month"@ {
        Some(sig(false, seq![ArgKind::Positional]))
    } else
    if name == "month_day"@ {
        Some(sig(false, seq![ArgKind::Positional]))
    } else
    if name == "move"@ {
        Some(sig(false, seq![ArgKind::Positional, ArgKind::Positional]))
    } else
    if name == "mul"@ {
        Some(sig(true, positionals(2)))
    } else
    if name == "neg"@ {
        Some(sig(false, seq![ArgKind::Positional]))
    } else
    if name == "not"@ {
        Some(sig(false, seq![ArgKind::Positional]))
    } else
    if name == "pad"@ {
        Some(sig(false, ranged(2, 3)))
    } else
    if name == "lpad"@ {
        Some(sig(false, ranged(2, 3)))
    } else
    if name == "rpad"@ {
        Some(sig(false, ranged(2, 3)))
    } else
    if name == "parse_dataurl"@ {
        Some(sig(false, seq![ArgKind::Positional]))
    } else
    if name == "parse_json"@ {
        Some(sig(false, seq![ArgKind::Positional]))
    } else
    if name == "parse_py_literal"@ {
        Some(sig(false, seq![ArgKind::Positional]))
    } else
    if name == "pjoin"@ || name == "pathjoin"@ {
        Some(sig(true, positionals(2)))
    } else
    if name == "pow"@ {
        Some(sig(false, seq![ArgKind::Positional, ArgKind::Positional]))
    } else
    if name == "printf"@ {
        Some(sig(true, positionals(2)))
    } else
    if name == "random"@ {
        Some(sig(false, seq![]))
    } else
    if name == "read"@ {
        Some(sig(false, seq![ArgKind::Positional, ArgKind::Named("encoding"@), ArgKind::Named("errors"@)]))
    } else
    if name == "read_csv"@ {
        Some(sig(false, seq![ArgKind::Positional]))
    } else
    if name == "read_json"@ {
        Some(sig(false, seq![ArgKind::Positional]))
    } else
    if name == "regex"@ {
        Some(sig(false, seq![ArgKind::Positional]))
    } else
    if name == "replace"@ {
        Some(sig(false, positionals(3)))
    } else
    if name == "round"@ {
        Some(sig(false, ranged(1, 2)))
    } else
    if name == "shell"@ {
        Some(sig(false, seq![ArgKind::Positional]))
    } else
    if name == "shlex_split"@ {
        Some(sig(false, seq![ArgKind::Positional]))
    } else
    if name == "slice"@ {
        Some(sig(false, ranged(2, 3)))
    } else
    if name == "split"@ {
        Some(sig(false, ranged(2, 3)))
    } else
    if name == "sqrt"@ {
        Some(sig(false, seq![ArgKind::Positional]))
    } else
    if name == "startswith"@ {
        Some(sig(false, seq![ArgKind::Positional, ArgKind::Positional]))
    } else
    if name == "strftime"@ {
        Some(sig(false, seq![ArgKind::Positional, ArgKind::Positional, ArgKind::Named("timezone"@)]))
    } else
    if name == "sub"@ {
        Some(sig(true, positionals(2)))
    } else
    if name == "sum"@ {
        Some(sig(false, seq![ArgKind::Positional]))
    } else
    if name == "s_stemmer"@ {
        Some(sig(false, seq![ArgKind::Positional]))
    } else
    if name == "eq"@ {
        Some(sig(false, seq![ArgKind::Positional, ArgKind::Positional]))
    } else
    if name == "gt"@ {
        Some(sig(false, seq![ArgKind::Positional, ArgKind::Positional]))
    } else
    if name == "ge"@ {
        Some(sig(false, seq![ArgKind::Positional, ArgKind::Positional]))
    } else
    if name == "lt"@ {
        Some(sig(false, seq![ArgKind::Positional, ArgKind::Positional]))
    } else
    if name == "le"@ {
        Some(sig(false, seq![ArgKind::Positional, ArgKind::Positional]))
    } else
    if name == "ne"@ {
        Some(sig(false, seq![ArgKind::Positional, ArgKind::Positional]))
    } else
    if name == "timestamp"@ {
        Some(sig(false, seq![ArgKind::Positional]))
    } else
    if name == "timestamp_ms"@ {
        Some(sig(false, seq![ArgKind::Positional]))
    } else
    if name == "to_fixed"@ {
        Some(sig(false, seq![ArgKind::Positional, ArgKind::Positional]))
    } else
    if name == "to_timezone"@ {
        Some(sig(false, positionals(3)))
    } else
    if name == "to_local_timezone"@ {
        Some(sig(false, seq![ArgKind::Positional, ArgKind::Positional]))
    } else
    if name == "trim"@ {
        Some(sig(false, ranged(1, 2)))
    } else
    if name == "ltrim"@ {
        Some(sig(false, ranged(1, 2)))
    } else
    if name == "rtrim"@ {
        Some(sig(false, ranged(1, 2)))
    } else
    if name == "trunc"@ {
        Some(sig(false, ranged(1, 2)))
    } else
    if name == "typeof"@ {
        Some(sig(false, seq![ArgKind::Positional]))
    } else
    if name == "unidecode"@ {
        Some(sig(false, seq![ArgKind::Positional]))
    } else
    if name == "upper"@ {
        Some(sig(false, seq![ArgKind::Positional]))
    } else
    if name == "urljoin"@ {
        Some(sig(false, seq![ArgKind::Positional, ArgKind::Positional]))
    } else
    if name == "uuid"@ {
        Some(sig(false, seq![]))
    } else
    if name == "values"@ {
        Some(sig(false, seq![ArgKind::Positional]))
    } else
    if name == "write"@ {
        Some(sig(false, seq![ArgKind::Positional, ArgKind::Positional]))
    } else
    if name == "year"@ {
        Some(sig(false, seq![ArgKind::Positional]))
    } else
    if name == "year_month_day"@ || name == "ymd"@ {
        Some(sig(false, seq![ArgKind::Positional]))
    } else
    if name == "year_month"@ || name == "ym"@ {
        Some(sig(false, seq![ArgKind::Positional]))
    } else {
        None
    }
}

/// How many positional (required) arguments lead a list of formal
/// arguments.
pub open spec fn count_positional(s: Seq<ArgKind>) -> nat
    decreases s.len(),
{
    if s.len() == 0 {
        0
    } else {
        count_positional(s.drop_last()) + if s.last() is Positional {
            1nat
        } else {
            0nat
        }
    }
}

/// How many arguments a signature accepts, at least and at most (`None`
/// when it is variadic).
pub open spec fn arity_bounds(s: Option<(bool, Seq<ArgKind>)>) -> Option<(nat, Option<nat>)> {
    match s {
        None => None,
        Some((variadic, kinds)) => Some(
            (count_positional(kinds), if variadic {
                None
            } else {
                Some(kinds.len())
            }),
        ),
    }
}

/// How many arguments each function of the expression language declares,
/// at least and at most (`None` when there is no most), by name.
pub open spec fn declared_arity(name: Seq<char>) -> Option<(nat, Option<nat>)> {
    if name == "=="@ {
        Some((2, Some(2)))
    } else if name == ">"@ {
        Some((2, Some(2)))
    } else if name == ">="@ {
        Some((2, Some(2)))
    } else if name == "<"@ {
        Some((2, Some(2)))
    } else if name == "<="@ {
        Some((2, Some(2)))
    } else if name == "!="@ {
        Some((2, Some(2)))
    } else if name == "abs"@ {
        Some((1, Some(1)))
    } else if name == "abspath"@ {
        Some((1, Some(1)))
    } else if name == "add"@ {
        Some((2, None))
    } else if name == "argmax"@ {
        Some((1, Some(2)))
    } else if name == "argmin"@ {
        Some((1, Some(2)))
    } else if name == "basename"@ {
        Some((1, Some(2)))
    } else if name == "bytesize"@ {
        Some((1, Some(1)))
    } else if name == "carry_stemmer"@ {
        Some((1, Some(1)))
    } else if name == "ceil"@ {
        Some((1, Some(2)))
    } else if name == "cmd"@ {
        Some((2, Some(2)))
    } else if name == "compact"@ {
        Some((1, Some(1)))
    } else if name == "concat"@ {
        Some((2, None))
    } else if name == "contains"@ {
        Some((2, Some(2)))
    } else if name == "copy"@ {
        Some((2, Some(2)))
    } else if name == "count"@ {
        Some((2, Some(2)))
    } else if name == "datetime"@ {
        Some((1, Some(3)))
    } else if name == "dirname"@ {
        Some((1, Some(1)))
    } else if name == "div"@ {
        Some((2, None))
    } else if name == "earliest"@ {
        Some((1, None))
    } else if name == "endswith"@ {
        Some((2, Some(2)))
    } else if name == "err"@ {
        Some((1, Some(1)))
    } else if name == "escape_regex"@ {
        Some((1, Some(1)))
    } else if name == "ext"@ {
        Some((1, Some(1)))
    } else if name == "filesize"@ {
        Some((1, Some(1)))
    } else if name == "fingerprint"@ {
        Some((1, Some(1)))
    } else if name == "first"@ {
        Some((1, Some(1)))
    } else if name == "float"@ {
        Some((1, Some(1)))
    } else if name == "floor"@ {
        Some((1, Some(2)))
    } else if name == "fmt"@ {
        Some((2, None))
    } else if name == "numfmt"@ {
        Some((1, Some(4)))
    } else if name == "get"@ {
        Some((2, Some(3)))
    } else if name == "html_unescape"@ {
        Some((1, Some(1)))
    } else if name == "idiv"@ {
        Some((2, Some(2)))
    } else if name == "index_by"@ {
        Some((2, Some(2)))
    } else if name == "int"@ {
        Some((1, Some(1)))
    } else if name == "isfile"@ {
        Some((1, Some(1)))
    } else if name == "join"@ {
        Some((2, Some(2)))
    } else if name == "keys"@ {
        Some((1, Some(1)))
    } else if name == "latest"@ {
        Some((1, None))
    } else if name == "last"@ {
        Some((1, Some(1)))
    } else if name == "len"@ {
        Some((1, Some(1)))
    } else if name == "log"@ {
        Some((1, Some(2)))
    } else if name == "log2"@ {
        Some((1, Some(1)))
    } else if name == "log10"@ {
        Some((1, Some(1)))
    } else if name == "lower"@ {
        Some((1, Some(1)))
    } else if name == "lru"@ {
        Some((1, Some(1)))
    } else if name == "match"@ {
        Some((2, Some(3)))
    } else if name == "max"@ {
        Some((1, None))
    } else if name == "md5"@ {
        Some((1, Some(1)))
    } else if name == "mean"@ {
        Some((1, Some(1)))
    } else if name == "mime_ext"@ {
        Some((1, Some(1)))
    } else if name == "min"@ {
        Some((1, None))
    } else if name == "mod"@ {
        Some((2, Some(2)))
    } else if name == "month"@ {
        Some((1, Some(1)))
    } else if name == "month_day"@ {
        Some((1, Some(1)))
    } else if name == "move"@ {
        Some((2, Some(2)))
    } else if name == "mul"@ {
        Some((2, None))
    } else if name == "neg"@ {
        Some((1, Some(1)))
    } else if name == "not"@ {
        Some((1, Some(1)))
    } else if name == "pad"@ {
        Some((2, Some(3)))
    } else if name == "lpad"@ {
        Some((2, Some(3)))
    } else if name == "rpad"@ {
        Some((2, Some(3)))
    } else if name == "parse_dataurl"@ {
        Some((1, Some(1)))
    } else if name == "parse_json"@ {
        Some((1, Some(1)))
    } else if name == "parse_py_literal"@ {
        Some((1, Some(1)))
    } else if name == "pjoin"@ || name == "pathjoin"@ {
        Some((2, None))
    } else if name == "pow"@ {
        Some((2, Some(2)))
    } else if name == "printf"@ {
        Some((2, None))
    } else if name == "random"@ {
        Some((0, Some(0)))
    } else if name == "read"@ {
        Some((1, Some(3)))
    } else if name == "read_csv"@ {
        Some((1, Some(1)))
    } else if name == "read_json"@ {
        Some((1, Some(1)))
    } else if name == "regex"@ {
        Some((1, Some(1)))
    } else if name == "replace"@ {
        Some((3, Some(3)))
    } else if name == "round"@ {
        Some((1, Some(2)))
    } else if name == "shell"@ {
        Some((1, Some(1)))
    } else if name == "shlex_split"@ {
        Some((1, Some(1)))
    } else if name == "slice"@ {
        Some((2, Some(3)))
    } else if name == "split"@ {
        Some((2, Some(3)))
    } else if name == "sqrt"@ {
        Some((1, Some(1)))
    } else if name == "startswith"@ {
        Some((2, Some(2)))
    } else if name == "strftime"@ {
        Some((2, Some(3)))
    } else if name == "sub"@ {
        Some((2, None))
    } else if name == "sum"@ {
        Some((1, Some(1)))
    } else if name == "s_stemmer"@ {
        Some((1, Some(1)))
    } else if name == "eq"@ {
        Some((2, Some(2)))
    } else if name == "gt"@ {
        Some((2, Some(2)))
    } else if name == "ge"@ {
        Some((2, Some(2)))
    } else if name == "lt"@ {
        Some((2, Some(2)))
    } else if name == "le"@ {
        Some((2, Some(2)))
    } else if name == "ne"@ {
        Some((2, Some(2)))
    } else if name == "timestamp"@ {
        Some((1, Some(1)))
    } else if name == "timestamp_ms"@ {
        Some((1, Some(1)))
    } else if name == "to_fixed"@ {
        Some((2, Some(2)))
    } else if name == "to_timezone"@ {
        Some((3, Some(3)))
    } else if name == "to_local_timezone"@ {
        Some((2, Some(2)))
    } else if name == "trim"@ {
        Some((1, Some(2)))
    } else if name == "ltrim"@ {
        Some((1, Some(2)))
    } else if name == "rtrim"@ {
        Some((1, Some(2)))
    } else if name == "trunc"@ {
        Some((1, Some(2)))
    } else if name == "typeof"@ {
        Some((1, Some(1)))
    } else if name == "unidecode"@ {
        Some((1, Some(1)))
    } else if name == "upper"@ {
        Some((1, Some(1)))
    } else if name == "urljoin"@ {
        Some((2, Some(2)))
    } else if name == "uuid"@ {
        Some((0, Some(0)))
    } else if name == "values"@ {
        Some((1, Some(1)))
    } else if name == "write"@ {
        Some((2, Some(2)))
    } else if name == "year"@ {
        Some((1, Some(1)))
    } else if name == "year_month_day"@ || name == "ymd"@ {
        Some((1, Some(1)))
    } else if name == "year_month"@ || name == "ym"@ {
        Some((1, Some(1)))
    } else {
        None
    }
}

/// Each function of the expression language accepts as many arguments as
/// it declares: `replace` exactly three, `add` two or more, `get` two or
/// three, and so on for every name; a name without a function has none.
#[verifier::rlimit(100)]
pub proof fn law_declared_arities(name: Seq<char>)
    ensures
        arity_bounds(function_signature(name)) == declared_arity(name),
{
    reveal_with_fuel(count_positional, 5);
}

/// The formal arguments of the function named `name`, or `None` when there
/// is no such function.
#[verifier::rlimit(80)]
pub fn get_function(name: &str) -> (r: Option<FunctionArguments>)
    ensures
        match function_signature(name@) {
            None => r is None,
            Some(s) => (r matches Some(f) && signature_of(f) == s),
        },
{
    if str_eq(name, "==") {
        return Some(FunctionArguments::binary());
    }
    if str_eq(name, ">") {
        return Some(FunctionArguments::binary());
    }
    if str_eq(name, ">=") {
        return Some(FunctionArguments::binary());
    }
    if str_eq(name, "<") {
        return Some(FunctionArguments::binary());
    }
    if str_eq(name, "<=") {
        return Some(FunctionArguments::binary());
    }
    if str_eq(name, "!=") {
        return Some(FunctionArguments::binary());
    }
    if str_eq(name, "abs") {
        return Some(FunctionArguments::unary());
    }
    if str_eq(name, "abspath") {
        return Some(FunctionArguments::unary());
    }
    if str_eq(name, "add") {
        return Some(FunctionArguments::variadic(2));
    }
    if str_eq(name, "argmax") {
        return Some(FunctionArguments::with_range(new_range(1, 2)));
    }
    if str_eq(name, "argmin") {
        return Some(FunctionArguments::with_range(new_range(1, 2)));
    }
    if str_eq(name, "basename") {
        return Some(FunctionArguments::with_range(new_range(1, 2)));
    }
    if str_eq(name, "bytesize") {
        return Some(FunctionArguments::unary());
    }
    if str_eq(name, "carry_stemmer") {
        return Some(FunctionArguments::unary());
    }
    if str_eq(name, "ceil") {
        return Some(FunctionArguments::with_range(new_range(1, 2)));
    }
    if str_eq(name, "cmd") {
        return Some(FunctionArguments::binary());
    }
    if str_eq(name, "compact") {
        return Some(FunctionArguments::unary());
    }
    if str_eq(name, "concat") {
        return Some(FunctionArguments::variadic(2));
    }
    if str_eq(name, "contains") {
        return Some(FunctionArguments::binary());
    }
    if str_eq(name, "copy") {
        return Some(FunctionArguments::binary());
    }
    if str_eq(name, "count") {
        return Some(FunctionArguments::binary());
    }
    if str_eq(name, "datetime") {
        return Some(complex_of(vec![Argument::Positional, Argument::with_name("format"), Argument::with_name("timezone")]));
    }
    if str_eq(name, "dirname") {
        return Some(FunctionArguments::unary());
    }
    if str_eq(name, "div") {
        return Some(FunctionArguments::variadic(2));
    }
    if str_eq(name, "earliest") {
        return Some(FunctionArguments::variadic(1));
    }
    if str_eq(name, "endswith") {
        return Some(FunctionArguments::binary());
    }
    if str_eq(name, "err") {
        return Some(FunctionArguments::unary());
    }
    if str_eq(name, "escape_regex") {
        return Some(FunctionArguments::unary());
    }
    if str_eq(name, "ext") {
        return Some(FunctionArguments::unary());
    }
    if str_eq(name, "filesize") {
        return Some(FunctionArguments::unary());
    }
    if str_eq(name, "fingerprint") {
        return Some(FunctionArguments::unary());
    }
    if str_eq(name, "first") {
        return Some(FunctionArguments::unary());
    }
    if str_eq(name, "float") {
        return Some(FunctionArguments::unary());
    }
    if str_eq(name, "floor") {
        return Some(FunctionArguments::with_range(new_range(1, 2)));
    }
    if str_eq(name, "fmt") {
        return Some(FunctionArguments::variadic(2));
    }
    if str_eq(name, "numfmt") {
        return Some(complex_of(vec![Argument::Positional, Argument::with_name("thousands_sep"), Argument::with_name("comma"), Argument::with_name("significance")]));
    }
    if str_eq(name, "get") {
        return Some(FunctionArguments::with_range(new_range(2, 3)));
    }
    if str_eq(name, "html_unescape") {
        return Some(FunctionArguments::unary());
    }
    if str_eq(name, "idiv") {
        return Some(FunctionArguments::binary());
    }
    if str_eq(name, "index_by") {
        return Some(FunctionArguments::binary());
    }
    if str_eq(name, "int") {
        return Some(FunctionArguments::unary());
    }
    if str_eq(name, "isfile") {
        return Some(FunctionArguments::unary());
    }
    if str_eq(name, "join") {
        return Some(FunctionArguments::binary());
    }
    if str_eq(name, "keys") {
        return Some(FunctionArguments::unary());
    }
    if str_eq(name, "latest") {
        return Some(FunctionArguments::variadic(1));
    }
    if str_eq(name, "last") {
        return Some(FunctionArguments::unary());
    }
    if str_eq(name, "len") {
        return Some(FunctionArguments::unary());
    }
    if str_eq(name, "log") {
        return Some(FunctionArguments::with_range(new_range(1, 2)));
    }
    if str_eq(name, "log2") {
        return Some(FunctionArguments::unary());
    }
    if str_eq(name, "log10") {
        return Some(FunctionArguments::unary());
    }
    if str_eq(name, "lower") {
        return Some(FunctionArguments::unary());
    }
    if str_eq(name, "lru") {
        return Some(FunctionArguments::unary());
    }
    if str_eq(name, "match") {
        return Some(FunctionArguments::with_range(new_range(2, 3)));
    }
    if str_eq(name, "max") {
        return Some(FunctionArguments::variadic(1));
    }
    if str_eq(name, "md5") {
        return Some(FunctionArguments::unary());
    }
    if str_eq(name, "mean") {
        return Some(FunctionArguments::unary());
    }
    if str_eq(name, "mime_ext") {
        return Some(FunctionArguments::unary());
    }
    if str_eq(name, "min") {
        return Some(FunctionArguments::variadic(1));
    }
    if str_eq(name, "mod") {
        return Some(FunctionArguments::binary());
    }
    if str_eq(name, "month") {
        return Some(FunctionArguments::unary());
    }
    if str_eq(name, "month_day") {
        return Some(FunctionArguments::unary());
    }
    if str_eq(name, "move") {
        return Some(FunctionArguments::binary());
    }
    if str_eq(name, "mul") {
        return Some(FunctionArguments::variadic(2));
    }
    if str_eq(name, "neg") {
        return Some(FunctionArguments::unary());
    }
    if str_eq(name, "not") {
        return Some(FunctionArguments::unary());
    }
    if str_eq(name, "pad") {
        return Some(FunctionArguments::with_range(new_range(2, 3)));
    }
    if str_eq(name, "lpad") {
        return Some(FunctionArguments::with_range(new_range(2, 3)));
    }
    if str_eq(name, "rpad") {
        return Some(FunctionArguments::with_range(new_range(2, 3)));
    }
    if str_eq(name, "parse_dataurl") {
        return Some(FunctionArguments::unary());
    }
    if str_eq(name, "parse_json") {
        return Some(FunctionArguments::unary());
    }
    if str_eq(name, "parse_py_literal") {
        return Some(FunctionArguments::unary());
    }
    if str_eq(name, "pjoin") || str_eq(name, "pathjoin") {
        return Some(FunctionArguments::variadic(2));
    }
    if str_eq(name, "pow") {
        return Some(FunctionArguments::binary());
    }
    if str_eq(name, "printf") {
        return Some(FunctionArguments::variadic(2));
    }
    if str_eq(name, "random") {
        return Some(FunctionArguments::nullary());
    }
    if str_eq(name, "read") {
        return Some(complex_of(vec![Argument::Positional, Argument::with_name("encoding"), Argument::with_name("errors")]));
    }
    if str_eq(name, "read_csv") {
        return Some(FunctionArguments::unary());
    }
    if str_eq(name, "read_json") {
        return Some(FunctionArguments::unary());
    }
    if str_eq(name, "regex") {
        return Some(FunctionArguments::unary());
    }
    if str_eq(name, "replace") {
        return Some(FunctionArguments::nary(3));
    }
    if str_eq(name, "round") {
        return Some(FunctionArguments::with_range(new_range(1, 2)));
    }
    if str_eq(name, "shell") {
        return Some(FunctionArguments::unary());
    }
    if str_eq(name, "shlex_split") {
        return Some(FunctionArguments::unary());
    }
    if str_eq(name, "slice") {
        return Some(FunctionArguments::with_range(new_range(2, 3)));
    }
    if str_eq(name, "split") {
        return Some(FunctionArguments::with_range(new_range(2, 3)));
    }
    if str_eq(name, "sqrt") {
        return Some(FunctionArguments::unary());
    }
    if str_eq(name, "startswith") {
        return Some(FunctionArguments::binary());
    }
    if str_eq(name, "strftime") {
        return Some(complex_of(vec![Argument::Positional, Argument::Positional, Argument::with_name("timezone")]));
    }
    if str_eq(name, "sub") {
        return Some(FunctionArguments::variadic(2));
    }
    if str_eq(name, "sum") {
        return Some(FunctionArguments::unary());
    }
    if str_eq(name, "s_stemmer") {
        return Some(FunctionArguments::unary());
    }
    if str_eq(name, "eq") {
        return Some(FunctionArguments::binary());
    }
    if str_eq(name, "gt") {
        return Some(FunctionArguments::binary());
    }
    if str_eq(name, "ge") {
        return Some(FunctionArguments::binary());
    }
    if str_eq(name, "lt") {
        return Some(FunctionArguments::binary());
    }
    if str_eq(name, "le") {
        return Some(FunctionArguments::binary());
    }
    if str_eq(name, "ne") {
        return Some(FunctionArguments::binary());
    }
    if str_eq(name, "timestamp") {
        return Some(FunctionArguments::unary());
    }
    if str_eq(name, "timestamp_ms") {
        return Some(FunctionArguments::unary());
    }
    if str_eq(name, "to_fixed") {
        return Some(FunctionArguments::binary());
    }
    if str_eq(name, "to_timezone") {
        return Some(FunctionArguments::nary(3));
    }
    if str_eq(name, "to_local_timezone") {
        return Some(FunctionArguments::binary());
    }
    if str_eq(name, "trim") {
        return Some(FunctionArguments::with_range(new_range(1, 2)));
    }
    if str_eq(name, "ltrim") {
        return Some(FunctionArguments::with_range(new_range(1, 2)));
    }
    if str_eq(name, "rtrim") {
        return Some(FunctionArguments::with_range(new_range(1, 2)));
    }
    if str_eq(name, "trunc") {
        return Some(FunctionArguments::with_range(new_range(1, 2)));
    }
    if str_eq(name, "typeof") {
        return Some(FunctionArguments::unary());
    }
    if str_eq(name, "unidecode") {
        return Some(FunctionArguments::unary());
    }
    if str_eq(name, "upper") {
        return Some(FunctionArguments::unary());
    }
    if str_eq(name, "urljoin") {
        return Some(FunctionArguments::binary());
    }
    if str_eq(name, "uuid") {
        return Some(FunctionArguments::nullary());
    }
    if str_eq(name, "values") {
        return Some(FunctionArguments::unary());
    }
    if str_eq(name, "write") {
        return Some(FunctionArguments::binary());
    }
    if str_eq(name, "year") {
        return Some(FunctionArguments::unary());
    }
    if str_eq(name, "year_month_day") || str_eq(name, "ymd") {
        return Some(FunctionArguments::unary());
    }
    if str_eq(name, "year_month") || str_eq(name, "ym") {
        return Some(FunctionArguments::unary());
    }
    None
}

} // verus!
