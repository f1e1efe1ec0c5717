//! Errors raised while preparing (concretizing) and evaluating expressions.
use vstd::prelude::*;

use crate::aggregators::{join_strings, joined, strings_view};
use crate::arguments::{range_end, range_start, Arity};
use crate::headers::ColumIndexationBy;
use crate::text::{decimal, push_decimal, push_signed_decimal, push_str, signed_decimal};

verus! {

/// The error of a syntactically invalid expression.
#[derive(Debug, PartialEq)]
pub enum ParseError {
    /// The input does not follow the grammar: the byte offset where reading
    /// stopped, and what was expected there.
    Syntax(usize, String),
    Custom(String),
}

/// An error raised while turning parsed expressions into runnable ones.
#[derive(Debug, PartialEq)]
pub enum ConcretizationError {
    ParseError(ParseError),
    ColumnNotFound(ColumIndexationBy, bool),
    InvalidRegex(String),
    UnknownFunction(String),
    InvalidArity(String, InvalidArity),
    TooManyArguments(usize),
    UnknownArgumentName(String),
    InvalidCSSSelector(String),
    StaticEvaluationError(SpecifiedEvaluationError),
    Custom(String),
    NotStaticallyAnalyzable,
}

/// A number of arguments that a function does not accept.
#[derive(Debug, PartialEq)]
pub struct InvalidArity {
    pub expected: Arity,
    pub got: usize,
}

impl InvalidArity {
    pub fn from_arity(arity: Arity, got: usize) -> (r: Self)
        ensures
            r.expected == arity,
            r.got == got,
    {
        Self { expected: arity, got }
    }
}

/// An evaluation error, tied to the name of the function that raised it.
#[derive(Debug, PartialEq)]
pub struct SpecifiedEvaluationError {
    pub function_name: String,
    pub reason: EvaluationError,
}

/// An error raised while evaluating an expression.
#[derive(Debug, PartialEq)]
pub enum EvaluationError {
    InvalidArity(InvalidArity),
    InvalidPath,
    InvalidLambda,
    NotImplemented(String),
    IO(String),
    TimeRelated(String),
    /// A value that cannot be cast: its rendering, its type and the type
    /// that was asked for.
    Cast { from_value: String, from_type: String, to_type: String },
    Custom(String),
    UnsupportedEncoding(String),
    UnsupportedDecoderTrap(String),
    ColumnNotFound(ColumIndexationBy, bool),
    ColumnOutOfRange(usize),
    GlobalVariableOutOfRange(usize),
    UnicodeDecodeError,
    JSONParseError(String),
    UnfillableUnderscore,
    PluralClauseMisalignment { got: usize, names: Vec<String> },
}

/// What `String::from_utf8_lossy` of std gives for `bytes`: their UTF-8
/// decoding, each invalid sequence replaced by U+FFFD.
pub uninterp spec fn lossy_utf8(bytes: Seq<u8>) -> Seq<char>;

/// `String::from_utf8_lossy` of std; its result is named, not described.
#[verifier::external_body]
fn from_utf8_lossy(bytes: &[u8]) -> (r: String)
    ensures
        r@ == lossy_utf8(bytes@),
{
    String::from_utf8_lossy(bytes).into_owned()
}

/// `"s"` when `n` calls for a plural.
pub open spec fn plural(n: int) -> Seq<char> {
    if n > 1 { "s"@ } else { ""@ }
}

/// The message of an invalid arity.
pub open spec fn arity_message(e: InvalidArity) -> Seq<char> {
    match e.expected {
        Arity::Min(min) => "expected at least "@ + decimal(min as nat) + " argument"@ + plural(min as int)
            + " but got "@ + decimal(e.got as nat),
        Arity::Strict(n) => "expected "@ + decimal(n as nat) + " argument"@ + plural(n as int)
            + " but got "@ + decimal(e.got as nat),
        Arity::Range(r) => "expected between "@ + decimal(r@.start as nat) + " and "@ + decimal(
            r@.end as nat,
        ) + " arguments but got "@ + decimal(e.got as nat),
    }
}

/// The message of a column that cannot be found.
pub open spec fn column_message(indexation: ColumIndexationBy, headless: bool) -> Seq<char> {
    match indexation {
        ColumIndexationBy::Pos(pos) => "column "@ + signed_decimal(pos as int) + " out of range"@,
        ColumIndexationBy::Name(name) => if headless {
            "cannot find column \""@ + lossy_utf8(name@) + "\" by name in a file without header"@
        } else {
            "cannot find column \""@ + lossy_utf8(name@) + "\""@
        },
        ColumIndexationBy::NameAndNth(name, nth) => if headless {
            "cannot find column \""@ + lossy_utf8(name@) + "\" by name in a file without header"@
        } else {
            "cannot find column (\""@ + lossy_utf8(name@) + "\", "@ + signed_decimal(nth as int)
                + ")"@
        },
    }
}

fn push_column_message(s: &mut String, indexation: &ColumIndexationBy, headless: bool)
    ensures
        final(s)@ == old(s)@ + column_message(*indexation, headless),
{
    match indexation {
        ColumIndexationBy::Pos(pos) => {
            push_str(s, "column ");
            push_signed_decimal(s, *pos as i128);
            push_str(s, " out of range");
        },
        ColumIndexationBy::Name(name) => {
            push_str(s, "cannot find column \"");
            let n = from_utf8_lossy(name.as_slice());
            push_str(s, n.as_str());
            if headless {
                push_str(s, "\" by name in a file without header");
            } else {
                push_str(s, "\"");
            }
        },
        ColumIndexationBy::NameAndNth(name, nth) => {
            if headless {
                push_str(s, "cannot find column \"");
                let n = from_utf8_lossy(name.as_slice());
                push_str(s, n.as_str());
                push_str(s, "\" by name in a file without header");
            } else {
                push_str(s, "cannot find column (\"");
                let n = from_utf8_lossy(name.as_slice());
                push_str(s, n.as_str());
                push_str(s, "\", ");
                push_signed_decimal(s, *nth as i128);
                push_str(s, ")");
            }
        },
    }
}

impl InvalidArity {
    /// The message of the error.
    pub fn to_string(&self) -> (r: String)
        ensures
            self.expected matches Arity::Range(rg) && rg@.exhausted || r@ == arity_message(*self),
    {
        let mut s = String::new();
        match &self.expected {
            Arity::Min(min) => {
                push_str(&mut s, "expected at least ");
                push_decimal(&mut s, *min as u128);
                push_str(&mut s, " argument");
                if *min > 1 {
                    push_str(&mut s, "s");
                } else {
                    push_str(&mut s, "");
                }
                push_str(&mut s, " but got ");
                push_decimal(&mut s, self.got as u128);
            },
            Arity::Strict(n) => {
                push_str(&mut s, "expected ");
                push_decimal(&mut s, *n as u128);
                push_str(&mut s, " argument");
                if *n > 1 {
                    push_str(&mut s, "s");
                } else {
                    push_str(&mut s, "");
                }
                push_str(&mut s, " but got ");
                push_decimal(&mut s, self.got as u128);
            },
            Arity::Range(range) => {
                push_str(&mut s, "expected between ");
                push_decimal(&mut s, range_start(range) as u128);
                push_str(&mut s, " and ");
                push_decimal(&mut s, range_end(range) as u128);
                push_str(&mut s, " arguments but got ");
                push_decimal(&mut s, self.got as u128);
            },
        }
        s
    }
}

/// The message of a parse error.
pub open spec fn parse_message(e: ParseError) -> Seq<char> {
    match e {
        ParseError::Syntax(pos, expected) => "syntax error at byte "@ + decimal(pos as nat)
            + ": expected "@ + expected@,
        ParseError::Custom(msg) => msg@,
    }
}

impl ParseError {
    /// The message of the error.
    pub fn to_string(&self) -> (r: String)
        ensures
            r@ == parse_message(*self),
    {
        let mut s = String::new();
        match self {
            ParseError::Syntax(pos, expected) => {
                push_str(&mut s, "syntax error at byte ");
                push_decimal(&mut s, *pos as u128);
                push_str(&mut s, ": expected ");
                push_str(&mut s, expected.as_str());
            },
            ParseError::Custom(msg) => {
                push_str(&mut s, msg.as_str());
            },
        }
        s
    }
}

/// The message of an evaluation error.
pub open spec fn evaluation_message(e: EvaluationError) -> Seq<char> {
    match e {
        EvaluationError::InvalidPath => "invalid posix path"@,
        EvaluationError::InvalidArity(arity) => arity_message(arity),
        EvaluationError::InvalidLambda => "provided argument is not a lambda"@,
        EvaluationError::IO(msg) => msg@,
        EvaluationError::TimeRelated(msg) => msg@,
        EvaluationError::Custom(msg) => msg@,
        EvaluationError::Cast { from_value, from_type, to_type } => "cannot safely cast "@
            + from_value@ + " from type \""@ + from_type@ + "\" to type \""@ + to_type@ + "\""@,
        EvaluationError::NotImplemented(t) => "not implemented for values of type \""@ + t@
            + "\" as of yet"@,
        EvaluationError::UnsupportedEncoding(name) => "unsupported encoding \""@ + name@ + "\""@,
        EvaluationError::UnsupportedDecoderTrap(name) => "unsupported encoder trap \""@ + name@
            + "\". Must be one of strict, replace, ignore."@,
        EvaluationError::ColumnNotFound(indexation, headless) => column_message(indexation, headless),
        EvaluationError::ColumnOutOfRange(idx) => "column "@ + decimal(idx as nat) + " is out of range"@,
        EvaluationError::GlobalVariableOutOfRange(idx) => "global variable index="@ + decimal(
            idx as nat,
        ) + " is out of range"@,
        EvaluationError::UnicodeDecodeError => "unicode decode error"@,
        EvaluationError::JSONParseError(msg) => "cannot parse "@ + msg@ + " as json"@,
        EvaluationError::UnfillableUnderscore => "some underscore `_` was not fillable because it is not downstream of a pipe"@,
        EvaluationError::PluralClauseMisalignment { got, names } => "plural clause related to columns ("@
            + joined(strings_view(names@), ", "@) + ") yielded "@ + decimal(got as nat)
            + " items instead of "@ + decimal(names@.len()),
    }
}

/// Whether an arity, somewhere in an evaluation error, is a range that was
/// iterated to its end (whose upper bound std leaves unspecified).
pub open spec fn has_exhausted_range(e: EvaluationError) -> bool {
    e matches EvaluationError::InvalidArity(a) && a.expected matches Arity::Range(rg) && rg@.exhausted
}

impl EvaluationError {
    /// The message of the error.
    pub fn to_string(&self) -> (r: String)
        ensures
            has_exhausted_range(*self) || r@ == evaluation_message(*self),
    {
        let mut s = String::new();
        match self {
            EvaluationError::InvalidPath => push_str(&mut s, "invalid posix path"),
            EvaluationError::InvalidArity(arity) => {
                s = arity.to_string();
            },
            EvaluationError::InvalidLambda => push_str(&mut s, "provided argument is not a lambda"),
            EvaluationError::IO(msg) => push_str(&mut s, msg.as_str()),
            EvaluationError::TimeRelated(msg) => push_str(&mut s, msg.as_str()),
            EvaluationError::Custom(msg) => push_str(&mut s, msg.as_str()),
            EvaluationError::Cast { from_value, from_type, to_type } => {
                push_str(&mut s, "cannot safely cast ");
                push_str(&mut s, from_value.as_str());
                push_str(&mut s, " from type \"");
                push_str(&mut s, from_type.as_str());
                push_str(&mut s, "\" to type \"");
                push_str(&mut s, to_type.as_str());
                push_str(&mut s, "\"");
            },
            EvaluationError::NotImplemented(t) => {
                push_str(&mut s, "not implemented for values of type \"");
                push_str(&mut s, t.as_str());
                push_str(&mut s, "\" as of yet");
            },
            EvaluationError::UnsupportedEncoding(name) => {
                push_str(&mut s, "unsupported encoding \"");
                push_str(&mut s, name.as_str());
                push_str(&mut s, "\"");
            },
            EvaluationError::UnsupportedDecoderTrap(name) => {
                push_str(&mut s, "unsupported encoder trap \"");
                push_str(&mut s, name.as_str());
                push_str(&mut s, "\". Must be one of strict, replace, ignore.");
            },
            EvaluationError::ColumnNotFound(indexation, headless) => {
                push_column_message(&mut s, indexation, *headless);
            },
            EvaluationError::ColumnOutOfRange(idx) => {
                push_str(&mut s, "column ");
                push_decimal(&mut s, *idx as u128);
                push_str(&mut s, " is out of range");
            },
            EvaluationError::GlobalVariableOutOfRange(idx) => {
                push_str(&mut s, "global variable index=");
                push_decimal(&mut s, *idx as u128);
                push_str(&mut s, " is out of range");
            },
            EvaluationError::UnicodeDecodeError => push_str(&mut s, "unicode decode error"),
            EvaluationError::JSONParseError(msg) => {
                push_str(&mut s, "cannot parse ");
                push_str(&mut s, msg.as_str());
                push_str(&mut s, " as json");
            },
            EvaluationError::UnfillableUnderscore => push_str(
                &mut s,
                "some underscore `_` was not fillable because it is not downstream of a pipe",
            ),
            EvaluationError::PluralClauseMisalignment { got, names } => {
                push_str(&mut s, "plural clause related to columns (");
                let j = join_strings(names, ", ");
                push_str(&mut s, j.as_str());
                push_str(&mut s, ") yielded ");
                push_decimal(&mut s, *got as u128);
                push_str(&mut s, " items instead of ");
                push_decimal(&mut s, names.len() as u128);
            },
        }
        s
    }

    /// The same error, tied to the function `function_name`.
    pub fn specify(self, function_name: &str) -> (r: SpecifiedEvaluationError)
        ensures
            r.function_name@ == function_name@,
            r.reason == self,
    {
        SpecifiedEvaluationError { function_name: function_name.to_owned(), reason: self }
    }

    /// The same error, tied to no function in particular (`<expr>`).
    pub fn anonymous(self) -> (r: SpecifiedEvaluationError)
        ensures
            r.function_name@ == "<expr>"@,
            r.reason == self,
    {
        SpecifiedEvaluationError { function_name: "<expr>".to_owned(), reason: self }
    }

    pub fn plural_clause_misalignment(names: &[String], got: usize) -> (r: Self)
        ensures
            r matches EvaluationError::PluralClauseMisalignment { got: g, names: n } && g == got
                && strings_view(n@) == strings_view(names@),
    {
        let mut v: Vec<String> = Vec::new();
        let mut i: usize = 0;
        while i < names.len()
            invariant
                i <= names@.len(),
                strings_view(v@) == strings_view(names@.take(i as int)),
            decreases names@.len() - i,
        {
            let c = names[i].clone();
            assert(c@ == names@[i as int]@);
            let ghost before = v@;
            v.push(c);
            assert(strings_view(v@) =~= strings_view(before).push(c@));
            assert(names@.take(i + 1) == names@.take(i as int).push(names@[i as int]));
            assert(strings_view(names@.take(i + 1)) =~= strings_view(names@.take(i as int)).push(
                names@[i as int]@,
            ));
            i += 1;
        }
        assert(names@.take(i as int) == names@);
        EvaluationError::PluralClauseMisalignment { got, names: v }
    }
}

/// The message of an evaluation error tied to a function: the function's
/// name (with `()` unless it is an operator beginning with `<` or `>`), then
/// the message of the error.
pub open spec fn specified_message(e: SpecifiedEvaluationError) -> Seq<char> {
    let name = e.function_name@;
    (if name.len() > 0 && (name[0] == '<' || name[0] == '>') {
        name
    } else {
        name + "()"@
    }) + " "@ + evaluation_message(e.reason)
}

impl SpecifiedEvaluationError {
    pub fn new(name: &str, reason: EvaluationError) -> (r: Self)
        ensures
            r.function_name@ == name@,
            r.reason == reason,
    {
        Self { function_name: name.to_owned(), reason }
    }

    /// The message of the error.
    pub fn to_string(&self) -> (r: String)
        ensures
            has_exhausted_range(self.reason) || r@ == specified_message(*self),
    {
        let mut s = String::new();
        let name = crate::text::chars_of(self.function_name.as_str());
        push_str(&mut s, self.function_name.as_str());
        if !(name.len() > 0 && (name[0] == '<' || name[0] == '>')) {
            push_str(&mut s, "()");
        }
        push_str(&mut s, " ");
        let reason = self.reason.to_string();
        push_str(&mut s, reason.as_str());
        s
    }
}

/// The message of a concretization error.
pub open spec fn concretization_message(e: ConcretizationError) -> Seq<char> {
    match e {
        ConcretizationError::ColumnNotFound(indexation, headless) => column_message(indexation, headless),
        ConcretizationError::UnknownFunction(name) => "unknown function \""@ + name@ + "\""@,
        ConcretizationError::UnknownArgumentName(name) => "unknown argument \""@ + name@ + "\""@,
        ConcretizationError::ParseError(err) => "could not parse expression: "@ + parse_message(err),
        ConcretizationError::InvalidRegex(pattern) => "invalid regex "@ + pattern@,
        ConcretizationError::InvalidArity(name, arity) => name@ + ": "@ + arity_message(arity),
        ConcretizationError::TooManyArguments(actual) => "got "@ + decimal(actual as nat)
            + " arguments. Cannot exceed 8."@,
        ConcretizationError::InvalidCSSSelector(css) => "invalid css selector: "@ + css@,
        ConcretizationError::StaticEvaluationError(error) => specified_message(error),
        ConcretizationError::Custom(msg) => msg@,
        ConcretizationError::NotStaticallyAnalyzable => "not statically analyzable"@,
    }
}

impl ConcretizationError {
    /// The message of the error.
    pub fn to_string(&self) -> (r: String)
        ensures
            (self matches ConcretizationError::InvalidArity(_, a) && a.expected matches Arity::Range(rg)
                && rg@.exhausted) || (self matches ConcretizationError::StaticEvaluationError(e)
                && has_exhausted_range(e.reason)) || r@ == concretization_message(*self),
    {
        let mut s = String::new();
        match self {
            ConcretizationError::ColumnNotFound(indexation, headless) => {
                push_column_message(&mut s, indexation, *headless);
            },
            ConcretizationError::UnknownFunction(name) => {
                push_str(&mut s, "unknown function \"");
                push_str(&mut s, name.as_str());
                push_str(&mut s, "\"");
            },
            ConcretizationError::UnknownArgumentName(name) => {
                push_str(&mut s, "unknown argument \"");
                push_str(&mut s, name.as_str());
                push_str(&mut s, "\"");
            },
            ConcretizationError::ParseError(err) => {
                push_str(&mut s, "could not parse expression: ");
                let m = err.to_string();
                push_str(&mut s, m.as_str());
            },
            ConcretizationError::InvalidRegex(pattern) => {
                push_str(&mut s, "invalid regex ");
                push_str(&mut s, pattern.as_str());
            },
            ConcretizationError::InvalidArity(name, arity) => {
                push_str(&mut s, name.as_str());
                push_str(&mut s, ": ");
                let m = arity.to_string();
                push_str(&mut s, m.as_str());
            },
            ConcretizationError::TooManyArguments(actual) => {
                push_str(&mut s, "got ");
                push_decimal(&mut s, *actual as u128);
                push_str(&mut s, " arguments. Cannot exceed 8.");
            },
            ConcretizationError::InvalidCSSSelector(css) => {
                push_str(&mut s, "invalid css selector: ");
                push_str(&mut s, css.as_str());
            },
            ConcretizationError::StaticEvaluationError(error) => {
                s = error.to_string();
            },
            ConcretizationError::Custom(msg) => push_str(&mut s, msg.as_str()),
            ConcretizationError::NotStaticallyAnalyzable => push_str(&mut s, "not statically analyzable"),
        }
        s
    }
}

} // verus!
