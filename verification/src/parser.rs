//! How the parser of the expression language turns what the grammar
//! recognised into expressions: operators into calls, pipes into the
//! threading of their left side, and literals into values.
use vstd::prelude::*;

use crate::expr::{
    args_view, bound, expr_view, filled_arg, filled_args, list_view, names_view, star_bound_view, unnamed, Expr,
    ExprV, FunctionCall, Slice, StarBound, StarBoundV, negated_text,
};
use crate::functions::{function_signature, get_function};
use crate::text::{decimal, digit_char, signed_decimal, chars_of, push_char, push_str, str_eq, string_from_chars, trim_chars, trimmed};

verus! {

/// The operators of the expression language, under the names the grammar
/// gives them.
#[allow(non_camel_case_types)]
#[derive(Debug, Clone, Copy, PartialEq, Eq, Structural)]
pub enum Rule {
    pipe,
    or,
    and,
    gen_eq,
    gen_ne,
    str_eq,
    str_ne,
    in_op,
    not_in,
    gen_lt,
    gen_le,
    gen_gt,
    gen_ge,
    str_lt,
    str_le,
    str_gt,
    str_ge,
    add,
    sub,
    concat,
    mul,
    div,
    idiv,
    rem,
    pow,
    not,
    neg,
    open_indexing,
    point,
}

/// The function that an operator stands for, for the operators that stand
/// for one function called on their operands.
pub open spec fn fn_op_name(r: Rule) -> Option<Seq<char>> {
    match r {
        Rule::gen_eq => Some("=="@),
        Rule::gen_ne => Some("!="@),
        Rule::gen_lt => Some("<"@),
        Rule::gen_le => Some("<="@),
        Rule::gen_gt => Some(">"@),
        Rule::gen_ge => Some(">="@),
        Rule::str_eq => Some("eq"@),
        Rule::str_ne => Some("ne"@),
        Rule::str_lt => Some("lt"@),
        Rule::str_le => Some("le"@),
        Rule::str_gt => Some("gt"@),
        Rule::str_ge => Some("ge"@),
        Rule::add => Some("add"@),
        Rule::sub => Some("sub"@),
        Rule::mul => Some("mul"@),
        Rule::div => Some("div"@),
        Rule::idiv => Some("idiv"@),
        Rule::pow => Some("pow"@),
        Rule::rem => Some("mod"@),
        Rule::concat => Some("concat"@),
        Rule::not => Some("not"@),
        Rule::neg => Some("neg"@),
        _ => None,
    }
}

/// A number that tells the names of operators' functions apart: built
/// from a name's length, first and last characters.
spec fn name_code(n: Seq<char>) -> int {
    n.len() * 16777216 + (n[0] as int) * 256 + (n.last() as int)
}

/// The code of the name of each operator's function.
spec fn op_code(r: Rule) -> int {
    match r {
        Rule::gen_eq => 33570109,
        Rule::gen_ne => 33562941,
        Rule::gen_lt => 16792636,
        Rule::gen_le => 33569853,
        Rule::gen_gt => 16793150,
        Rule::gen_ge => 33570365,
        Rule::str_eq => 33580401,
        Rule::str_ne => 33582693,
        Rule::str_lt => 33582196,
        Rule::str_le => 33582181,
        Rule::str_gt => 33580916,
        Rule::str_ge => 33580901,
        Rule::add => 50356580,
        Rule::sub => 50361186,
        Rule::mul => 50359660,
        Rule::div => 50357366,
        Rule::idiv => 67135862,
        Rule::pow => 50360439,
        Rule::rem => 50359652,
        Rule::concat => 100688756,
        Rule::not => 50359924,
        Rule::neg => 50359911,
        _ => -1,
    }
}

proof fn lemma_op_code(r: Rule)
    ensures
        fn_op_name(r) matches Some(n) ==> n.len() > 0 && name_code(n) == op_code(r),
{
    match r {
        Rule::gen_eq => {
            reveal_strlit("==");
        },
        Rule::gen_ne => {
            reveal_strlit("!=");
        },
        Rule::gen_lt => {
            reveal_strlit("<");
        },
        Rule::gen_le => {
            reveal_strlit("<=");
        },
        Rule::gen_gt => {
            reveal_strlit(">");
        },
        Rule::gen_ge => {
            reveal_strlit(">=");
        },
        Rule::str_eq => {
            reveal_strlit("eq");
        },
        Rule::str_ne => {
            reveal_strlit("ne");
        },
        Rule::str_lt => {
            reveal_strlit("lt");
        },
        Rule::str_le => {
            reveal_strlit("le");
        },
        Rule::str_gt => {
            reveal_strlit("gt");
        },
        Rule::str_ge => {
            reveal_strlit("ge");
        },
        Rule::add => {
            reveal_strlit("add");
        },
        Rule::sub => {
            reveal_strlit("sub");
        },
        Rule::mul => {
            reveal_strlit("mul");
        },
        Rule::div => {
            reveal_strlit("div");
        },
        Rule::idiv => {
            reveal_strlit("idiv");
        },
        Rule::pow => {
            reveal_strlit("pow");
        },
        Rule::rem => {
            reveal_strlit("mod");
        },
        Rule::concat => {
            reveal_strlit("concat");
        },
        Rule::not => {
            reveal_strlit("not");
        },
        Rule::neg => {
            reveal_strlit("neg");
        },
        _ => {},
    }
}

/// Operators that stand for a function each stand for a different one: no
/// two operators build calls to the same function.
pub proof fn law_operator_functions_distinct(a: Rule, b: Rule)
    ensures
        fn_op_name(a) is Some && fn_op_name(a) == fn_op_name(b) ==> a == b,
{
    lemma_op_code(a);
    lemma_op_code(b);
}

/// The function each operator stands for: the comparisons `==`, `!=`, `<`,
/// `<=`, `>`, `>=` and their string forms `eq`, `ne`, `lt`, `le`, `gt`, `ge`;
/// `+` is `add`, `-` is `sub`, `*` is `mul`, `/` is `div`, `//` is `idiv`,
/// `**` is `pow`, `%` is `mod`, `++` is `concat`; the prefix `!` is `not`
/// and the prefix `-` is `neg`. The pipe, `&&`, `||`, `in`, `not in`,
/// indexing and `.` build other expressions.
pub proof fn law_operator_function_names()
    ensures
        fn_op_name(Rule::gen_eq) == Some("=="@),
        fn_op_name(Rule::gen_ne) == Some("!="@),
        fn_op_name(Rule::gen_lt) == Some("<"@),
        fn_op_name(Rule::gen_le) == Some("<="@),
        fn_op_name(Rule::gen_gt) == Some(">"@),
        fn_op_name(Rule::gen_ge) == Some(">="@),
        fn_op_name(Rule::str_eq) == Some("eq"@),
        fn_op_name(Rule::str_ne) == Some("ne"@),
        fn_op_name(Rule::str_lt) == Some("lt"@),
        fn_op_name(Rule::str_le) == Some("le"@),
        fn_op_name(Rule::str_gt) == Some("gt"@),
        fn_op_name(Rule::str_ge) == Some("ge"@),
        fn_op_name(Rule::add) == Some("add"@),
        fn_op_name(Rule::sub) == Some("sub"@),
        fn_op_name(Rule::mul) == Some("mul"@),
        fn_op_name(Rule::div) == Some("div"@),
        fn_op_name(Rule::idiv) == Some("idiv"@),
        fn_op_name(Rule::pow) == Some("pow"@),
        fn_op_name(Rule::rem) == Some("mod"@),
        fn_op_name(Rule::concat) == Some("concat"@),
        fn_op_name(Rule::not) == Some("not"@),
        fn_op_name(Rule::neg) == Some("neg"@),
        fn_op_name(Rule::pipe) is None,
        fn_op_name(Rule::or) is None,
        fn_op_name(Rule::and) is None,
        fn_op_name(Rule::in_op) is None,
        fn_op_name(Rule::not_in) is None,
        fn_op_name(Rule::open_indexing) is None,
        fn_op_name(Rule::point) is None,
{
}

impl Rule {
    /// The name of the function that the operator stands for.
    pub fn as_fn_op_str(&self) -> (r: &'static str)
        requires
            fn_op_name(*self) is Some,
        ensures
            r@ == fn_op_name(*self)->0,
    {
        match self {
            Rule::gen_eq => "==",
            Rule::gen_ne => "!=",
            Rule::gen_lt => "<",
            Rule::gen_le => "<=",
            Rule::gen_gt => ">",
            Rule::gen_ge => ">=",
            Rule::str_eq => "eq",
            Rule::str_ne => "ne",
            Rule::str_lt => "lt",
            Rule::str_le => "le",
            Rule::str_gt => "gt",
            Rule::str_ge => "ge",
            Rule::add => "add",
            Rule::sub => "sub",
            Rule::mul => "mul",
            Rule::div => "div",
            Rule::idiv => "idiv",
            Rule::pow => "pow",
            Rule::rem => "mod",
            Rule::concat => "concat",
            Rule::not => "not",
            _ => "neg",
        }
    }
}

/// A call of `name` on one argument.
pub open spec fn call1(name: Seq<char>, a: ExprV) -> ExprV {
    ExprV::Func(name, unnamed(seq![a]))
}

/// A call of `name` on two arguments.
pub open spec fn call2(name: Seq<char>, a: ExprV, b: ExprV) -> ExprV {
    ExprV::Func(name, unnamed(seq![a, b]))
}

/// A call of `name` on three arguments.
pub open spec fn call3(name: Seq<char>, a: ExprV, b: ExprV, c: ExprV) -> ExprV {
    ExprV::Func(name, unnamed(seq![a, b, c]))
}

/// What an infix operator makes of its operands, `None` where the right
/// side of an access is neither a key nor a call.
pub open spec fn infix_result(l: ExprV, op: Rule, r: ExprV) -> Option<ExprV> {
    match op {
        Rule::in_op => Some(call2("contains"@, r, l)),
        Rule::not_in => Some(call1("not"@, call2("contains"@, r, l))),
        Rule::open_indexing => match r {
            ExprV::Slice(Slice::Closed(s, e)) => Some(
                call3("slice"@, l, ExprV::Int(s as int), ExprV::Int(e as int)),
            ),
            ExprV::Slice(Slice::From(s)) => Some(call2("slice"@, l, ExprV::Int(s as int))),
            ExprV::Slice(Slice::To(e)) => Some(
                call3("slice"@, l, ExprV::Int(0), ExprV::Int(e as int)),
            ),
            _ => Some(call2("get"@, l, r)),
        },
        Rule::pipe => match r {
            ExprV::Func(name, args) => Some(ExprV::Func(name, filled_args(args, l))),
            ExprV::Identifier(name, _) => if function_signature(name) is Some {
                Some(call1(name, l))
            } else {
                Some(r)
            },
            _ => Some(r),
        },
        Rule::and => Some(call3("if"@, l, r, l)),
        Rule::or => Some(call3("if"@, l, l, r)),
        Rule::point => match r {
            ExprV::Identifier(name, _) => Some(call2("get"@, l, ExprV::Str(name))),
            ExprV::Bool(v) => Some(
                call2("get"@, l, ExprV::Str(if v { "true"@ } else { "false"@ })),
            ),
            ExprV::Int(v) => Some(call2("get"@, l, ExprV::Int(v))),
            ExprV::Str(name) => Some(call2("get"@, l, ExprV::Str(name))),
            ExprV::BStr(name) => Some(call2("get"@, l, ExprV::BStr(name))),
            ExprV::Func(name, args) => Some(
                ExprV::Func(name, seq![(None::<Seq<char>>, l)] + args),
            ),
            _ => None,
        },
        _ => Some(call2(fn_op_name(op)->0, l, r)),
    }
}

fn call1_of(name: &str, a: Expr) -> (r: Expr)
    ensures
        expr_view(r) == call1(name@, expr_view(a)),
{
    let mut v: Vec<Expr> = Vec::new();
    v.push(a);
    proof {
        reveal_with_fuel(list_view, 2);
        assert(unnamed(list_view(v@)) =~= unnamed(seq![expr_view(a)]));
    }
    Expr::Func(FunctionCall::new(name, v))
}

fn call2_of(name: &str, a: Expr, b: Expr) -> (r: Expr)
    ensures
        expr_view(r) == call2(name@, expr_view(a), expr_view(b)),
{
    let mut v: Vec<Expr> = Vec::new();
    v.push(a);
    v.push(b);
    proof {
        reveal_with_fuel(list_view, 3);
        assert(v@.drop_last() == seq![a]);
        assert(unnamed(list_view(v@)) =~= unnamed(seq![expr_view(a), expr_view(b)]));
    }
    Expr::Func(FunctionCall::new(name, v))
}

fn call3_of(name: &str, a: Expr, b: Expr, c: Expr) -> (r: Expr)
    ensures
        expr_view(r) == call3(name@, expr_view(a), expr_view(b), expr_view(c)),
{
    let mut v: Vec<Expr> = Vec::new();
    v.push(a);
    v.push(b);
    v.push(c);
    proof {
        reveal_with_fuel(list_view, 4);
        assert(v@.drop_last() == seq![a, b]);
        assert(v@.drop_last().drop_last() == seq![a]);
        assert(unnamed(list_view(v@)) =~= unnamed(
            seq![expr_view(a), expr_view(b), expr_view(c)],
        ));
    }
    Expr::Func(FunctionCall::new(name, v))
}

/// What a prefix operator makes of its operand: a call of the function it
/// stands for.
pub fn build_prefix(op: Rule, rhs: Expr) -> (r: Expr)
    requires
        fn_op_name(op) is Some,
    ensures
        expr_view(r) == call1(fn_op_name(op)->0, expr_view(rhs)),
{
    call1_of(op.as_fn_op_str(), rhs)
}

proof fn lemma_args_view_prepend(x: (Option<String>, Expr), s: Seq<(Option<String>, Expr)>)
    ensures
        args_view(seq![x] + s) == seq![args_view(seq![x])[0]] + args_view(s),
        args_view(seq![x])[0] == (
            match x.0 {
                Some(n) => Some(n@),
                None => None,
            },
            expr_view(x.1),
        ),
    decreases s.len(),
{
    reveal_with_fuel(args_view, 2);
    if s.len() > 0 {
        lemma_args_view_prepend(x, s.drop_last());
        assert((seq![x] + s).drop_last() == seq![x] + s.drop_last());
        assert(args_view(seq![x] + s) =~= seq![args_view(seq![x])[0]] + args_view(s));
    } else {
        assert(seq![x] + s == seq![x]);
        assert(args_view(s) =~= Seq::empty());
    }
}

/// What an infix operator makes of its operands: `in` and `not in` test
/// whether the right side contains the left one, indexing takes a slice or
/// an item, a pipe threads its left side into the right one, `and` and `or`
/// become conditionals, and an access gets a key or calls a method. Fails
/// where an access has neither a key nor a call on its right.
pub fn build_infix(lhs: Expr, op: Rule, rhs: Expr) -> (r: Result<Expr, String>)
    requires
        !(op == Rule::open_indexing && rhs == Expr::Slice(Slice::Full)),
    ensures
        match infix_result(expr_view(lhs), op, expr_view(rhs)) {
            Some(v) => r matches Ok(e) && expr_view(e) == v,
            None => r matches Err(m) && m@ == "illegal access or call!"@,
        },
{
    match op {
        Rule::in_op => Ok(call2_of("contains", rhs, lhs)),
        Rule::not_in => Ok(call1_of("not", call2_of("contains", rhs, lhs))),
        Rule::open_indexing => match rhs {
            Expr::Slice(Slice::Closed(start, end)) => Ok(
                call3_of("slice", lhs, Expr::Int(start), Expr::Int(end)),
            ),
            Expr::Slice(Slice::From(start)) => Ok(call2_of("slice", lhs, Expr::Int(start))),
            Expr::Slice(Slice::To(end)) => Ok(call3_of("slice", lhs, Expr::Int(0), Expr::Int(end))),
            other => Ok(call2_of("get", lhs, other)),
        },
        Rule::pipe => match rhs {
            Expr::Func(mut call) => {
                call.fill_underscore(&lhs);
                Ok(Expr::Func(call))
            },
            Expr::Identifier(name, unsure) => {
                match get_function(name.as_str()) {
                    None => Ok(Expr::Identifier(name, unsure)),
                    Some(_) => {
                        Ok(call1_of(name.as_str(), lhs))
                    },
                }
            },
            other => Ok(other),
        },
        Rule::and => {
            let copy = lhs.duplicate();
            Ok(call3_of("if", copy, rhs, lhs))
        },
        Rule::or => {
            let copy = lhs.duplicate();
            Ok(call3_of("if", copy, lhs, rhs))
        },
        Rule::point => match rhs {
            Expr::Identifier(name, _) => Ok(call2_of("get", lhs, Expr::Str(name))),
            Expr::Bool(value) => {
                let key = if value {
                    "true".to_owned()
                } else {
                    "false".to_owned()
                };
                Ok(call2_of("get", lhs, Expr::Str(key)))
            },
            Expr::Int(value) => Ok(call2_of("get", lhs, Expr::Int(value))),
            Expr::Str(name) => Ok(call2_of("get", lhs, Expr::Str(name))),
            Expr::BStr(name) => Ok(call2_of("get", lhs, Expr::BStr(name))),
            Expr::Func(call) => {
                let FunctionCall { name, mut args } = call;
                let ghost old_args = args@;
                args.insert(0, (None, lhs));
                proof {
                    assert(args@ == seq![(None::<String>, lhs)] + old_args);
                    lemma_args_view_prepend((None::<String>, lhs), old_args);
                }
                Ok(Expr::Func(FunctionCall { name, args }))
            },
            _ => Err("illegal access or call!".to_owned()),
        },
        _ => Ok(call2_of(op.as_fn_op_str(), lhs, rhs)),
    }
}


/// A character of the decimal digits.
pub open spec fn is_digit(c: char) -> bool {
    '0' <= c <= '9'
}

/// The value of a sequence of decimal digits.
pub open spec fn digits_value(s: Seq<char>) -> int
    decreases s.len(),
{
    if s.len() == 0 {
        0
    } else {
        digits_value(s.drop_last()) * 10 + (s.last() as int - '0' as int)
    }
}

/// A decimal integer without its sign, where it has one.
pub open spec fn literal_body(s: Seq<char>) -> Seq<char> {
    if s.len() > 0 && (s[0] == '-' || s[0] == '+') {
        s.skip(1)
    } else {
        s
    }
}

/// Whether every character of `s` is a decimal digit.
pub open spec fn all_digits(s: Seq<char>) -> bool {
    forall|i: int| 0 <= i < s.len() ==> is_digit(#[trigger] s[i])
}

/// The value of a decimal integer, with an optional sign in front, as
/// `str::parse::<i64>` reads it: `None` where it is no such text or its
/// value does not fit in an `i64`.
pub open spec fn i64_literal_value(s: Seq<char>) -> Option<int> {
    let body = literal_body(s);
    if body.len() == 0 || !all_digits(body) {
        None
    } else {
        let v = if s.len() > 0 && s[0] == '-' {
            -digits_value(body)
        } else {
            digits_value(body)
        };
        if i64::MIN <= v <= i64::MAX {
            Some(v)
        } else {
            None
        }
    }
}

/// `s` without its underscores.
pub open spec fn without_underscores(s: Seq<char>) -> Seq<char> {
    s.filter(|c: char| c != '_')
}

proof fn lemma_digits_value_bounds(s: Seq<char>, k: int)
    requires
        0 <= k <= s.len(),
        forall|i: int| 0 <= i < s.len() ==> is_digit(#[trigger] s[i]),
    ensures
        0 <= digits_value(s.take(k)) <= digits_value(s),
    decreases s.len(),
{
    if s.len() == 0 {
        assert(s.take(k) == s);
    } else {
        let t = s.drop_last();
        assert forall|i: int| 0 <= i < t.len() implies is_digit(#[trigger] t[i]) by {
            assert(t[i] == s[i]);
        }
        assert(is_digit(s[s.len() - 1]));
        if k < s.len() {
            lemma_digits_value_bounds(t, k);
            assert(t.take(k) == s.take(k));
        } else {
            lemma_digits_value_bounds(t, t.len() as int);
            assert(t.take(t.len() as int) == t);
            assert(s.take(k) == s);
        }
    }
}

/// The characters of `t` without its underscores.
fn strip_underscores(t: &str) -> (r: Vec<char>)
    ensures
        r@ == without_underscores(t@),
{
    let cs = chars_of(t);
    let mut out: Vec<char> = Vec::new();
    let mut i: usize = 0;
    while i < cs.len()
        invariant
            i <= cs@.len(),
            cs@ == t@,
            out@ == without_underscores(cs@.take(i as int)),
        decreases cs@.len() - i,
    {
        let c = cs[i];
        proof {
            reveal(Seq::filter);
            assert(cs@.take(i + 1).drop_last() == cs@.take(i as int));
        }
        if c != '_' {
            out.push(c);
        }
        i += 1;
    }
    assert(cs@.take(i as int) == cs@);
    out
}

/// Reads an integer literal of the grammar: its digits, which underscores
/// may separate, read as an `i64`.
pub fn parse_int(text: &str) -> (r: Result<i64, String>)
    ensures
        match i64_literal_value(without_underscores(text@)) {
            Some(v) => r == Ok::<i64, String>(v as i64),
            None => r matches Err(m) && m@ == "could not parse int"@,
        },
{
    let s = strip_underscores(text);
    let ghost sv = s@;
    let negative = s.len() > 0 && s[0] == '-';
    let start: usize = if s.len() > 0 && (s[0] == '-' || s[0] == '+') {
        1
    } else {
        0
    };
    let ghost body = if s.len() > 0 && (s[0] == '-' || s[0] == '+') {
        sv.skip(1)
    } else {
        sv
    };
    assert(body == sv.skip(start as int));
    if start == s.len() {
        return Err("could not parse int".to_owned());
    }
    let limit: u64 = if negative {
        9223372036854775808
    } else {
        9223372036854775807
    };
    let mut acc: u64 = 0;
    let mut i: usize = start;
    while i < s.len()
        invariant
            start <= i <= s@.len(),
            s@ == sv,
            sv == without_underscores(text@),
            negative == (sv.len() > 0 && sv[0] == '-'),
            body == literal_body(sv),
            body == sv.skip(start as int),
            body.len() > 0,
            forall|j: int| 0 <= j < i - start ==> is_digit(#[trigger] body[j]),
            acc as int == digits_value(body.take(i - start)),
            acc <= limit,
            limit == (if negative {
                9223372036854775808u64
            } else {
                9223372036854775807u64
            }),
        decreases s@.len() - i,
    {
        let c = s[i];
        assert(body[i - start] == c);
        if !('0' <= c && c <= '9') {
            assert(!is_digit(body[i - start]));
            return Err("could not parse int".to_owned());
        }
        let d: u64 = ((c as u32) - ('0' as u32)) as u64;
        assert(body.take(i - start + 1).drop_last() == body.take(i - start));
        if acc > (limit - d) / 10 {
            proof {
                let k = i - start;
                assert(body.take(k + 1).last() == c);
                assert(d == c as int - '0' as int);
                assert(acc * 10 + d > limit) by (nonlinear_arith)
                    requires
                        acc > (limit - d) / 10,
                        d <= 9,
                        limit >= 9,
                ;
                assert(digits_value(body.take(k + 1)) > limit);
                if all_digits(body) {
                    lemma_digits_value_bounds(body, i - start + 1);
                }
            }
            return Err("could not parse int".to_owned());
        }
        acc = acc * 10 + d;
        i += 1;
    }
    assert(body.take(i - start) == body);
    if negative {
        if acc == 9223372036854775808 {
            Ok(-9223372036854775808)
        } else {
            Ok(-(acc as i64))
        }
    } else {
        Ok(acc as i64)
    }
}


/// A piece of a string literal as the grammar splits it: text as it is
/// written, an escape (the character after the backslash), an escape of a
/// regular expression (the backslash included), or the flag that ends a
/// regular expression.
#[derive(Debug, Clone, PartialEq)]
pub enum StringPiece {
    Raw(String),
    Escape(String),
    RegexEscape(String),
    RegexFlag,
}

/// The character that an escape stands for.
pub open spec fn escaped_char(t: Seq<char>) -> Option<char> {
    if t == "n"@ {
        Some('\n')
    } else if t == "r"@ {
        Some('\r')
    } else if t == "t"@ {
        Some('\t')
    } else if t == "\\"@ {
        Some('\\')
    } else if t == "\""@ {
        Some('"')
    } else if t == "'"@ {
        Some('\'')
    } else {
        None
    }
}

/// The text that an escape of a regular expression stands for: the usual
/// control characters, a backslash or a slash; any other escape is kept as
/// it is written, for the regular expression engine to read.
pub open spec fn regex_escaped(t: Seq<char>) -> Seq<char> {
    if t == "\\n"@ {
        "\n"@
    } else if t == "\\r"@ {
        "\r"@
    } else if t == "\\t"@ {
        "\t"@
    } else if t == "\\\\"@ {
        "\\"@
    } else if t == "\\/"@ {
        "/"@
    } else {
        t
    }
}

/// Whether each escape among `pieces` is one the grammar knows.
pub open spec fn escapes_known(pieces: Seq<StringPiece>) -> bool {
    forall|i: int|
        0 <= i < pieces.len() ==> (#[trigger] pieces[i] matches StringPiece::Escape(t) ==> escaped_char(
            t@,
        ) is Some)
}

/// The text of one piece.
pub open spec fn piece_text(p: StringPiece) -> Seq<char> {
    match p {
        StringPiece::Raw(t) => t@,
        StringPiece::Escape(t) => seq![escaped_char(t@)->0],
        StringPiece::RegexEscape(t) => regex_escaped(t@),
        StringPiece::RegexFlag => Seq::empty(),
    }
}

/// The text of a string literal: its pieces one after the other, up to the
/// flag of a regular expression, if there is one.
pub open spec fn built_string(pieces: Seq<StringPiece>) -> Seq<char>
    decreases pieces.len(),
{
    if pieces.len() == 0 || pieces[0] is RegexFlag {
        Seq::empty()
    } else {
        piece_text(pieces[0]) + built_string(pieces.skip(1))
    }
}

fn escape_char(t: &String) -> (r: char)
    requires
        escaped_char(t@) is Some,
    ensures
        r == escaped_char(t@)->0,
{
    let t = t.as_str();
    if str_eq(t, "n") {
        '\n'
    } else if str_eq(t, "r") {
        '\r'
    } else if str_eq(t, "t") {
        '\t'
    } else if str_eq(t, "\\") {
        '\\'
    } else if str_eq(t, "\"") {
        '"'
    } else {
        '\''
    }
}

fn regex_escape(t: &String) -> (r: String)
    ensures
        r@ == regex_escaped(t@),
{
    let s = t.as_str();
    if str_eq(s, "\\n") {
        "\n".to_owned()
    } else if str_eq(s, "\\r") {
        "\r".to_owned()
    } else if str_eq(s, "\\t") {
        "\t".to_owned()
    } else if str_eq(s, "\\\\") {
        "\\".to_owned()
    } else if str_eq(s, "\\/") {
        "/".to_owned()
    } else {
        t.clone()
    }
}

/// Builds the text of a string literal out of its pieces.
pub fn build_string(pieces: &Vec<StringPiece>) -> (r: String)
    requires
        escapes_known(pieces@),
    ensures
        r@ == built_string(pieces@),
{
    let mut out = String::new();
    let mut i: usize = 0;
    assert(pieces@.skip(0) == pieces@);
    assert(out@ + built_string(pieces@) =~= built_string(pieces@));
    while i < pieces.len()
        invariant
            i <= pieces@.len(),
            escapes_known(pieces@),
            built_string(pieces@) == out@ + built_string(pieces@.skip(i as int)),
        decreases pieces@.len() - i,
    {
        proof {
            assert(pieces@.skip(i as int)[0] == pieces@[i as int]);
            assert(pieces@.skip(i as int).skip(1) == pieces@.skip(i + 1));
        }
        let ghost before = out@;
        match &pieces[i] {
            StringPiece::Raw(t) => push_str(&mut out, t.as_str()),
            StringPiece::Escape(t) => {
                assert(pieces@[i as int] matches StringPiece::Escape(_));
                push_char(&mut out, escape_char(t));
            },
            StringPiece::RegexEscape(t) => {
                let e = regex_escape(t);
                push_str(&mut out, e.as_str());
            },
            StringPiece::RegexFlag => {},
        }
        if matches!(pieces[i], StringPiece::RegexFlag) {
            assert(out@ == before);
            assert(out@ + built_string(pieces@.skip(pieces@.len() as int)) =~= out@);
            i = pieces.len();
        } else {
            assert(out@ == before + piece_text(pieces@[i as int]));
            assert(before + (piece_text(pieces@[i as int]) + built_string(pieces@.skip(i + 1)))
                =~= out@ + built_string(pieces@.skip(i + 1)));
            i += 1;
        }
    }
    assert(pieces@.skip(i as int).len() == 0);
    assert(out@ + built_string(pieces@.skip(i as int)) =~= out@);
    out
}


/// `s` without the question marks at its end.
pub open spec fn without_trailing_questions(s: Seq<char>) -> Seq<char>
    decreases s.len(),
{
    if s.len() > 0 && s.last() == '?' {
        without_trailing_questions(s.drop_last())
    } else {
        s
    }
}

/// The identifier that `text` names: without its trailing question marks,
/// and unsure, to be looked up leniently, when it has one.
pub fn build_identifier(text: &str) -> (r: Expr)
    ensures
        expr_view(r) == ExprV::Identifier(
            without_trailing_questions(text@),
            text@.len() > 0 && text@.last() == '?',
        ),
{
    let cs = chars_of(text);
    let mut n: usize = cs.len();
    assert(cs@.take(n as int) == cs@);
    while n > 0 && cs[n - 1] == '?'
        invariant
            n <= cs@.len(),
            cs@ == text@,
            without_trailing_questions(cs@.take(n as int)) == without_trailing_questions(text@),
        decreases n,
    {
        assert(cs@.take(n as int).drop_last() == cs@.take(n - 1));
        n -= 1;
    }
    let mut kept: Vec<char> = Vec::new();
    let mut i: usize = 0;
    while i < n
        invariant
            i <= n <= cs@.len(),
            kept@ == cs@.take(i as int),
        decreases n - i,
    {
        kept.push(cs[i]);
        i += 1;
    }
    let unsure = cs.len() > 0 && cs[cs.len() - 1] == '?';
    Expr::Identifier(string_from_chars(kept.as_slice()), unsure)
}

/// Whether one of `pieces` is the flag of a regular expression.
pub open spec fn has_flag(pieces: Seq<StringPiece>) -> bool {
    exists|i: int| 0 <= i < pieces.len() && pieces[i] is RegexFlag
}

/// A regular expression literal, out of its pieces and its whole text: it
/// ignores case where it has a flag and its text holds an `i`.
pub fn build_regex(pieces: &Vec<StringPiece>, text: &str) -> (r: Expr)
    requires
        escapes_known(pieces@),
    ensures
        expr_view(r) == ExprV::Regex(
            built_string(pieces@),
            has_flag(pieces@) && text@.contains('i'),
        ),
{
    let mut flag = false;
    let mut i: usize = 0;
    while i < pieces.len()
        invariant
            i <= pieces@.len(),
            flag == exists|j: int| 0 <= j < i && pieces@[j] is RegexFlag,
        decreases pieces@.len() - i,
    {
        if matches!(pieces[i], StringPiece::RegexFlag) {
            flag = true;
        }
        i += 1;
    }
    let mut has_i = false;
    if flag {
        let cs = chars_of(text);
        let mut j: usize = 0;
        while j < cs.len()
            invariant
                j <= cs@.len(),
                cs@ == text@,
                has_i == exists|k: int| 0 <= k < j && cs@[k] == 'i',
            decreases cs@.len() - j,
        {
            if cs[j] == 'i' {
                has_i = true;
            }
            j += 1;
        }
    }
    Expr::Regex(build_string(pieces), flag && has_i)
}

/// A lambda: its body, where the identifiers that name its parameters
/// become bindings of them.
pub fn build_lambda(names: Vec<String>, body: Expr) -> (r: Expr)
    ensures
        expr_view(r) == ExprV::Lambda(
            names_view(names@),
            Box::new(bound(expr_view(body), names_view(names@))),
        ),
{
    let mut inner = body;
    inner.bind_lambda_args(&names);
    Expr::Lambda(names, Box::new(inner))
}

/// What `str::to_lowercase` of std gives back for a text: its lowercase
/// equivalent under the Unicode rules.
pub uninterp spec fn unicode_lowercase(s: Seq<char>) -> Seq<char>;

/// The lowercase equivalent of a text (`str::to_lowercase` of std).
#[verifier::external_body]
fn to_lowercase(s: &str) -> (r: String)
    ensures
        r@ == unicode_lowercase(s@),
{
    s.to_lowercase()
}

/// A call: the name of the function is matched without regard to case, so
/// the parser writes it in lowercase.
pub fn build_func(name: &str, args: Vec<(Option<String>, Expr)>) -> (r: Expr)
    ensures
        expr_view(r) == ExprV::Func(unicode_lowercase(name@), args_view(args@)),
{
    let lower = to_lowercase(name);
    Expr::Func(FunctionCall::with_named_args(lower.as_str(), args))
}

/// A bound of a star slice, out of the literal that the grammar allows
/// there.
pub fn star_bound_of(e: Expr) -> (r: StarBound)
    requires
        e is Int || e is Str,
    ensures
        star_bound_view(r) == match expr_view(e) {
            ExprV::Int(i) => StarBoundV::Integer(i),
            ExprV::Str(s) => StarBoundV::Str(s),
            _ => StarBoundV::Integer(0),
        },
{
    match e {
        Expr::Int(i) => StarBound::Integer(i),
        Expr::Str(s) => StarBound::Str(s),
        _ => StarBound::Integer(0),
    }
}

/// The CSS selector that a scraping block selects with: trimmed, and, where
/// it starts with `& `, scoped to the current element.
pub open spec fn css_of(t: Seq<char>) -> Seq<char> {
    let c = trimmed(t);
    if c.len() >= 2 && c[0] == '&' && c[1] == ' ' {
        ":scope"@ + c.skip(1)
    } else {
        c
    }
}

/// The expression that selects, in a scraper, what a CSS selector matches.
pub fn parse_css_selector(text: &str) -> (r: Expr)
    ensures
        expr_view(r) == call1("one"@, ExprV::Str(css_of(text@))),
{
    let cs = chars_of(text);
    let t = trim_chars(cs.as_slice());
    let css = if t.len() >= 2 && t[0] == '&' && t[1] == ' ' {
        let mut out = ":scope".to_owned();
        let mut i: usize = 1;
        while i < t.len()
            invariant
                1 <= i <= t@.len(),
                out@ == ":scope"@ + t@.subrange(1, i as int),
            decreases t@.len() - i,
        {
            push_char(&mut out, t[i]);
            i += 1;
            assert(t@.subrange(1, i as int) == t@.subrange(1, i - 1).push(t@[i - 1]));
        }
        assert(t@.subrange(1, i as int) == t@.skip(1));
        out
    } else {
        string_from_chars(t.as_slice())
    };
    call1_of("one", Expr::Str(css))
}

/// An aggregation: its name, the function it computes and the arguments of
/// that function.
#[derive(Debug, PartialEq)]
pub struct Aggregation {
    pub agg_name: String,
    pub args: Vec<Expr>,
    pub func_name: String,
}

/// The arguments of a call, without their names.
pub open spec fn arg_values(args: Seq<(Option<Seq<char>>, ExprV)>) -> Seq<ExprV> {
    args.map_values(|a: (Option<Seq<char>>, ExprV)| a.1)
}

impl Aggregation {
    /// The aggregation named `agg_name` that a call computes.
    pub fn from_call(agg_name: String, call: FunctionCall) -> (r: Aggregation)
        ensures
            r.agg_name@ == agg_name@,
            r.func_name@ == call.name@,
            list_view(r.args@) == arg_values(args_view(call.args@)),
    {
        let FunctionCall { name, args } = call;
        let ghost orig = args@;
        let mut rest = args;
        let mut out: Vec<Expr> = Vec::new();
        let ghost mut k: int = 0;
        while rest.len() > 0
            invariant
                0 <= k <= orig.len(),
                rest@ == orig.skip(k),
                list_view(out@) == arg_values(args_view(orig.take(k))),
            decreases rest@.len(),
        {
            let (_, e) = rest.remove(0);
            let ghost before = out@;
            out.push(e);
            proof {
                assert(out@.drop_last() == before);
                assert(orig.take(k + 1).drop_last() == orig.take(k));
                assert(arg_values(args_view(orig.take(k + 1))) =~= arg_values(
                    args_view(orig.take(k)),
                ).push(expr_view(e)));
                k = k + 1;
            }
        }
        assert(orig.take(k) == orig);
        Aggregation { agg_name, args: out, func_name: name }
    }
}

/// A value that a scraper extracts: its name, the expression that gets it,
/// and what then processes it.
#[derive(Debug, PartialEq)]
pub struct ScrapingLeaf {
    pub name: String,
    pub expr: Expr,
    pub processing: Option<Expr>,
}

/// What a scraping block holds: nested blocks and values.
#[derive(Debug, PartialEq)]
pub enum ScrapingNode {
    Brackets(ScrapingBrackets),
    Leaf(ScrapingLeaf),
}

/// A scraping block: what it selects, and what it holds.
#[derive(Debug, PartialEq)]
pub struct ScrapingBrackets {
    pub selection_expr: Expr,
    pub nodes: Vec<ScrapingNode>,
}


proof fn lemma_digit_char(x: nat)
    requires
        x < 10,
    ensures
        digit_char(x) as int - '0' as int == x,
        is_digit(digit_char(x)),
{
}

proof fn lemma_decimal_digits(m: nat)
    ensures
        decimal(m).len() > 0,
        all_digits(decimal(m)),
        digits_value(decimal(m)) == m,
    decreases m,
{
    if m >= 10 {
        lemma_decimal_digits(m / 10);
        lemma_digit_char(m % 10);
        let d = decimal(m / 10);
        assert(decimal(m).drop_last() == d);
        assert(digits_value(decimal(m)) == digits_value(d) * 10 + (m % 10));
        assert((m / 10) * 10 + m % 10 == m) by (nonlinear_arith);
        assert(digits_value(decimal(m)) == m);
        assert forall|i: int| 0 <= i < decimal(m).len() implies is_digit(#[trigger] decimal(m)[i]) by {
            if i < d.len() {
                assert(decimal(m)[i] == d[i]);
            }
        }
    } else {
        lemma_digit_char(m);
        assert(decimal(m).drop_last() == Seq::<char>::empty());
        assert(digits_value(Seq::<char>::empty()) == 0);
        assert(digits_value(decimal(m)) == m);
    }
}

proof fn lemma_no_underscore_kept(s: Seq<char>)
    requires
        all_digits(s),
    ensures
        without_underscores(s) == s,
    decreases s.len(),
{
    reveal(Seq::filter);
    if s.len() > 0 {
        assert(all_digits(s.drop_last())) by {
            assert forall|i: int| 0 <= i < s.drop_last().len() implies is_digit(
                #[trigger] s.drop_last()[i],
            ) by {
                assert(s.drop_last()[i] == s[i]);
            }
        }
        lemma_no_underscore_kept(s.drop_last());
        assert(is_digit(s[s.len() - 1]));
        assert(s.drop_last().push(s.last()) == s);
    }
}

proof fn lemma_negative_literal(m: nat)
    requires
        0 < m <= 9223372036854775808,
    ensures
        i64_literal_value(without_underscores(seq!['-'] + decimal(m))) == Some(-m),
{
    lemma_decimal_digits(m);
    lemma_no_underscore_kept(decimal(m));
    let s = seq!['-'] + decimal(m);
    assert(without_underscores(seq!['-']) == seq!['-']) by {
        reveal(Seq::filter);
        assert(seq!['-'].drop_last() == Seq::<char>::empty());
    }
    Seq::filter_distributes_over_add(seq!['-'], decimal(m), |c: char| c != '_');
    assert(without_underscores(s) == s);
    assert(s.skip(1) == decimal(m));
    assert(literal_body(s) == decimal(m));
}

/// Reading an integer literal gives back the integer whose decimal
/// rendering it is: `parse_int` reads what `push_signed_decimal` writes.
pub proof fn law_parse_int_reads_decimal(n: i64)
    ensures
        i64_literal_value(without_underscores(signed_decimal(n as int))) == Some(n as int),
{
    if n < 0 {
        lemma_negative_literal((-(n as int)) as nat);
    } else {
        lemma_decimal_digits(n as nat);
        lemma_no_underscore_kept(decimal(n as nat));
        assert(is_digit(decimal(n as nat)[0]));
    }
}

/// Threading a value into a call keeps the number and the names of its
/// arguments, puts the value in place of each underscore among them, and
/// leaves the arguments that are neither underscores nor calls as they are.
pub proof fn law_fill_underscore(args: Seq<(Option<Seq<char>>, ExprV)>, w: ExprV)
    ensures
        filled_args(args, w).len() == args.len(),
        forall|i: int|
            0 <= i < args.len() ==> (#[trigger] filled_args(args, w)[i]).0 == args[i].0,
        forall|i: int|
            0 <= i < args.len() && args[i].1 == ExprV::Underscore ==> (
            #[trigger] filled_args(args, w)[i]).1 == w,
        forall|i: int|
            0 <= i < args.len() && !(args[i].1 is Underscore) && !(args[i].1 is Func) ==> (
            #[trigger] filled_args(args, w)[i]).1 == args[i].1,
    decreases args.len(),
{
    if args.len() > 0 {
        let f = filled_args(args, w);
        let g = filled_args(args.drop_last(), w);
        law_fill_underscore(args.drop_last(), w);
        assert forall|i: int| 0 <= i < args.len() - 1 implies f[i] == g[i] && args.drop_last()[i]
            == args[i] by {}
        let last = args.len() - 1;
        assert(f[last] == (args[last].0, filled_arg(args[last].1, w)));
    }
}

/// Negating the text of an unsigned float literal twice gives it back.
pub proof fn law_negated_text_involutive(t: Seq<char>)
    requires
        t.len() == 0 || t[0] != '-',
    ensures
        negated_text(negated_text(t)) == t,
{
    assert((seq!['-'] + t).skip(1) == t);
}

} // verus!
