use xan::expr::{Expr, FunctionCall, Slice};
use xan::parser::{
    build_func, build_identifier, build_infix, build_lambda, build_prefix, build_regex,
    build_string, parse_css_selector, parse_int, star_bound_of, Aggregation, Rule, StringPiece,
};
use xan::expr::StarBound;

fn id(name: &str) -> Expr {
    Expr::Identifier(name.to_string(), false)
}

fn func(name: &str, args: Vec<Expr>) -> Expr {
    Expr::Func(FunctionCall::new(name, args))
}

fn s(text: &str) -> Expr {
    Expr::Str(text.to_string())
}

fn raw(text: &str) -> StringPiece {
    StringPiece::Raw(text.to_string())
}

fn esc(text: &str) -> StringPiece {
    StringPiece::Escape(text.to_string())
}

fn resc(text: &str) -> StringPiece {
    StringPiece::RegexEscape(text.to_string())
}

fn simplified(mut e: Expr) -> Expr {
    e.simplify();
    e
}

fn pipe(lhs: Expr, rhs: Expr) -> Expr {
    build_infix(lhs, Rule::pipe, rhs).unwrap()
}

#[test]
fn integers_are_read_with_their_underscores_dropped() {
    assert_eq!(parse_int("1"), Ok(1));
    assert_eq!(parse_int("1_000"), Ok(1000));
    assert_eq!(parse_int("+5"), Ok(5));
    assert_eq!(parse_int("-9223372036854775808"), Ok(i64::MIN));
    assert_eq!(parse_int("9223372036854775807"), Ok(i64::MAX));
    assert_eq!(parse_int("9223372036854775808"), Err("could not parse int".to_string()));
    assert_eq!(parse_int(""), Err("could not parse int".to_string()));
    assert_eq!(parse_int("-"), Err("could not parse int".to_string()));
    assert_eq!(parse_int("4a"), Err("could not parse int".to_string()));
}

#[test]
fn negative_literals_are_folded() {
    assert_eq!(simplified(build_prefix(Rule::neg, Expr::Int(45))), Expr::Int(-45));
    assert_eq!(
        simplified(build_prefix(Rule::neg, Expr::Float("45.5".to_string()))),
        Expr::Float("-45.5".to_string())
    );
    assert_eq!(
        simplified(build_prefix(Rule::neg, Expr::Float("-2.5".to_string()))),
        Expr::Float("2.5".to_string())
    );
    assert_eq!(simplified(build_prefix(Rule::neg, id("name"))), func("neg", vec![id("name")]));
    assert_eq!(
        simplified(func("add", vec![build_prefix(Rule::neg, Expr::Int(1)), Expr::Int(2)])),
        func("add", vec![Expr::Int(-1), Expr::Int(2)])
    );
    assert_eq!(
        simplified(Expr::List(vec![build_prefix(Rule::neg, Expr::Int(3))])),
        Expr::List(vec![Expr::Int(-3)])
    );
    let once = simplified(func("add", vec![build_prefix(Rule::neg, Expr::Int(7)), id("x")]));
    assert_eq!(simplified(once.duplicate()), once);
}

#[test]
fn prefix_operators_become_calls() {
    assert_eq!(build_prefix(Rule::not, Expr::Int(45)), func("not", vec![Expr::Int(45)]));
    assert_eq!(build_prefix(Rule::neg, id("name")), func("neg", vec![id("name")]));
}

#[test]
fn identifiers_may_be_unsure() {
    assert_eq!(build_identifier("name"), id("name"));
    assert_eq!(build_identifier("name?"), Expr::Identifier("name".to_string(), true));
    assert_eq!(build_identifier("name??"), Expr::Identifier("name".to_string(), true));
}

#[test]
fn strings_are_built_from_their_escapes() {
    assert_eq!(build_string(&vec![raw("test")]), "test");
    assert_eq!(build_string(&vec![raw("  te st  ")]), "  te st  ");
    assert_eq!(build_string(&vec![esc("\""), raw("test"), esc("\"")]), "\"test\"");
    assert_eq!(build_string(&vec![esc("'"), raw("test"), esc("'")]), "'test'");
    assert_eq!(
        build_string(&vec![esc("n"), esc("r"), esc("t"), esc("\\"), esc("'")]),
        "\n\r\t\\'"
    );
}

#[test]
fn regexes_keep_their_own_escapes() {
    assert_eq!(
        build_regex(&vec![raw("test")], "/test/"),
        Expr::Regex("test".to_string(), false)
    );
    assert_eq!(
        build_regex(&vec![raw("test"), StringPiece::RegexFlag], "/test/i"),
        Expr::Regex("test".to_string(), true)
    );
    assert_eq!(
        build_regex(&vec![raw("te"), resc("\\."), raw("st")], "/te\\.st/"),
        Expr::Regex("te\\.st".to_string(), false)
    );
    assert_eq!(
        build_regex(&vec![raw("te"), resc("\\/"), raw("st")], "/te\\/st/"),
        Expr::Regex("te/st".to_string(), false)
    );
    assert_eq!(
        build_regex(&vec![raw("te"), resc("\\n"), raw("st")], "/te\\nst/"),
        Expr::Regex("te\nst".to_string(), false)
    );
}

#[test]
fn function_names_are_lowercased() {
    assert_eq!(
        build_func("ADD", vec![(None, id("count")), (None, Expr::Int(1))]),
        func("add", vec![id("count"), Expr::Int(1)])
    );
    assert_eq!(
        build_func("add", vec![(None, Expr::Int(45)), (Some("plus".to_string()), Expr::Int(5))]),
        Expr::Func(FunctionCall::with_named_args(
            "add",
            vec![(None, Expr::Int(45)), (Some("plus".to_string()), Expr::Int(5))]
        ))
    );
}

#[test]
fn lambda_parameters_are_bound() {
    assert_eq!(
        build_lambda(vec!["x".to_string()], func("add", vec![id("x"), Expr::Int(1)])),
        Expr::Lambda(
            vec!["x".to_string()],
            Box::new(func("add", vec![Expr::LambdaBinding("x".to_string()), Expr::Int(1)]))
        )
    );
    assert_eq!(
        build_lambda(
            vec!["x".to_string(), "y".to_string()],
            func("add", vec![id("x"), id("y")])
        ),
        Expr::Lambda(
            vec!["x".to_string(), "y".to_string()],
            Box::new(func(
                "add",
                vec![Expr::LambdaBinding("x".to_string()), Expr::LambdaBinding("y".to_string())]
            ))
        )
    );
    assert_eq!(
        build_lambda(vec!["x".to_string()], func("add", vec![id("x"), id("age")])),
        Expr::Lambda(
            vec!["x".to_string()],
            Box::new(func("add", vec![Expr::LambdaBinding("x".to_string()), id("age")]))
        )
    );
}

#[test]
fn infix_operators_become_calls() {
    assert_eq!(
        build_infix(Expr::Int(1), Rule::add, Expr::Int(2)),
        Ok(func("add", vec![Expr::Int(1), Expr::Int(2)]))
    );
    assert_eq!(
        build_infix(Expr::Int(2), Rule::pow, Expr::Int(4)),
        Ok(func("pow", vec![Expr::Int(2), Expr::Int(4)]))
    );
    assert_eq!(
        build_infix(Expr::Int(2), Rule::rem, Expr::Int(4)),
        Ok(func("mod", vec![Expr::Int(2), Expr::Int(4)]))
    );
    assert_eq!(
        build_infix(id("a"), Rule::str_eq, id("b")),
        Ok(func("eq", vec![id("a"), id("b")]))
    );
    assert_eq!(
        build_infix(id("a"), Rule::in_op, id("b")),
        Ok(func("contains", vec![id("b"), id("a")]))
    );
    assert_eq!(
        build_infix(id("a"), Rule::not_in, id("b")),
        Ok(func("not", vec![func("contains", vec![id("b"), id("a")])]))
    );
}

#[test]
fn and_or_become_conditionals() {
    assert_eq!(
        build_infix(id("a"), Rule::and, id("b")),
        Ok(func("if", vec![id("a"), id("b"), id("a")]))
    );
    assert_eq!(
        build_infix(id("a"), Rule::or, id("b")),
        Ok(func("if", vec![id("a"), id("a"), id("b")]))
    );
}

#[test]
fn indexing_takes_slices_and_items() {
    assert_eq!(
        build_infix(id("a"), Rule::open_indexing, Expr::Slice(Slice::Closed(1, 3))),
        Ok(func("slice", vec![id("a"), Expr::Int(1), Expr::Int(3)]))
    );
    assert_eq!(
        build_infix(id("a"), Rule::open_indexing, Expr::Slice(Slice::From(1))),
        Ok(func("slice", vec![id("a"), Expr::Int(1)]))
    );
    assert_eq!(
        build_infix(id("a"), Rule::open_indexing, Expr::Slice(Slice::To(3))),
        Ok(func("slice", vec![id("a"), Expr::Int(0), Expr::Int(3)]))
    );
    assert_eq!(
        build_infix(id("a"), Rule::open_indexing, Expr::Int(2)),
        Ok(func("get", vec![id("a"), Expr::Int(2)]))
    );
}

#[test]
fn access_gets_keys_and_calls_methods() {
    assert_eq!(
        build_infix(id("a"), Rule::point, id("b")),
        Ok(func("get", vec![id("a"), s("b")]))
    );
    assert_eq!(
        build_infix(id("a"), Rule::point, Expr::Bool(true)),
        Ok(func("get", vec![id("a"), s("true")]))
    );
    assert_eq!(
        build_infix(id("a"), Rule::point, Expr::Int(1)),
        Ok(func("get", vec![id("a"), Expr::Int(1)]))
    );
    assert_eq!(
        build_infix(id("a"), Rule::point, func("trim", vec![])),
        Ok(func("trim", vec![id("a")]))
    );
    assert_eq!(
        build_infix(id("a"), Rule::point, func("split", vec![s(",")])),
        Ok(func("split", vec![id("a"), s(",")]))
    );
    assert_eq!(
        build_infix(id("a"), Rule::point, Expr::List(vec![])),
        Err("illegal access or call!".to_string())
    );
}

#[test]
fn pipeline_threads_the_left_side() {
    assert_eq!(
        pipe(func("trim", vec![id("count")]), func("len", vec![Expr::Underscore])),
        func("len", vec![func("trim", vec![id("count")])])
    );
    assert_eq!(
        pipe(id("count"), func("add", vec![Expr::Underscore, Expr::Underscore])),
        func("add", vec![id("count"), id("count")])
    );
    assert_eq!(
        pipe(
            id("count"),
            func("add", vec![Expr::Int(1), func("sub", vec![Expr::Int(2), Expr::Underscore])])
        ),
        func("add", vec![Expr::Int(1), func("sub", vec![Expr::Int(2), id("count")])])
    );
    assert_eq!(
        pipe(func("trim", vec![id("count")]), id("len")),
        func("len", vec![func("trim", vec![id("count")])])
    );
    assert_eq!(pipe(id("count"), id("not_a_function")), id("not_a_function"));
    let step1 = pipe(func("trim", vec![id("a")]), func("add", vec![id("a"), id("b")]));
    let step2 = pipe(step1, id("trim"));
    let step3 = pipe(step2, func("add", vec![id("a"), id("b")]));
    let step4 = pipe(step3, id("len"));
    assert_eq!(step4, func("len", vec![func("add", vec![id("a"), id("b")])]));
}

#[test]
fn underscores_within_lists_are_left() {
    assert_eq!(
        pipe(id("x"), func("f", vec![Expr::List(vec![Expr::Underscore])])),
        func("f", vec![Expr::List(vec![Expr::Underscore])])
    );
}

#[test]
fn aggregations_drop_argument_names() {
    let call = FunctionCall::with_named_args(
        "join",
        vec![(None, id("name")), (Some("sep".to_string()), s("|"))],
    );
    let agg = Aggregation::from_call("join(name, '|')".to_string(), call);
    assert_eq!(
        agg,
        Aggregation {
            agg_name: "join(name, '|')".to_string(),
            args: vec![id("name"), s("|")],
            func_name: "join".to_string(),
        }
    );
}

#[test]
fn css_selectors_are_scoped() {
    assert_eq!(parse_css_selector("  h2 > a "), func("one", vec![s("h2 > a")]));
    assert_eq!(parse_css_selector("& > time"), func("one", vec![s(":scope > time")]));
    assert_eq!(parse_css_selector("&.x"), func("one", vec![s("&.x")]));
}

#[test]
fn star_slice_bounds() {
    assert_eq!(star_bound_of(Expr::Int(3)), StarBound::Integer(3));
    assert_eq!(star_bound_of(s("name")), StarBound::Str("name".to_string()));
}

#[test]
fn raw_args_as_ref_lists_the_arguments() {
    let call = FunctionCall::with_named_args(
        "f",
        vec![(None, Expr::Int(1)), (Some("b".to_string()), Expr::Null)],
    );
    assert_eq!(call.raw_args_as_ref(), vec![&Expr::Int(1), &Expr::Null]);
}

#[test]
fn integers_read_back_their_rendering() {
    for n in [0i64, 7, -7, 1234567890, i64::MAX, i64::MIN] {
        assert_eq!(parse_int(&n.to_string()), Ok(n));
    }
}
