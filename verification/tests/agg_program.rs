use xan::agg_program::{
    get_function_arguments_parser, parse_aggregation_method, split_aggregation_arguments,
    validate_aggregation_function_arity, validate_aggregation_method, ParsedMethod,
    StaticArgument,
};
use xan::planner::{AggregationMethod, CountUnit, MedianType};
use xan::arguments::Arity;
use xan::error::ConcretizationError;
use xan::expr::Expr;
use xan::parser::Aggregation;

fn aggregation(func_name: &str, n: usize) -> Aggregation {
    Aggregation {
        agg_name: func_name.to_string(),
        args: (0..n).map(|_| Expr::Null).collect(),
        func_name: func_name.to_string(),
    }
}

#[test]
fn aggregation_arities() {
    assert_eq!(get_function_arguments_parser("sum").unwrap().arity(), Arity::Strict(1));
    assert_eq!(get_function_arguments_parser("quantile").unwrap().arity(), Arity::Strict(2));
    assert_eq!(get_function_arguments_parser("argtop").unwrap().arity(), Arity::Range(1..=4));
    assert_eq!(get_function_arguments_parser("values").unwrap().arity(), Arity::Range(1..=2));
    assert!(get_function_arguments_parser("nope").is_none());
}

#[test]
fn aggregation_methods_are_checked() {
    assert!(validate_aggregation_method("sum", 0).is_ok());
    assert!(validate_aggregation_method("top", 2).is_ok());
    assert_eq!(
        validate_aggregation_method("nope", 0).unwrap_err(),
        ConcretizationError::UnknownFunction("nope".to_string())
    );
    match validate_aggregation_method("sum", 1).unwrap_err() {
        ConcretizationError::InvalidArity(name, arity) => {
            assert_eq!(name, "sum");
            assert_eq!(arity.got, 2);
            assert_eq!(arity.expected, Arity::Strict(1));
        }
        other => panic!("unexpected error {:?}", other),
    }
}

#[test]
fn older_aggregations_are_checked() {
    assert_eq!(validate_aggregation_function_arity(&aggregation("count", 0)), Ok(()));
    assert_eq!(validate_aggregation_function_arity(&aggregation("argtop", 4)), Ok(()));
    match validate_aggregation_function_arity(&aggregation("mean", 2)) {
        Err(ConcretizationError::InvalidArity(name, arity)) => {
            assert_eq!(name, "mean");
            assert_eq!(arity.got, 2);
            assert_eq!(arity.expected, Arity::Range(1..=1));
        }
        other => panic!("unexpected result {:?}", other),
    }
}

fn number(n: usize) -> StaticArgument {
    StaticArgument {
        is_value: true,
        as_usize: Some(n),
        as_number: true,
        as_str: Some(n.to_string()),
    }
}

fn string(text: &str) -> StaticArgument {
    StaticArgument {
        is_value: true,
        as_usize: None,
        as_number: false,
        as_str: Some(text.to_string()),
    }
}

fn column() -> StaticArgument {
    StaticArgument {
        is_value: false,
        as_usize: None,
        as_number: false,
        as_str: None,
    }
}

#[test]
fn aggregation_methods_read_their_arguments() {
    assert_eq!(
        parse_aggregation_method("mean", &vec![]),
        Ok(ParsedMethod { method: AggregationMethod::Mean, separator: None, size: None })
    );
    assert_eq!(
        parse_aggregation_method("top", &vec![number(3)]),
        Ok(ParsedMethod {
            method: AggregationMethod::Top(3),
            separator: Some("|".to_string()),
            size: Some(3)
        })
    );
    assert_eq!(
        parse_aggregation_method("argtop", &vec![number(2), column(), string(", ")]),
        Ok(ParsedMethod {
            method: AggregationMethod::ArgTop(2),
            separator: Some(", ".to_string()),
            size: Some(2)
        })
    );
    assert_eq!(
        parse_aggregation_method("values", &vec![string(";")]),
        Ok(ParsedMethod {
            method: AggregationMethod::Values,
            separator: Some(";".to_string()),
            size: None
        })
    );
    assert_eq!(
        parse_aggregation_method("sparkline", &vec![]),
        Ok(ParsedMethod { method: AggregationMethod::Sparkline, separator: None, size: Some(10) })
    );
    assert_eq!(
        parse_aggregation_method("top", &vec![column()]),
        Err(ConcretizationError::NotStaticallyAnalyzable)
    );
    assert_eq!(
        parse_aggregation_method("quantile", &vec![string("x")]),
        Err(ConcretizationError::NotStaticallyAnalyzable)
    );
    assert_eq!(
        parse_aggregation_method("nope", &vec![]),
        Err(ConcretizationError::UnknownFunction("nope".to_string()))
    );
}

#[test]
fn aggregation_arguments_are_split() {
    let agg = Aggregation {
        agg_name: "top(3, a)".to_string(),
        args: vec![Expr::Int(3), Expr::Identifier("a".to_string(), false)],
        func_name: "top".to_string(),
    };
    let (expr, pair, rest) = split_aggregation_arguments(agg);
    assert_eq!(expr, Some(Expr::Identifier("a".to_string(), false)));
    assert_eq!(pair, None);
    assert_eq!(rest, vec![Expr::Int(3)]);

    let agg = Aggregation {
        agg_name: "correlation(a, b)".to_string(),
        args: vec![
            Expr::Identifier("a".to_string(), false),
            Expr::Identifier("b".to_string(), false),
        ],
        func_name: "correlation".to_string(),
    };
    let (expr, pair, rest) = split_aggregation_arguments(agg);
    assert_eq!(expr, Some(Expr::Identifier("a".to_string(), false)));
    assert_eq!(pair, Some(Expr::Identifier("b".to_string(), false)));
    assert!(rest.is_empty());

    let agg = Aggregation { agg_name: "count()".to_string(), args: vec![], func_name: "count".to_string() };
    let (expr, pair, rest) = split_aggregation_arguments(agg);
    assert_eq!(expr, None);
    assert_eq!(pair, None);
    assert!(rest.is_empty());
}

#[test]
fn aggregation_methods_keep_their_variant() {
    let method = |name: &str| parse_aggregation_method(name, &vec![]).unwrap().method;
    assert_eq!(method("count_seconds"), AggregationMethod::CountTime(CountUnit::Second));
    assert_eq!(method("count_hours"), AggregationMethod::CountTime(CountUnit::Hour));
    assert_eq!(method("count_days"), AggregationMethod::CountTime(CountUnit::Day));
    assert_eq!(method("count_years"), AggregationMethod::CountTime(CountUnit::Year));
    assert_eq!(method("median"), AggregationMethod::Median(MedianType::Interpolation));
    assert_eq!(method("median_high"), AggregationMethod::Median(MedianType::High));
    assert_eq!(method("median_low"), AggregationMethod::Median(MedianType::Low));
    assert_eq!(method("q1"), AggregationMethod::Quartile(0));
    assert_eq!(method("q2"), AggregationMethod::Quartile(1));
    assert_eq!(method("q3"), AggregationMethod::Quartile(2));
}
