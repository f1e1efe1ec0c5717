use xan::error::ConcretizationError;
use xan::window::{
    concretize_window_aggregation, find_buffer_extent, WelfordStat, WindowAggregationKind,
};
use xan::arguments::{Argument, Arity, FunctionArguments};
use xan::functions::get_function;
use xan::scrape::get_selection_function_arguments;
use xan::window;

#[test]
fn function_arities() {
    assert_eq!(get_function("abs").unwrap().arity(), Arity::Strict(1));
    assert_eq!(get_function("add").unwrap().arity(), Arity::Min(2));
    assert_eq!(get_function("slice").unwrap().arity(), Arity::Range(2..=3));
    assert_eq!(get_function("ymd").unwrap().arity(), Arity::Strict(1));
    assert_eq!(get_function("==").unwrap().arity(), Arity::Strict(2));
    assert_eq!(
        get_function("read").unwrap(),
        FunctionArguments::complex(vec![
            Argument::Positional,
            Argument::with_name("encoding"),
            Argument::with_name("errors"),
        ])
    );
    assert!(get_function("nope").is_none());
}

#[test]
fn window_and_selection_arities() {
    assert_eq!(window::get_function("lag").unwrap().arity(), Arity::Range(1..=2));
    assert_eq!(window::get_function("row_index").unwrap().arity(), Arity::Strict(0));
    assert!(window::get_function("mean").is_none());
    assert_eq!(get_selection_function_arguments("parent").unwrap().arity(), Arity::Range(0..=1));
    assert!(get_selection_function_arguments("all").unwrap().validate_arity(3).is_ok());
    assert!(get_selection_function_arguments("nope").is_none());
}

#[test]
fn window_aggregations_are_concretized() {
    assert_eq!(concretize_window_aggregation("lag", 1, None), Ok(WindowAggregationKind::Lag(1)));
    assert_eq!(
        concretize_window_aggregation("lead", 2, Some(3)),
        Ok(WindowAggregationKind::Lead(3))
    );
    assert_eq!(
        concretize_window_aggregation("lead", 2, None),
        Err(ConcretizationError::NotStaticallyAnalyzable)
    );
    assert_eq!(
        concretize_window_aggregation("rolling_avg", 2, Some(5)),
        Ok(WindowAggregationKind::RollingWelford(WelfordStat::Mean, 5))
    );
    assert_eq!(
        concretize_window_aggregation("nope", 1, None),
        Err(ConcretizationError::UnknownFunction("nope".to_string()))
    );
    assert!(matches!(
        concretize_window_aggregation("cumsum", 2, None),
        Err(ConcretizationError::InvalidArity(_, _))
    ));
    assert_eq!(
        find_buffer_extent(&vec![
            WindowAggregationKind::Lag(2),
            WindowAggregationKind::Lead(1),
            WindowAggregationKind::RowNumber,
            WindowAggregationKind::Lag(4),
        ]),
        (4, 1)
    );
}

#[test]
fn special_function_arities() {
    use_special();
}

fn use_special() {
    assert_eq!(
        xan::special_functions::get_special_function("col").unwrap().arity(),
        Arity::Range(1..=2)
    );
    assert_eq!(
        xan::special_functions::get_special_function("cols").unwrap().arity(),
        Arity::Range(0..=2)
    );
    assert_eq!(
        xan::special_functions::get_special_function("and").unwrap().arity(),
        Arity::Min(2)
    );
    assert_eq!(
        xan::special_functions::get_special_function("index").unwrap().arity(),
        Arity::Strict(0)
    );
    assert!(xan::special_functions::get_special_function("len").is_none());
}
