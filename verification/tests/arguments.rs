use xan::arguments::{Argument, Arity, FunctionArguments};
use xan::error::{ConcretizationError, InvalidArity};

#[test]
fn argument_with_name_and_optionality() {
    assert_eq!(Argument::with_name("sep"), Argument::Named("sep".to_string()));
    assert!(Argument::with_name("sep").is_optional());
    assert!(Argument::Optional.is_optional());
    assert!(!Argument::Positional.is_optional());
}

#[test]
fn arity_of_builders() {
    assert_eq!(FunctionArguments::nullary().arity(), Arity::Strict(0));
    assert_eq!(FunctionArguments::unary().arity(), Arity::Strict(1));
    assert_eq!(FunctionArguments::binary().arity(), Arity::Strict(2));
    assert_eq!(FunctionArguments::nary(3).arity(), Arity::Strict(3));
    assert_eq!(FunctionArguments::variadic(2).arity(), Arity::Min(2));
    assert_eq!(FunctionArguments::with_range(1..=3).arity(), Arity::Range(1..=3));
    assert_eq!(FunctionArguments::with_range(2..=2).arity(), Arity::Strict(2));
    assert_eq!(FunctionArguments::with_range(3..=1).arity(), Arity::Strict(3));
    assert_eq!(
        FunctionArguments::complex(vec![Argument::Positional, Argument::with_name("x")]).arity(),
        Arity::Range(1..=2)
    );
}

#[test]
fn validate_arity_accepts_exactly_the_range() {
    let f = FunctionArguments::with_range(1..=2);
    assert!(f.validate_arity(0).is_err());
    assert!(f.validate_arity(1).is_ok());
    assert!(f.validate_arity(2).is_ok());
    assert_eq!(
        f.validate_arity(3),
        Err(InvalidArity::from_arity(Arity::Range(1..=2), 3))
    );
    let v = FunctionArguments::variadic(2);
    assert!(v.validate_arity(1).is_err());
    assert!(v.validate_arity(2).is_ok());
    assert!(v.validate_arity(10).is_ok());
    assert_eq!(Arity::Strict(2).validate(1), Err(InvalidArity::from_arity(Arity::Strict(2), 1)));
    assert_eq!(Arity::Min(1).validate(0), Err(InvalidArity::from_arity(Arity::Min(1), 0)));
    assert_eq!(Arity::Min(1).validate(5), Ok(()));
}

#[test]
fn reorder_without_names_keeps_call_order() {
    let f = FunctionArguments::binary();
    let r = f.reorder(vec![(None, 1), (Some("ignored".to_string()), 2)]).unwrap();
    assert_eq!(r, vec![Some(1), Some(2)]);
}

#[test]
fn reorder_with_names() {
    let f = FunctionArguments::complex(vec![
        Argument::Positional,
        Argument::with_name("thousands_sep"),
        Argument::with_name("comma"),
    ]);
    let r = f
        .reorder(vec![(None, 'a'), (Some("comma".to_string()), 'c')])
        .unwrap();
    assert_eq!(r, vec![Some('a'), None, Some('c')]);
    let e = f.reorder(vec![(None, 'a'), (Some("nope".to_string()), 'c')]);
    assert_eq!(e, Err(ConcretizationError::UnknownArgumentName("nope".to_string())));
}

#[test]
fn reorder_reports_an_unknown_name_before_too_many_arguments() {
    let f = FunctionArguments::complex(vec![Argument::Positional, Argument::with_name("comma")]);
    let e = f.reorder(vec![
        (Some("nope".to_string()), 'x'),
        (None, 'a'),
        (None, 'b'),
        (None, 'c'),
    ]);
    assert_eq!(e, Err(ConcretizationError::UnknownArgumentName("nope".to_string())));
}
