use xan::arguments::Arity;
use xan::error::{ConcretizationError, EvaluationError, InvalidArity, ParseError, SpecifiedEvaluationError};
use xan::headers::ColumIndexationBy;

#[test]
fn arity_messages() {
    assert_eq!(
        InvalidArity::from_arity(Arity::Min(2), 1).to_string(),
        "expected at least 2 arguments but got 1"
    );
    assert_eq!(
        InvalidArity::from_arity(Arity::Strict(1), 3).to_string(),
        "expected 1 argument but got 3"
    );
    assert_eq!(
        InvalidArity::from_arity(Arity::Range(2..=3), 10).to_string(),
        "expected between 2 and 3 arguments but got 10"
    );
}

#[test]
fn concretization_messages() {
    assert_eq!(
        ConcretizationError::ColumnNotFound(ColumIndexationBy::Name(b"na\xffme".to_vec()), false).to_string(),
        "cannot find column \"na\u{FFFD}me\""
    );
    assert_eq!(
        ConcretizationError::ColumnNotFound(ColumIndexationBy::Pos(-3), false).to_string(),
        "column -3 out of range"
    );
    assert_eq!(
        ConcretizationError::ColumnNotFound(ColumIndexationBy::NameAndNth(b"a".to_vec(), 2), false).to_string(),
        "cannot find column (\"a\", 2)"
    );
    assert_eq!(
        ConcretizationError::ColumnNotFound(ColumIndexationBy::NameAndNth(b"a".to_vec(), 2), true).to_string(),
        "cannot find column \"a\" by name in a file without header"
    );
    assert_eq!(
        ConcretizationError::UnknownFunction("foo".to_string()).to_string(),
        "unknown function \"foo\""
    );
    assert_eq!(
        ConcretizationError::InvalidArity("len".to_string(), InvalidArity::from_arity(Arity::Strict(1), 0)).to_string(),
        "len: expected 1 argument but got 0"
    );
    assert_eq!(
        ConcretizationError::TooManyArguments(12).to_string(),
        "got 12 arguments. Cannot exceed 8."
    );
    assert_eq!(
        ConcretizationError::ParseError(ParseError::Custom("bad".to_string())).to_string(),
        "could not parse expression: bad"
    );
    assert_eq!(ConcretizationError::NotStaticallyAnalyzable.to_string(), "not statically analyzable");
}

#[test]
fn evaluation_messages() {
    assert_eq!(
        SpecifiedEvaluationError::new("trim", EvaluationError::InvalidPath).to_string(),
        "trim() invalid posix path"
    );
    assert_eq!(
        EvaluationError::ColumnOutOfRange(4).anonymous().to_string(),
        "<expr> column 4 is out of range"
    );
    assert_eq!(
        EvaluationError::plural_clause_misalignment(&["a".to_string(), "b".to_string()], 3)
            .specify("map")
            .to_string(),
        "map() plural clause related to columns (a, b) yielded 3 items instead of 2"
    );
    assert_eq!(
        EvaluationError::Cast {
            from_value: "\"x\"".to_string(),
            from_type: "string".to_string(),
            to_type: "number".to_string()
        }
        .to_string(),
        "cannot safely cast \"x\" from type \"string\" to type \"number\""
    );
}
