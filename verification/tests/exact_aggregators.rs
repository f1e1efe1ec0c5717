use xan::aggregators::{AllAny, Count, First, Last, Values};
use xan::exact_aggregators::{CellValue, ExactAggregator, ExactAggregators, ExactValue, ValueShape};
use xan::types::Types;
use xan::extent::LexicographicExtent;
use xan::frequencies::Frequencies;
use xan::planner::AggregationMethod;

fn cell(text: &str) -> Option<CellValue> {
    let shape = if text.parse::<i64>().is_ok() {
        ValueShape::Integer
    } else if text.parse::<f64>().is_ok() {
        ValueShape::Float
    } else {
        ValueShape::Other
    };
    Some(CellValue {
        text: text.to_string(),
        truthy: !text.is_empty() && text != "0",
        nullish: text.is_empty(),
        shape,
    })
}

#[test]
fn values_are_routed_to_each_aggregator() {
    let mut aggs = ExactAggregators::new(vec![
        ExactAggregator::AllAny(AllAny::new()),
        ExactAggregator::Count(Count::new()),
        ExactAggregator::First(First::new()),
        ExactAggregator::Last(Last::new()),
        ExactAggregator::LexicographicExtent(LexicographicExtent::new()),
        ExactAggregator::Frequencies(Frequencies::new()),
        ExactAggregator::Values(Values::new()),
    ]);
    for (i, v) in ["pear", "", "apple", "0", "pear"].iter().enumerate() {
        aggs.process_value(i, cell(v));
    }
    let text = |s: &str| Some(ExactValue::Text(s.to_string()));
    assert_eq!(aggs.get_final_value(0, AggregationMethod::All, "|"), Some(ExactValue::Bool(false)));
    assert_eq!(aggs.get_final_value(0, AggregationMethod::Any, "|"), Some(ExactValue::Bool(true)));
    assert_eq!(aggs.get_final_value(1, AggregationMethod::Count, "|"), Some(ExactValue::Count(3)));
    assert_eq!(aggs.get_final_value(2, AggregationMethod::First, "|"), text("pear"));
    assert_eq!(aggs.get_final_value(3, AggregationMethod::Last, "|"), text("pear"));
    assert_eq!(aggs.get_final_value(4, AggregationMethod::LexFirst, "|"), text("0"));
    assert_eq!(aggs.get_final_value(4, AggregationMethod::LexLast, "|"), text("pear"));
    assert_eq!(aggs.get_final_value(5, AggregationMethod::Cardinality, "|"), Some(ExactValue::Count(3)));
    assert_eq!(aggs.get_final_value(6, AggregationMethod::Values, "|"), text("pear|apple|0|pear"));
    assert_eq!(aggs.get_final_value(6, AggregationMethod::Count, "|"), None);
}

#[test]
fn a_missing_value_counts_a_row() {
    let mut aggs = ExactAggregators::new(vec![ExactAggregator::Count(Count::new())]);
    aggs.process_value(0, None);
    aggs.process_value(1, None);
    assert_eq!(aggs.get_final_value(0, AggregationMethod::Count, ","), Some(ExactValue::Count(2)));
}

#[test]
fn nothing_kept_gives_missing() {
    let aggs = ExactAggregators::new(vec![ExactAggregator::First(First::new())]);
    assert_eq!(aggs.get_final_value(0, AggregationMethod::First, ","), Some(ExactValue::Missing));
}

#[test]
fn frequencies_give_modes_and_most_common() {
    let mut aggs = ExactAggregators::new(vec![ExactAggregator::Frequencies(Frequencies::new())]);
    for (i, v) in ["b", "a", "c", "b", "a", "b", ""].iter().enumerate() {
        aggs.process_value(i, cell(v));
    }
    let text = |s: &str| Some(ExactValue::Text(s.to_string()));
    assert_eq!(aggs.get_final_value(0, AggregationMethod::Mode, "|"), text("b"));
    assert_eq!(aggs.get_final_value(0, AggregationMethod::Modes, "|"), text("b"));
    assert_eq!(aggs.get_final_value(0, AggregationMethod::DistinctValues, "|"), text("a|b|c"));
    assert_eq!(aggs.get_final_value(0, AggregationMethod::MostCommonValues(2), ", "), text("b, a"));
    assert_eq!(aggs.get_final_value(0, AggregationMethod::MostCommonCounts(2), ", "), text("3, 2"));
    assert_eq!(aggs.get_final_value(0, AggregationMethod::MostCommonCounts(10), "|"), text("3|2|1"));
}

#[test]
fn frequencies_of_nothing() {
    let aggs = ExactAggregators::new(vec![ExactAggregator::Frequencies(Frequencies::new())]);
    assert_eq!(aggs.get_final_value(0, AggregationMethod::Mode, "|"), Some(ExactValue::Missing));
    assert_eq!(aggs.get_final_value(0, AggregationMethod::Modes, "|"), Some(ExactValue::Missing));
    assert_eq!(aggs.get_final_value(0, AggregationMethod::DistinctValues, "|"), Some(ExactValue::Text(String::new())));
}

#[test]
fn modes_are_all_values_of_the_top_count() {
    let mut aggs = ExactAggregators::new(vec![ExactAggregator::Frequencies(Frequencies::new())]);
    for (i, v) in ["x", "y", "y", "x", "z"].iter().enumerate() {
        aggs.process_value(i, cell(v));
    }
    assert_eq!(aggs.get_final_value(0, AggregationMethod::Modes, "|"), Some(ExactValue::Text("x|y".to_string())));
    assert_eq!(aggs.get_final_value(0, AggregationMethod::Mode, "|"), Some(ExactValue::Text("y".to_string())));
}

#[test]
fn types_are_read_from_values() {
    let mut aggs = ExactAggregators::new(vec![ExactAggregator::Types(Types::new())]);
    for (i, v) in ["12", "3.5", "https://example.com", "", "hello"].iter().enumerate() {
        aggs.process_value(i, cell(v));
    }
    let text = |s: &str| Some(ExactValue::Text(s.to_string()));
    assert_eq!(aggs.get_final_value(0, AggregationMethod::Types, "ignored"), text("string|float|int|url|empty"));
    assert_eq!(aggs.get_final_value(0, AggregationMethod::Type, "ignored"), text("mixed"));
    let mut strings = ExactAggregators::new(vec![ExactAggregator::Types(Types::new())]);
    for (i, v) in ["hello", "http://example.com", ""].iter().enumerate() {
        strings.process_value(i, cell(v));
    }
    assert_eq!(strings.get_final_value(0, AggregationMethod::Type, "|"), text("string"));
    let mut ints = ExactAggregators::new(vec![ExactAggregator::Types(Types::new())]);
    ints.process_value(0, cell("1"));
    ints.process_value(1, cell("2.5"));
    assert_eq!(ints.get_final_value(0, AggregationMethod::Type, "|"), text("float"));
    let empty = ExactAggregators::new(vec![ExactAggregator::Types(Types::new())]);
    assert_eq!(empty.get_final_value(0, AggregationMethod::Type, "|"), Some(ExactValue::Missing));
}
