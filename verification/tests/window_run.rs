use xan::window::WindowAggregationKind;
use xan::window_run::{WindowAggregator, WindowValue};

#[test]
fn row_number_and_row_index_count_rows() {
    let mut n = WindowAggregator::new(WindowAggregationKind::RowNumber);
    let mut i = WindowAggregator::new(WindowAggregationKind::RowIndex);
    for k in 0..4usize {
        assert_eq!(n.run(None), WindowValue::Index(k + 1));
        assert_eq!(i.run(None), WindowValue::Index(k));
    }
    n.clear();
    assert_eq!(n.run(None), WindowValue::Index(1));
}

#[test]
fn cumulative_sum_min_and_max() {
    let values = [3i64, -1, 7, 2];
    let mut sum = WindowAggregator::new(WindowAggregationKind::CumulativeSum);
    let mut min = WindowAggregator::new(WindowAggregationKind::CumulativeMin);
    let mut max = WindowAggregator::new(WindowAggregationKind::CumulativeMax);
    let sums: Vec<WindowValue> = values.iter().map(|v| sum.run(Some(*v))).collect();
    let mins: Vec<WindowValue> = values.iter().map(|v| min.run(Some(*v))).collect();
    let maxs: Vec<WindowValue> = values.iter().map(|v| max.run(Some(*v))).collect();
    let ints = |v: &[i64]| v.iter().map(|x| WindowValue::Integer(*x)).collect::<Vec<_>>();
    assert_eq!(sums, ints(&[3, 2, 9, 11]));
    assert_eq!(mins, ints(&[3, -1, -1, -1]));
    assert_eq!(maxs, ints(&[3, 3, 7, 7]));
}

#[test]
fn cumulative_sum_overflow_stays_missing() {
    let mut sum = WindowAggregator::new(WindowAggregationKind::CumulativeSum);
    assert_eq!(sum.run(Some(i64::MAX)), WindowValue::Integer(i64::MAX));
    assert_eq!(sum.run(Some(1)), WindowValue::Missing);
    assert_eq!(sum.run(Some(-5)), WindowValue::Missing);
    sum.clear();
    assert_eq!(sum.run(Some(-5)), WindowValue::Integer(-5));
}
