use xan::planner::{
    AggregationMethod, AggregatorKind, CompositeAggregator, ConcreteAggregation,
    ConcreteAggregationPlanner,
};

fn agg(name: &str, method: AggregationMethod, key: u64) -> ConcreteAggregation {
    ConcreteAggregation {
        agg_name: name.to_string(),
        method,
        key,
    }
}

#[test]
fn methods_share_their_aggregators() {
    let mut c = CompositeAggregator::new();
    assert_eq!(c.add_method(&AggregationMethod::Count), 0);
    assert_eq!(c.add_method(&AggregationMethod::Ratio), 0);
    assert_eq!(c.add_method(&AggregationMethod::Sum), 1);
    assert_eq!(c.add_method(&AggregationMethod::Mean), 2);
    assert_eq!(c.add_method(&AggregationMethod::VarSample), 2);
    assert_eq!(c.add_method(&AggregationMethod::Percentage), 0);
    assert_eq!(
        c.aggregator_kinds(),
        vec![AggregatorKind::Count, AggregatorKind::Sum, AggregatorKind::Welford]
    );
}

#[test]
fn argument_extents_replace_plain_ones() {
    let mut c = CompositeAggregator::new();
    assert_eq!(c.add_method(&AggregationMethod::Min), 0);
    assert_eq!(c.aggregator_kinds(), vec![AggregatorKind::NumericExtent]);
    assert_eq!(c.add_method(&AggregationMethod::ArgMax), 0);
    assert_eq!(c.aggregator_kinds(), vec![AggregatorKind::ArgExtent]);
    assert_eq!(c.add_method(&AggregationMethod::Max), 0);
    assert_eq!(c.aggregator_kinds(), vec![AggregatorKind::ArgExtent]);

    let mut d = CompositeAggregator::new();
    assert_eq!(d.add_method(&AggregationMethod::ArgMin), 0);
    assert_eq!(d.add_method(&AggregationMethod::Min), 0);
    assert_eq!(d.aggregator_kinds(), vec![AggregatorKind::ArgExtent]);
}

#[test]
fn top_values_are_shared_by_capacity() {
    let mut c = CompositeAggregator::new();
    assert_eq!(c.add_method(&AggregationMethod::Top(3)), 0);
    assert_eq!(c.add_method(&AggregationMethod::ArgTop(3)), 0);
    assert_eq!(c.add_method(&AggregationMethod::Top(5)), 1);
    assert_eq!(
        c.aggregator_kinds(),
        vec![AggregatorKind::ArgTop(3), AggregatorKind::ArgTop(5)]
    );
}

#[test]
fn planner_groups_aggregations_by_key() {
    let planner = ConcreteAggregationPlanner::from_aggregations(vec![
        agg("count()", AggregationMethod::Count, 0),
        agg("sum(a)", AggregationMethod::Sum, 1),
        agg("mean(a)", AggregationMethod::Mean, 1),
        agg("min(b)", AggregationMethod::Min, 2),
        agg("argmin(b)", AggregationMethod::ArgMin, 2),
        agg("max(a)", AggregationMethod::Max, 1),
    ]);
    let keys: Vec<u64> = planner.execution_plan.iter().map(|u| u.key).collect();
    assert_eq!(keys, vec![0, 1, 2]);
    let places: Vec<(usize, usize)> = planner
        .output_plan
        .iter()
        .map(|u| (u.expr_index, u.aggregator_index))
        .collect();
    assert_eq!(places, vec![(0, 0), (1, 0), (1, 1), (2, 0), (2, 0), (1, 2)]);
    assert_eq!(
        planner.execution_plan[1].aggregator_blueprint.aggregator_kinds(),
        vec![AggregatorKind::Sum, AggregatorKind::Welford, AggregatorKind::NumericExtent]
    );
    assert_eq!(
        planner.execution_plan[2].aggregator_blueprint.aggregator_kinds(),
        vec![AggregatorKind::ArgExtent]
    );
    assert_eq!(
        planner.headers(),
        vec!["count()", "sum(a)", "mean(a)", "min(b)", "argmin(b)", "max(a)"]
    );
    let fresh = planner.instantiate_aggregators();
    assert_eq!(fresh.len(), 3);
    assert_eq!(fresh[0].aggregator_kinds(), vec![AggregatorKind::Count]);
}
