use xan::stats::stats_headers;

#[test]
fn stats_headers_follow_what_is_computed() {
    assert_eq!(
        stats_headers(false, false, false),
        vec![
            "field", "count", "count_empty", "type", "types", "sum", "mean", "variance", "stddev",
            "min", "max", "lex_first", "lex_last", "min_length", "max_length"
        ]
    );
    let all = stats_headers(true, true, true);
    assert_eq!(all.len(), 25);
    assert_eq!(&all[7..10], &["q1", "median", "q3"]);
    assert_eq!(&all[14..18], &["approx_cardinality", "approx_q1", "approx_median", "approx_q3"]);
    assert_eq!(&all[18..21], &["cardinality", "mode", "tied_for_mode"]);
}
