use xan::window_buffers::WindowBuffers;

fn row(s: &str) -> Vec<Vec<u8>> {
    vec![s.as_bytes().to_vec()]
}

#[test]
fn rows_come_out_in_order_with_their_neighbours() {
    let mut buffers = WindowBuffers::new(1, 1);
    let mut out: Vec<(usize, Option<usize>, Option<usize>)> = Vec::new();
    for i in 0..5usize {
        let record = row(&format!("r{}", i));
        if buffers.is_filling() {
            buffers.fill(i, &record);
            continue;
        }
        let working = buffers.working_row().unwrap().0;
        let lag = buffers.lag(1).map(|r| r.0);
        let lead = buffers.lead(1).map(|r| r.0);
        let emitted = buffers.advance(i, &record);
        assert_eq!(emitted.0, working);
        assert_eq!(emitted.1, row(&format!("r{}", working)));
        out.push((working, lag, lead));
    }
    assert_eq!(
        out,
        vec![(0, None, Some(1)), (1, Some(0), Some(2)), (2, Some(1), Some(3))]
    );
    assert_eq!(buffers.pending(), 2);
    buffers.clear();
    assert_eq!(buffers.pending(), 0);
    assert!(buffers.is_filling());
}

#[test]
fn without_lookahead_rows_come_out_at_once() {
    let mut buffers = WindowBuffers::new(2, 0);
    assert!(!buffers.is_filling());
    assert!(buffers.working_row().is_none());
    assert_eq!(buffers.advance(0, &row("a")).0, 0);
    assert_eq!(buffers.lag(1).map(|r| r.0), Some(0));
    assert_eq!(buffers.lag(2).map(|r| r.0), None);
    assert_eq!(buffers.advance(1, &row("b")).0, 1);
    assert_eq!(buffers.lag(2).map(|r| r.0), Some(0));
    assert_eq!(buffers.pending(), 0);
}
