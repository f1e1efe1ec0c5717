use xan::merge::{allocate, merge_layout, MergeColumn};

fn bytes(v: &[&str]) -> Vec<Vec<u8>> {
    v.iter().map(|s| s.as_bytes().to_vec()).collect()
}

#[test]
fn merge_layout_prefixes_both_rows() {
    let layout = merge_layout(&bytes(&["name", "count"]), &bytes(&["count", "total", "total"]));
    assert_eq!(layout.output_headers, bytes(&["name", "count", "total", "total"]));
    assert_eq!(
        layout.full_headers,
        bytes(&[
            "current_name",
            "current_count",
            "current_total",
            "current_total",
            "new_name",
            "new_count"
        ])
    );
    assert_eq!(
        layout.columns,
        vec![MergeColumn::Existing(1), MergeColumn::New(2), MergeColumn::New(3)]
    );
    assert_eq!(MergeColumn::New(3).index(), 3);
    assert_eq!(MergeColumn::Existing(1).index(), 1);
}

#[test]
fn allocate_adds_empty_new_cells() {
    let columns = vec![MergeColumn::Existing(0), MergeColumn::New(2)];
    assert_eq!(allocate(&bytes(&["a", "b"]), &columns), bytes(&["a", "b", ""]));
}

#[test]
fn choose_sees_both_rows() {
    assert_eq!(
        xan::merge::choose_headers(&bytes(&["a", "b"])),
        bytes(&["current_a", "current_b", "new_a", "new_b"])
    );
}

#[test]
fn merged_values_are_written_in_place() {
    let working = xan::merge::merge_working_record(&bytes(&["a", "1"]), &bytes(&["a", "2"]));
    assert_eq!(working, bytes(&["a", "1", "a", "2"]));
    let mut current = bytes(&["a", "1", ""]);
    xan::merge::write_merged(
        &mut current,
        &vec![MergeColumn::Existing(1), MergeColumn::New(2), MergeColumn::Existing(1)],
        bytes(&["3", "new", "4"]),
    );
    assert_eq!(current, bytes(&["a", "4", "new"]));
}
