use xan::headers::HeadersIndex;
use xan::select::{overwrite, selection_layout, ExprName, SelectionLayout};

fn bytes(v: &[&str]) -> Vec<Vec<u8>> {
    v.iter().map(|s| s.as_bytes().to_vec()).collect()
}

#[test]
fn selections_overwrite_columns_of_their_name() {
    let index = HeadersIndex::new(bytes(&["name", "age", "name"]), false);
    let names = vec![
        ExprName::Singular("age".to_string()),
        ExprName::Singular("total".to_string()),
        ExprName::Plural(vec!["x".to_string(), "y".to_string()]),
        ExprName::Singular("name".to_string()),
    ];
    let layout = selection_layout(&index, &names);
    assert_eq!(
        layout,
        SelectionLayout {
            mask: vec![Some(3), Some(0), None],
            rest: vec![1, 2],
        }
    );
    let row = overwrite(&layout, &bytes(&["john", "34", "doe"]), &bytes(&["35", "t", "xy", "JOHN"]));
    assert_eq!(row, bytes(&["JOHN", "35", "doe", "t", "xy"]));
}

#[test]
fn headless_files_overwrite_nothing() {
    let index = HeadersIndex::new(bytes(&["a", "b"]), true);
    let layout = selection_layout(&index, &vec![ExprName::Singular("a".to_string())]);
    assert_eq!(layout.mask, vec![None, None]);
    assert_eq!(layout.rest, vec![0]);
}
