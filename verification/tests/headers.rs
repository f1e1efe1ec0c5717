use xan::headers::{ColumIndexationBy, EvaluationContext, HeadersIndex};

fn index(headless: bool) -> HeadersIndex {
    HeadersIndex::new(
        vec![b"name".to_vec(), b"age".to_vec(), b"name".to_vec(), b"city".to_vec()],
        headless,
    )
}

#[test]
fn lookup_by_name_and_rank() {
    let h = index(false);
    assert_eq!(h.len(), 4);
    assert!(!h.is_empty());
    assert!(!h.is_headless());
    assert_eq!(h.first_by_name(b"name"), Some(0));
    assert_eq!(h.first_by_name(b"nope"), None);
    assert_eq!(h.get(&ColumIndexationBy::Name(b"age".to_vec())), Some(1));
    assert_eq!(h.get(&ColumIndexationBy::NameAndNth(b"name".to_vec(), 1)), Some(2));
    assert_eq!(h.get(&ColumIndexationBy::NameAndNth(b"name".to_vec(), 2)), None);
    assert_eq!(h.get(&ColumIndexationBy::NameAndNth(b"name".to_vec(), -1)), Some(2));
    assert_eq!(h.get(&ColumIndexationBy::NameAndNth(b"name".to_vec(), -2)), Some(0));
    assert_eq!(h.get(&ColumIndexationBy::NameAndNth(b"name".to_vec(), -3)), None);
    assert_eq!(h.header(3), b"city");
}

#[test]
fn lookup_by_position() {
    let h = index(false);
    assert_eq!(h.get(&ColumIndexationBy::Pos(0)), Some(0));
    assert_eq!(h.get(&ColumIndexationBy::Pos(3)), Some(3));
    assert_eq!(h.get(&ColumIndexationBy::Pos(4)), None);
    assert_eq!(h.get(&ColumIndexationBy::Pos(-1)), Some(3));
    assert_eq!(h.get(&ColumIndexationBy::Pos(-4)), Some(0));
    assert_eq!(h.get(&ColumIndexationBy::Pos(-5)), None);
}

#[test]
fn headless_files_have_no_names() {
    let h = index(true);
    assert!(h.is_headless());
    assert_eq!(h.get(&ColumIndexationBy::Name(b"age".to_vec())), None);
    assert_eq!(h.get(&ColumIndexationBy::Pos(1)), Some(1));
    let e = HeadersIndex::empty(false);
    assert!(e.is_empty());
    assert_eq!(e.len(), 0);
}

#[test]
fn evaluation_context_column_index() {
    let ctx = EvaluationContext::new(vec![b"a".to_vec(), b"b".to_vec()]);
    assert_eq!(ctx.get_column_index(&ColumIndexationBy::Name(b"b".to_vec())), Some(1));
    assert_eq!(ctx.get_column_index(&ColumIndexationBy::Pos(2)), None);
    assert!(ColumIndexationBy::Name(vec![]).has_name());
    assert!(ColumIndexationBy::NameAndNth(vec![], 0).has_name());
    assert!(!ColumIndexationBy::Pos(0).has_name());
}
