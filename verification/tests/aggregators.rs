use xan::aggregators::{AllAny, Count, First, Last, Values};
use xan::extent::{Extent, LexicographicExtent};
use xan::frequencies::Frequencies;
use xan::temporal::{AnyTemporal, TemporalExtent, TemporalKind};
use xan::types::{Type, Types};

#[test]
fn count_aggregator() {
    let mut c = Count::new();
    c.add(true);
    c.add(false);
    c.add_truthy();
    c.add_falsey();
    c.add_falsey();
    assert_eq!(c.get_truthy(), 2);
    assert_eq!(c.get_falsey(), 3);
    assert_eq!(c.get_total(), 5);
    let mut d = Count::new();
    d.add(true);
    c.merge(d);
    assert_eq!(c.get_truthy(), 3);
    c.clear();
    assert_eq!(c.get_total(), 0);
}

#[test]
fn all_any_aggregator() {
    let mut a = AllAny::new();
    assert!(a.all() && !a.any());
    a.add(true);
    assert!(a.all() && a.any());
    a.add(false);
    assert!(!a.all() && a.any());
    let mut b = AllAny::new();
    b.add(true);
    b.merge(a);
    assert!(!b.all() && b.any());
}

#[test]
fn first_last_aggregators() {
    let mut f = First::new();
    f.add(3, "c");
    f.add(1, "a");
    assert_eq!(f.first(), Some(&"c"));
    let mut g = First::new();
    g.add(0, "z");
    f.merge(g);
    assert_eq!(f.first(), Some(&"z"));
    let mut l = Last::new();
    l.add(0, "a");
    l.add(5, "b");
    assert_eq!(l.last(), Some(&"b"));
    let mut m = Last::new();
    m.add(2, "q");
    l.merge(m);
    assert_eq!(l.last(), Some(&"b"));
    l.clear();
    assert_eq!(l.last(), None);
}

#[test]
fn values_aggregator() {
    let mut v = Values::new();
    v.add("a".to_string());
    v.add("b".to_string());
    let mut w = Values::new();
    w.add("c".to_string());
    v.merge(w);
    assert_eq!(v.join("|"), "a|b|c");
    v.clear();
    assert_eq!(v.join("|"), "");
}

#[test]
fn types_test_types_aggregator() {
    let mut types = Types::new();

    assert_eq!(types.sorted_types(), Vec::<&str>::new());
    assert_eq!(types.most_likely_type(), None);

    types.set(Type::Int);

    assert_eq!(types.sorted_types(), vec!["int"]);
    assert_eq!(types.most_likely_type(), Some("int"));

    types.set(Type::Float);

    assert_eq!(types.sorted_types(), vec!["float", "int"]);
    assert_eq!(types.most_likely_type(), Some("float"));

    types.set(Type::String);

    assert_eq!(types.sorted_types(), vec!["string", "float", "int"]);
    assert_eq!(types.most_likely_type(), Some("mixed"));
}

#[test]
fn types_most_likely_rules() {
    let mut t = Types::new();
    t.set(Type::Empty);
    assert_eq!(t.most_likely_type(), Some("empty"));
    t.set(Type::Date);
    assert_eq!(t.most_likely_type(), Some("date"));
    t.set(Type::String);
    assert_eq!(t.most_likely_type(), Some("string"));
    let mut u = Types::new();
    u.set(Type::Url);
    u.merge(t);
    assert_eq!(u.sorted_types(), vec!["string", "url", "date", "empty"]);
    assert_eq!(u.most_likely_type(), Some("string"));
    assert_eq!(Type::Zoned.as_str(), "zoned_datetime");
}

fn date(key: i64) -> AnyTemporal {
    AnyTemporal { kind: TemporalKind::Date, key }
}

#[test]
fn temporal_extent() {
    let mut e = TemporalExtent::new();
    assert_eq!(e.earliest(), None);
    e.add(date(5)).unwrap();
    e.add(date(2)).unwrap();
    e.add(date(9)).unwrap();
    assert_eq!(e.earliest(), Some(date(2)));
    assert_eq!(e.lastest(), Some(date(9)));
    let err = e.add(AnyTemporal { kind: TemporalKind::Time, key: 1 }).unwrap_err();
    assert_eq!(
        err,
        "temporal extent attempting to handle incompatible types: date and time (current min: date(2), given value: time(1))"
    );
    let mut f = TemporalExtent::new();
    f.add(date(1)).unwrap();
    e.merge(f);
    assert_eq!(e.earliest(), Some(date(1)));
    assert_eq!(e.lastest(), Some(date(9)));
    e.clear();
    assert_eq!(e.lastest(), None);
}

#[test]
fn numeric_and_lexicographic_extents() {
    let mut e: Extent<i64> = Extent::new();
    e.add(4);
    e.add(-3);
    e.add(10);
    assert_eq!((e.min(), e.max()), (Some(-3), Some(10)));
    let mut l = LexicographicExtent::new();
    l.add("pear");
    l.add("apple");
    l.add("zebra");
    l.add("b");
    assert_eq!(l.first(), Some("apple".to_string()));
    assert_eq!(l.last(), Some("zebra".to_string()));
    let mut m = LexicographicExtent::new();
    m.add("aardvark");
    l.merge(m);
    assert_eq!(l.first(), Some("aardvark".to_string()));
}

#[test]
fn frequencies_aggregator() {
    let mut f = Frequencies::new();
    for v in ["b", "a", "c", "a", "b", "d"] {
        f.add(v.to_string());
    }
    assert_eq!(f.cardinality(), 4);
    assert_eq!(f.mode(), Some("b".to_string()));
    assert_eq!(f.modes(), Some(vec!["b".to_string(), "a".to_string()]));
    assert_eq!(f.most_common(3), vec!["a".to_string(), "b".to_string(), "c".to_string()]);
    assert_eq!(f.most_common_counts(3), vec![2, 2, 1]);
    assert_eq!(f.most_common(10).len(), 4);
    assert_eq!(f.join(","), "a,b,c,d");
    let mut g = Frequencies::new();
    g.add_count("d".to_string(), 5);
    f.merge(g);
    assert_eq!(f.mode(), Some("d".to_string()));
    assert_eq!(f.most_common_counts(1), vec![6]);
    f.clear();
    assert_eq!(f.mode(), None);
    assert_eq!(f.modes(), None);
}

#[test]
fn temporal_values_set_their_type() {
    let mut t = Types::new();
    t.set_from_any_temporal(&AnyTemporal { kind: TemporalKind::Date, key: 3 });
    assert!(t.contains(Type::Date));
    assert!(!t.contains(Type::Zoned));
    t.set_from_any_temporal(&AnyTemporal { kind: TemporalKind::Zoned, key: 3 });
    assert!(t.contains(Type::Zoned));
}

#[test]
fn chunks_merge_in_either_order() {
    let rows = vec![(0usize, "a"), (1, "b"), (2, "c"), (3, "d")];
    let (left, right) = rows.split_at(2);
    let mut f1 = First::new();
    let mut f2 = First::new();
    let mut l1 = Last::new();
    let mut l2 = Last::new();
    for (i, v) in left {
        f1.add(*i, *v);
        l1.add(*i, *v);
    }
    for (i, v) in right {
        f2.add(*i, *v);
        l2.add(*i, *v);
    }
    let (mut f2b, mut l2b) = (f2.clone(), l2.clone());
    f2b.merge(f1.clone());
    l2b.merge(l1.clone());
    f1.merge(f2);
    l1.merge(l2);
    assert_eq!(f1.first(), Some(&"a"));
    assert_eq!(f2b.first(), Some(&"a"));
    assert_eq!(l1.last(), Some(&"d"));
    assert_eq!(l2b.last(), Some(&"d"));

    let words = ["pear", "apple", "fig", "zucchini", "kiwi"];
    let mut whole = LexicographicExtent::new();
    let mut a = LexicographicExtent::new();
    let mut b = LexicographicExtent::new();
    for (i, w) in words.iter().enumerate() {
        whole.add(w);
        if i < 2 {
            a.add(w);
        } else {
            b.add(w);
        }
    }
    a.merge(b);
    assert_eq!(a.first(), whole.first());
    assert_eq!(a.last(), whole.last());
    assert_eq!(a.first(), Some("apple".to_string()));
    assert_eq!(a.last(), Some("zucchini".to_string()));

    let mut fa = Frequencies::new();
    let mut fb = Frequencies::new();
    let mut fw = Frequencies::new();
    for (i, w) in ["x", "y", "x", "z", "x", "y"].iter().enumerate() {
        fw.add(w.to_string());
        if i % 2 == 0 {
            fa.add(w.to_string());
        } else {
            fb.add(w.to_string());
        }
    }
    fa.merge(fb);
    assert_eq!(fa.most_common_counts(3), fw.most_common_counts(3));
    assert_eq!(fa.most_common(3), fw.most_common(3));
}
