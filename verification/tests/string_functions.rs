use xan::string_functions::{count, endswith, first, last, replace, startswith};

const SAMPLES: [&str; 8] = ["", "a", "abc", "aaaa", "abcabc", "héllo wörld", "a,b,,c", "ééé"];
const PATTERNS: [&str; 7] = ["", "a", "aa", "bc", "é", ",", "zz"];

#[test]
fn replace_is_std_replace() {
    for s in SAMPLES {
        for p in PATTERNS {
            assert_eq!(replace(s, p, "<>"), s.replace(p, "<>"), "{:?} {:?}", s, p);
        }
    }
    assert_eq!(replace("abc", "", "X"), "XaXbXcX");
    assert_eq!(replace("aaaa", "aa", "b"), "bb");
}

#[test]
fn count_is_std_matches_count() {
    for s in SAMPLES {
        for p in PATTERNS {
            assert_eq!(count(s, p), s.matches(p).count(), "{:?} {:?}", s, p);
        }
    }
    assert_eq!(count("aaaa", "aa"), 2);
}

#[test]
fn prefixes_and_suffixes() {
    for s in SAMPLES {
        for p in PATTERNS {
            assert_eq!(startswith(s, p), s.starts_with(p));
            assert_eq!(endswith(s, p), s.ends_with(p));
        }
    }
}

#[test]
fn first_and_last_characters() {
    assert_eq!(first("héllo"), Some('h'));
    assert_eq!(last("héllo"), Some('o'));
    assert_eq!(last("ééé"), Some('é'));
    assert_eq!(first(""), None);
    assert_eq!(last(""), None);
}
