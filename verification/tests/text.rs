use xan::text::{is_whitespace, trim};

#[test]
fn white_space_is_std_white_space() {
    for c in (0u32..=0x10ffff).filter_map(char::from_u32) {
        assert_eq!(is_whitespace(c), c.is_whitespace(), "{:?}", c);
    }
}

#[test]
fn trim_strips_unicode_white_space() {
    assert_eq!(trim(" \t hello world\u{3000}\n"), "hello world");
    assert_eq!(trim("\u{a0}"), "");
    assert_eq!(trim("a\u{200b}"), "a\u{200b}");
}
