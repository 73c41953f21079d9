use kiyoctl::text::{is_whitespace, trim};

#[test]
fn whitespace_is_what_std_calls_whitespace_for_every_char() {
    for code in 0u32..=0x10ffff {
        if let Some(c) = char::from_u32(code) {
            assert_eq!(is_whitespace(c), c.is_whitespace(), "U+{:04X}", code);
        }
    }
}

#[test]
fn trimming_drops_unicode_spaces_at_both_ends_only() {
    assert_eq!(trim(" fov = wide "), "fov = wide");
    assert_eq!(trim("\u{3000}\u{a0}200\u{2029}\t"), "200");
    assert_eq!(trim("a\u{2003}b"), "a\u{2003}b");
    assert_eq!(trim("\u{200b}x"), "\u{200b}x");
    assert_eq!(trim(" \n "), "");
}
