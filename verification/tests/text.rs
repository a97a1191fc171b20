use clipfarmer::text::is_whitespace;

#[test]
fn whitespace_is_what_char_is_whitespace_says() {
    for code in 0u32..=0x10FFFF {
        if let Some(c) = char::from_u32(code) {
            assert_eq!(is_whitespace(c), c.is_whitespace(), "U+{code:04X}");
        }
    }
}
