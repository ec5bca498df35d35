use nail::chars::trimmed;

#[test]
fn white_space_is_exactly_what_std_calls_white_space() {
    for u in 0u32..=0x10ffff {
        if let Some(c) = char::from_u32(u) {
            let text = c.to_string();
            assert_eq!(trimmed(&text).is_empty(), c.is_whitespace(), "U+{u:04X}");
        }
    }
}
