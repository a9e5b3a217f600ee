use knowlix::text::is_blank;

#[test]
fn whitespace_agrees_with_std_on_every_character() {
    for u in 0u32..0x11_0000 {
        if let Some(c) = char::from_u32(u) {
            assert_eq!(is_blank(&c.to_string()), c.is_whitespace(), "U+{u:04X}");
        }
    }
    assert!(is_blank(""));
    assert!(is_blank(" \t\u{3000}\u{a0}\n"));
    assert!(!is_blank(" x "));
}
