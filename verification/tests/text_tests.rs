use fuel_logger::text::trim_str;

#[test]
fn trim_drops_unicode_whitespace_at_both_ends() {
    for s in ["", "   ", "abc", " \t:0103\r\n", "\u{3000}x y\u{2028}\u{85}", "\u{a0}\u{200b}z\u{1680}"] {
        assert_eq!(trim_str(s), s.trim());
    }
    assert_eq!(trim_str("\u{2000} a\u{2009}b \u{205f}"), "a\u{2009}b");
}
