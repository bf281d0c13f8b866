use monlam::text::{concat_text, decimal_text, text_less};

#[test]
fn decimal_matches_to_string() {
    for n in [0usize, 7, 10, 42, 99, 100, 12345, usize::MAX] {
        assert_eq!(decimal_text(n), n.to_string());
    }
}

#[test]
fn concat_joins_texts() {
    assert_eq!(concat_text("Box: ", "drums"), "Box: drums");
    assert_eq!(concat_text("", ""), "");
}

#[test]
fn text_order_follows_code_points() {
    assert!(text_less("a", "b"));
    assert!(!text_less("b", "a"));
    assert!(text_less("ab", "abc"));
    assert!(!text_less("abc", "ab"));
    assert!(!text_less("same", "same"));
    assert!(text_less("", "x"));
    assert!(text_less("B", "a"));
    for (a, b) in [("kick", "kicks"), ("Zed", "zed"), ("é", "f"), ("f", "é")] {
        assert_eq!(text_less(a, b), a < b);
    }
}
