use dnd_dashboard::text::{same_text, signed_decimal_string, text_before, to_lower_ascii_string, trim};

#[test]
fn trimming_removes_unicode_whitespace_at_both_ends() {
    assert_eq!(trim("  a b  "), "a b");
    assert_eq!(trim("\u{3000}\u{85}x\u{2029}"), "x");
    assert_eq!(trim(""), "");
    assert_eq!(trim("\t \n"), "");
    assert_eq!(trim("\u{200b}y"), "\u{200b}y");
}

#[test]
fn lowering_touches_only_ascii_letters() {
    assert_eq!(to_lower_ascii_string("AbC-Ä"), "abc-Ä");
}

#[test]
fn text_comparisons() {
    assert!(same_text("héllo", "héllo"));
    assert!(!same_text("a", "ab"));
    assert!(text_before("a", "ab"));
    assert!(text_before("B", "a"));
    assert!(!text_before("b", "b"));
    assert!(text_before("", "a"));
}

#[test]
fn signed_numbers_render() {
    assert_eq!(signed_decimal_string(0), "0");
    assert_eq!(signed_decimal_string(-305), "-305");
    assert_eq!(signed_decimal_string(i64::MAX), "9223372036854775807");
}
