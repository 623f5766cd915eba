use dithering::text::same_text;

#[test]
fn equal_texts() {
    assert!(same_text("", ""));
    assert!(same_text("jarvis", "jarvis"));
    assert!(same_text("é\u{3000}x", "é\u{3000}x"));
}

#[test]
fn different_texts() {
    assert!(!same_text("jarvis", "jarvi"));
    assert!(!same_text("jarvis", "jarviS"));
    assert!(!same_text("", " "));
    assert!(!same_text("e", "é"));
    assert!(!same_text("ab", "ba"));
}
