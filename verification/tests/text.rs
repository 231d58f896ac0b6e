use rustbus::text::same_text;
use rustbus::text::starts_with;

#[test]
fn texts_are_compared_by_their_characters() {
    assert!(same_text("", ""));
    assert!(same_text("abc", "abc"));
    assert!(same_text("grüße", "grüße"));
    assert!(!same_text("abc", "abd"));
    assert!(!same_text("abc", "ab"));
    assert!(!same_text("", "a"));
    assert!(!same_text("é", "e"));
}

#[test]
fn a_text_begins_with_its_beginnings() {
    assert!(starts_with("", ""));
    assert!(starts_with("abc", ""));
    assert!(starts_with("abc", "a"));
    assert!(starts_with("abc", "abc"));
    assert!(!starts_with("abc", "abcd"));
    assert!(!starts_with("abc", "b"));
    assert!(!starts_with("", "a"));
    assert!(starts_with("äbc", "ä"));
    assert!(starts_with("aäb", "aä"));
    assert!(!starts_with("äbc", "a"));
}

#[test]
fn a_beginning_ends_where_a_character_ends() {
    // the bytes of "e" with an accent behind it begin with the byte of "e"
    assert!(starts_with("e\u{301}", "e"));
    // the bytes of U+00E9 do not begin with the bytes of any one-byte character
    let e_acute = "\u{e9}";
    for b in 0..128u8 {
        let one = String::from(b as char);
        assert!(!starts_with(e_acute, &one));
    }
    // U+0800 is e0 a0 80 and U+0801 is e0 a0 81: two bytes in common, no character
    assert!(!starts_with("\u{800}", "\u{801}"));
}
