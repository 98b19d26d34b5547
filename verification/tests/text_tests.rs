use bouedig::text;
use bouedig::text::{extension_of, is_blank, is_whitespace, str_eq, trim};

#[test]
fn trim_strips_unicode_whitespace_on_both_ends() {
    assert_eq!(trim("  Soup \t\n"), "Soup");
    assert_eq!(trim("\u{3000}Crêpe\u{a0}"), "Crêpe");
    assert_eq!(trim("a b"), "a b");
    assert_eq!(trim(""), "");
    assert_eq!(trim("   "), "");
}

#[test]
fn blank_means_only_whitespace() {
    assert!(is_blank(""));
    assert!(is_blank("   "));
    assert!(is_blank("\t\r\n\u{2003}"));
    assert!(!is_blank(" x "));
}

#[test]
fn whitespace_agrees_with_std() {
    for c in [' ', '\t', '\n', '\u{85}', '\u{a0}', '\u{1680}', '\u{2000}', '\u{200a}', '\u{2028}', '\u{2029}', '\u{202f}', '\u{205f}', '\u{3000}', 'a', '0', '\u{200b}', 'é'] {
        assert_eq!(is_whitespace(c), c.is_whitespace(), "{c:?}");
    }
}

#[test]
fn concat_and_equality() {
    assert_eq!(text::concat("ab", "cd"), "abcd");
    assert!(str_eq("Crêpe", "Crêpe"));
    assert!(!str_eq("Crêpe", "Crepe"));
    assert!(!str_eq("ab", "abc"));
}

#[test]
fn extension_is_text_after_last_dot() {
    assert_eq!(extension_of("photo.png"), "png");
    assert_eq!(extension_of("archive.tar.gz"), "gz");
    assert_eq!(extension_of("noext"), "noext");
    assert_eq!(extension_of("trailing."), "");
}
