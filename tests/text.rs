use workflowy::cli::Format;
use workflowy::text::{ends_with, is_white_char, trim};

#[test]
fn trim_removes_surrounding_white_space() {
    assert_eq!(trim("  a b \t\n".to_string()), "a b");
    assert_eq!(trim("\u{3000}x\u{a0}".to_string()), "x");
    assert_eq!(trim("   ".to_string()), "");
    assert_eq!(trim("".to_string()), "");
}

#[test]
fn white_space_agrees_with_std() {
    for c in ['\t', '\n', ' ', '\u{85}', '\u{a0}', '\u{2003}', '\u{3000}', 'a', '_', '\u{200b}'] {
        assert_eq!(is_white_char(c), c.is_whitespace());
    }
}

#[test]
fn ends_with_checks_suffix() {
    assert!(ends_with("abc-42", "42"));
    assert!(ends_with("42", "42"));
    assert!(ends_with("abc", ""));
    assert!(!ends_with("2", "42"));
    assert!(!ends_with("abc-43", "42"));
}

#[test]
fn format_names() {
    assert_eq!(Format::from_str("anki-dict").unwrap(), Format::AnkiDict);
    assert_eq!(Format::from_str("csv").unwrap_err().msg, "Can't parse format \"csv\"");
}
