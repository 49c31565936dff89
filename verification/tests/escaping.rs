use modnut::string_escape::{escape_string_value, unescape_string_value};

#[test]
fn unescaping_an_escaped_value_gives_the_value() {
    for value in ["", "plain", "a \"quoted\" word", "back\\slash", "tab\tnew\nline\r", "\u{0}\u{1f}\u{7f}", "é ü 日本"] {
        assert_eq!(unescape_string_value(&escape_string_value(value)), Some(value.to_string()));
    }
}

#[test]
fn escaped_values_hold_no_control_characters() {
    let escaped = escape_string_value("a\u{0}b\u{7}c\u{1b}d\u{7f}\n");
    assert!(!escaped.chars().any(|c| c.is_ascii_control()));
    assert_eq!(escaped, "a\\x00b\\x07c\\x1bd\\x7f\\n");
}

#[test]
fn unescaping_reads_hex_escapes_of_either_case() {
    assert_eq!(unescape_string_value("\\x4A\\x6b"), Some("Jk".to_string()));
    assert_eq!(unescape_string_value("\\x+9"), Some("\t".to_string()));
}

#[test]
fn unescaping_refuses_broken_escapes() {
    assert_eq!(unescape_string_value("trailing\\"), None);
    assert_eq!(unescape_string_value("\\q"), None);
    assert_eq!(unescape_string_value("\\x4"), None);
    assert_eq!(unescape_string_value("\\xzz"), None);
}

#[test]
fn unescaping_keeps_plain_text() {
    assert_eq!(unescape_string_value("no escapes here"), Some("no escapes here".to_string()));
}
