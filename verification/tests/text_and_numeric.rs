use mathcli::numeric::is_numeric_literal;
use mathcli::text::trim;
use mathcli::text::usize_to_string;

#[test]
fn test_trim_strips_outer_whitespace_only() {
    assert_eq!("1", trim("\t\t1"));
    assert_eq!("2", trim("2\t\t"));
    assert_eq!("3", trim("   3   "));
    assert_eq!("a  b", trim("  a  b  "));
    assert_eq!("", trim(""));
    assert_eq!("", trim(" \t\r\n "));
    assert_eq!("x", trim("\u{00a0}\u{2003}x\u{3000}"));
    assert_eq!("A B", trim(" A B "));
}

#[test]
fn test_usize_to_string_renders_decimal() {
    assert_eq!("0", usize_to_string(0));
    assert_eq!("7", usize_to_string(7));
    assert_eq!("30", usize_to_string(30));
    assert_eq!("12345", usize_to_string(12345));
}

#[test]
fn test_numeric_literals_accepted() {
    assert!(is_numeric_literal("0"));
    assert!(is_numeric_literal("42"));
    assert!(is_numeric_literal("+5"));
    assert!(is_numeric_literal("-2.5"));
    assert!(is_numeric_literal("3.0"));
    assert!(is_numeric_literal("5."));
    assert!(is_numeric_literal(".5"));
    assert!(is_numeric_literal("-.5"));
    assert!(is_numeric_literal("1e10"));
    assert!(is_numeric_literal("2.5E-3"));
    assert!(is_numeric_literal("7.e2"));
    assert!(is_numeric_literal("-0.25e+4"));
}

#[test]
fn test_numeric_literals_rejected() {
    assert!(!is_numeric_literal(""));
    assert!(!is_numeric_literal("."));
    assert!(!is_numeric_literal("+"));
    assert!(!is_numeric_literal("+."));
    assert!(!is_numeric_literal("e5"));
    assert!(!is_numeric_literal("1e"));
    assert!(!is_numeric_literal("1e+"));
    assert!(!is_numeric_literal("++1"));
    assert!(!is_numeric_literal("1.2.3"));
    assert!(!is_numeric_literal("1 2"));
    assert!(!is_numeric_literal("notf32"));
    assert!(!is_numeric_literal("0x10"));
}
