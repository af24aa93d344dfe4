use gs_rs::numbers::{decimal_string, is_number, parse_id};
use gs_rs::text::{join_str, join_text, split_str};

#[test]
fn split_keeps_empty_pieces() {
    assert_eq!(split_str("a  b", ' '), vec!["a", "", "b"]);
    assert_eq!(split_str("", '\n'), vec![""]);
    assert_eq!(split_str("x\n", '\n'), vec!["x", ""]);
}

#[test]
fn join_undoes_split() {
    let parts = split_str("VERTEX_SE2 1 2.5 -3 0", ' ');
    assert_eq!(join_str(&parts, " "), "VERTEX_SE2 1 2.5 -3 0");
    assert_eq!(join_text(&parts, ", "), "VERTEX_SE2, 1, 2.5, -3, 0");
}

#[test]
fn decimal_text_of_integers() {
    assert_eq!(decimal_string(0), "0");
    assert_eq!(decimal_string(907), "907");
    assert_eq!(decimal_string(usize::MAX), usize::MAX.to_string());
}

#[test]
fn identifiers() {
    assert_eq!(parse_id("0"), Some(0));
    assert_eq!(parse_id("0042"), Some(42));
    assert_eq!(parse_id(""), None);
    assert_eq!(parse_id("-1"), None);
    assert_eq!(parse_id("1.0"), None);
    assert_eq!(parse_id(&usize::MAX.to_string()), Some(usize::MAX));
    assert_eq!(parse_id("18446744073709551616000"), None);
}

#[test]
fn number_text() {
    for t in ["0", "-1", "+2.5", "3.", ".5", "1e10", "-1.5E-3", "7e+2"] {
        assert!(is_number(t), "{}", t);
    }
    for t in ["", "-", ".", "e5", "1e", "1.2.3", "1 2", "nan", "0x10", "1e+"] {
        assert!(!is_number(t), "{}", t);
    }
}
