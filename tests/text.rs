use hyperion_command::text::{eq_ignore_ascii_case, split_ascii_whitespace};

#[test]
fn splits_on_ascii_whitespace() {
    assert_eq!(split_ascii_whitespace("time set 6000"), vec!["time", "set", "6000"]);
    assert_eq!(split_ascii_whitespace("  a\t\tb\n c\r\x0Cd  "), vec!["a", "b", "c", "d"]);
    assert!(split_ascii_whitespace("").is_empty());
    assert!(split_ascii_whitespace(" \t ").is_empty());
    assert_eq!(split_ascii_whitespace("héllo wörld"), vec!["héllo", "wörld"]);
}

#[test]
fn compares_ignoring_ascii_case() {
    assert!(eq_ignore_ascii_case("Set", "sEt"));
    assert!(eq_ignore_ascii_case("", ""));
    assert!(!eq_ignore_ascii_case("set", "sets"));
    assert!(!eq_ignore_ascii_case("a", "b"));
    assert!(!eq_ignore_ascii_case("[", "{"));
    assert!(!eq_ignore_ascii_case("É", "é"));
}
