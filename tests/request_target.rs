use request_target::parse;
use request_target::RequestTarget::{Absolute, Asterisk, Origin};

#[test]
fn test_empty() {
    assert!(matches!(parse(""), None));
}

#[test]
fn test_path() {
    assert!(matches!(parse("/hello"), Some(Origin("/hello"))));
}

#[test]
fn test_path_query() {
    assert!(matches!(parse("/hello?xxx"), Some(Origin("/hello?xxx"))));
}

#[test]
fn test_star() {
    assert!(matches!(parse("*"), Some(Asterisk)));
}

#[test]
fn test_strange_path() {
    assert!(matches!(parse("/http://x"), Some(Origin("/http://x"))));
}

#[test]
fn test_plain_authority_uri() {
    assert!(matches!(
        parse("http://x"),
        Some(Absolute { scheme: "http", authority: "x", path: "" })
    ));
}

#[test]
fn test_uri() {
    assert!(matches!(
        parse("http://x/"),
        Some(Absolute { scheme: "http", authority: "x", path: "/" })
    ));
}

#[test]
fn test_bigger_uri() {
    assert!(matches!(
        parse("http://x:932/hello?world"),
        Some(Absolute { scheme: "http", authority: "x:932", path: "/hello?world" })
    ));
}
