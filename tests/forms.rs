use request_target::parse;
use request_target::RequestTarget::{Absolute, Asterisk, Authority, Origin};

#[test]
fn slash_alone_is_origin() {
    assert!(matches!(parse("/"), Some(Origin("/"))));
}

#[test]
fn origin_keeps_everything_after_slash() {
    assert!(matches!(parse("/a b#c@d"), Some(Origin("/a b#c@d"))));
}

#[test]
fn star_with_more_is_not_asterisk() {
    assert!(matches!(parse("**"), Some(Authority("**"))));
    assert!(matches!(parse(" *"), Some(Authority(" *"))));
    assert!(matches!(parse("*x"), Some(Authority("*x"))));
    assert!(parse("*/").is_none());
}

#[test]
fn https_plain_authority() {
    assert!(matches!(
        parse("https://x"),
        Some(Absolute { scheme: "https", authority: "x", path: "" })
    ));
}

#[test]
fn https_splits_like_http() {
    assert!(matches!(
        parse("https://x:932/hello?world"),
        Some(Absolute { scheme: "https", authority: "x:932", path: "/hello?world" })
    ));
}

#[test]
fn absolute_path_may_start_with_other_delimiters() {
    assert!(matches!(
        parse("http://host?q=1"),
        Some(Absolute { scheme: "http", authority: "host", path: "?q=1" })
    ));
    assert!(matches!(
        parse("http://host#frag"),
        Some(Absolute { scheme: "http", authority: "host", path: "#frag" })
    ));
    assert!(matches!(
        parse("http://user@host/"),
        Some(Absolute { scheme: "http", authority: "user", path: "@host/" })
    ));
}

#[test]
fn absolute_with_empty_authority() {
    assert!(matches!(
        parse("http:///x"),
        Some(Absolute { scheme: "http", authority: "", path: "/x" })
    ));
}

#[test]
fn scheme_prefix_lengths() {
    assert!(matches!(
        parse("http://"),
        Some(Absolute { scheme: "http", authority: "", path: "" })
    ));
    assert!(matches!(
        parse("https://"),
        Some(Absolute { scheme: "https", authority: "", path: "" })
    ));
    assert!(parse("http:/").is_none());
    assert!(parse("https:/").is_none());
    assert!(parse("https:/x").is_none());
}

#[test]
fn bare_token_is_authority() {
    assert!(matches!(parse("example.com:8080"), Some(Authority("example.com:8080"))));
    assert!(matches!(parse("http"), Some(Authority("http"))));
    assert!(matches!(parse("https:"), Some(Authority("https:"))));
}

#[test]
fn delimited_bare_token_fails() {
    assert!(parse("foo/bar").is_none());
    assert!(parse("user@host").is_none());
    assert!(parse("host?q").is_none());
    assert!(parse("host#f").is_none());
    assert!(parse("ftp://x").is_none());
    assert!(parse("HTTP://x").is_none());
}

#[test]
fn absolute_parts_join_back() {
    for s in ["http://x", "http://x/", "https://a.b:1/c?d#e", "http://@", "https://"] {
        match parse(s) {
            Some(Absolute { scheme, authority, path }) => {
                assert_eq!(format!("{}://{}{}", scheme, authority, path), s);
            }
            _ => panic!("not absolute: {}", s),
        }
    }
}

#[test]
fn multi_byte_input() {
    assert!(matches!(parse("héllo"), Some(Authority("héllo"))));
    assert!(matches!(
        parse("http://dé/ü"),
        Some(Absolute { scheme: "http", authority: "dé", path: "/ü" })
    ));
    assert!(matches!(
        parse("https://日本"),
        Some(Absolute { scheme: "https", authority: "日本", path: "" })
    ));
    assert!(matches!(parse("/ü"), Some(Origin("/ü"))));
    assert!(parse("é/").is_none());
    assert!(matches!(parse("ééé"), Some(Authority("ééé"))));
}

#[test]
fn parts_are_slices_of_the_input() {
    let owned = String::from("http://x:1/p");
    let base = owned.as_ptr() as usize;
    match parse(&owned) {
        Some(Absolute { scheme, authority, path }) => {
            assert_eq!(scheme.as_ptr() as usize, base);
            assert_eq!(authority.as_ptr() as usize, base + 7);
            assert_eq!(path.as_ptr() as usize, base + 10);
        }
        _ => panic!("not absolute"),
    }
}
