use netbridge::cookies::parse_cookies;
use netbridge::errors::BridgeError;
use netbridge::http::{parse_method, Method};

fn pair(name: &str, value: &str) -> (String, String) {
    (String::from(name), String::from(value))
}

#[test]
fn parse_method_canonical_names() {
    assert_eq!(parse_method("GET").unwrap(), Method::Get);
    assert_eq!(parse_method("POST").unwrap(), Method::Post);
    assert_eq!(parse_method("PUT").unwrap(), Method::Put);
    assert_eq!(parse_method("DELETE").unwrap(), Method::Delete);
    assert_eq!(parse_method("PATCH").unwrap(), Method::Patch);
    assert_eq!(parse_method("HEAD").unwrap(), Method::Head);
}

#[test]
fn parse_method_is_case_insensitive() {
    assert_eq!(parse_method("get").unwrap(), Method::Get);
    assert_eq!(parse_method("Post").unwrap(), Method::Post);
    assert_eq!(parse_method("dElEtE").unwrap(), Method::Delete);
    assert_eq!(parse_method("head").unwrap(), Method::Head);
}

#[test]
fn parse_method_empty_defaults_to_get() {
    assert_eq!(parse_method("").unwrap(), Method::Get);
}

#[test]
fn parse_method_rejects_unsupported() {
    let err = parse_method("TRACE").unwrap_err();
    match err {
        BridgeError::Configuration(msg) => {
            assert_eq!(msg, "Unsupported HTTP method: TRACE");
        }
        _ => panic!("expected a configuration error"),
    }
}

#[test]
fn method_names_are_canonical() {
    assert_eq!(Method::Get.name(), "GET");
    assert_eq!(Method::Post.name(), "POST");
    assert_eq!(Method::Put.name(), "PUT");
    assert_eq!(Method::Delete.name(), "DELETE");
    assert_eq!(Method::Patch.name(), "PATCH");
    assert_eq!(Method::Head.name(), "HEAD");
}

#[test]
fn parse_cookies_simple_pairs() {
    let out = parse_cookies("a=b; c=d");
    assert_eq!(out, vec![pair("a", "b"), pair("c", "d")]);
}

#[test]
fn parse_cookies_trims_each_part() {
    let out = parse_cookies("  sid=abc ;\ttheme=dark  ");
    assert_eq!(out, vec![pair("sid", "abc"), pair("theme", "dark")]);
}

#[test]
fn parse_cookies_splits_at_first_equals_only() {
    let out = parse_cookies("exp=a=b");
    assert_eq!(out, vec![pair("exp", "a=b")]);
}

#[test]
fn parse_cookies_keeps_inner_spaces() {
    // Trimming touches only the ends of each part; spaces around the
    // equals sign stay with name and value.
    let out = parse_cookies("session = 1");
    assert_eq!(out, vec![pair("session ", " 1")]);
}

#[test]
fn parse_cookies_skips_parts_without_equals() {
    let out = parse_cookies("HttpOnly; sid=abc; Secure");
    assert_eq!(out, vec![pair("sid", "abc")]);
}

#[test]
fn parse_cookies_empty_header() {
    let out = parse_cookies("");
    assert!(out.is_empty());
}

#[test]
fn parse_cookies_empty_name_or_value() {
    assert_eq!(parse_cookies("x="), vec![pair("x", "")]);
    assert_eq!(parse_cookies("=y"), vec![pair("", "y")]);
}

#[test]
fn parse_cookies_last_value_wins() {
    let out = parse_cookies("a=1; b=2; a=3");
    assert_eq!(out, vec![pair("a", "3"), pair("b", "2")]);
}

#[test]
fn error_messages_are_descriptive() {
    assert_eq!(BridgeError::NotFound.message(), "not found");
    assert_eq!(
        BridgeError::Handshake(String::from("refused")).message(),
        "handshake failed: refused"
    );
    assert_eq!(
        BridgeError::Transport(String::from("reset")).message(),
        "transport error: reset"
    );
    assert_eq!(
        BridgeError::Configuration(String::from("bad proxy")).message(),
        "configuration error: bad proxy"
    );
    assert!(BridgeError::NotFound.is_not_found());
    assert!(!BridgeError::Transport(String::from("x")).is_not_found());
}
