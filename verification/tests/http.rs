use fm_tester::http::{parse_set_cookie, shell_escape};

#[test]
fn parse_set_cookie_basic() {
    let cookie = parse_set_cookie("session=abc123; Path=/; HttpOnly", "example.com").unwrap();
    assert_eq!(cookie.name, "session");
    assert_eq!(cookie.value, "abc123");
    assert_eq!(cookie.path, "/");
    assert!(cookie.http_only);
    assert!(!cookie.secure);
}

#[test]
fn parse_set_cookie_domain_strips_leading_dot_and_flags() {
    let cookie = parse_set_cookie(
        "token=xyz; Domain=.api.example.com; Secure; HttpOnly; Max-Age=3600",
        "fallback.com",
    )
    .unwrap();
    assert_eq!(cookie.domain, "api.example.com");
    assert!(cookie.secure);
    assert!(cookie.http_only);
    assert_eq!(cookie.max_age, Some(3600));
}

#[test]
fn parse_set_cookie_falls_back_to_defaults() {
    let cookie = parse_set_cookie("k=v", "default.com").unwrap();
    assert_eq!(cookie.domain, "default.com");
    assert_eq!(cookie.path, "/");
    assert_eq!(cookie.expires, None);
    assert_eq!(cookie.max_age, None);
}

#[test]
fn parse_set_cookie_empty_value() {
    let cookie = parse_set_cookie("empty=; Path=/", "x.com").unwrap();
    assert_eq!(cookie.value, "");
}

#[test]
fn parse_set_cookie_max_age_follows_u64_parsing() {
    assert_eq!(parse_set_cookie("a=b; Max-Age=+7", "d").unwrap().max_age, Some(7));
    assert_eq!(parse_set_cookie("a=b; Max-Age=-7", "d").unwrap().max_age, None);
    assert_eq!(parse_set_cookie("a=b; Max-Age=18446744073709551615", "d").unwrap().max_age, Some(u64::MAX));
    assert_eq!(parse_set_cookie("a=b; Max-Age=18446744073709551616", "d").unwrap().max_age, None);
    assert_eq!(parse_set_cookie("a=b; Max-Age=", "d").unwrap().max_age, None);
    assert_eq!(parse_set_cookie("a=b; Max-Age=1x", "d").unwrap().max_age, None);
}

#[test]
fn parse_set_cookie_without_equals_and_with_expires() {
    let c = parse_set_cookie("novalue; Expires=Wed, 21 Oct 2015 07:28:00 GMT ;  Path=/api ", "h").unwrap();
    assert_eq!(c.name, "");
    assert_eq!(c.value, "");
    assert_eq!(c.expires.as_deref(), Some("Wed, 21 Oct 2015 07:28:00 GMT"));
    assert_eq!(c.path, "/api");
    let c = parse_set_cookie("a=b=c; Domain=..x", "h").unwrap();
    assert_eq!(c.value, "b=c");
    assert_eq!(c.domain, ".x");
}

#[test]
fn shell_escape_plain_string_unchanged() {
    assert_eq!(shell_escape("hello"), "hello");
}

#[test]
fn shell_escape_keeps_content_visible_with_spaces() {
    let escaped = shell_escape("hello world");
    assert!(escaped.contains("hello world"));
}

#[test]
fn shell_escape_quotes_and_single_quotes() {
    assert_eq!(shell_escape("hello world"), "'hello world'");
    assert_eq!(shell_escape("a$b"), "'a$b'");
    assert_eq!(shell_escape("it's"), "'it'\"'\"'s'");
    assert_eq!(shell_escape(""), "");
}
