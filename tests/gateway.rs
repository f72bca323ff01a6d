use host_bridge::error::BridgeError;
use host_bridge::gateway::{check_external_url, finish_open, has_prefix, is_allowed_scheme, trim_whitespace};

#[test]
fn javascript_link_is_rejected() {
    assert_eq!(check_external_url("javascript:alert(1)"), Err(BridgeError::SchemeRejected));
}

#[test]
fn https_link_is_opened_when_the_opener_succeeds() {
    let link = check_external_url("https://example.com").unwrap();
    assert_eq!(link, "https://example.com");
    assert_eq!(finish_open(Ok(())), Ok(()));
}

#[test]
fn opener_failure_is_reported() {
    assert_eq!(
        finish_open(Err("no handler".to_string())),
        Err(BridgeError::OsOpenError("no handler".to_string()))
    );
}

#[test]
fn link_is_trimmed_before_the_check() {
    assert_eq!(check_external_url("  \thttps://example.com/a \n").unwrap(), "https://example.com/a");
    assert_eq!(check_external_url("  mailto:someone@example.com").unwrap(), "mailto:someone@example.com");
    assert_eq!(check_external_url("tel:+123456 ").unwrap(), "tel:+123456");
    assert_eq!(check_external_url("http://x").unwrap(), "http://x");
}

#[test]
fn other_schemes_are_rejected() {
    for url in [
        "",
        "   ",
        "file:///etc/passwd",
        "example.com",
        "HTTPS://example.com",
        "ftp://example.com",
        "myapp://open",
        "http:/example.com",
        "tel",
        "x https://example.com",
    ] {
        assert_eq!(check_external_url(url), Err(BridgeError::SchemeRejected), "{url}");
    }
}

#[test]
fn scheme_check_is_on_the_prefix_only() {
    assert!(is_allowed_scheme("https://"));
    assert!(is_allowed_scheme("tel:"));
    assert!(!is_allowed_scheme(" https://example.com"));
    assert!(has_prefix("abc", ""));
    assert!(has_prefix("abc", "ab"));
    assert!(!has_prefix("ab", "abc"));
    assert!(!has_prefix("abc", "b"));
}

#[test]
fn trim_agrees_with_std() {
    for s in [
        "",
        " ",
        "\t\n\u{0B}\u{0C}\r x \r\n",
        "\u{85}\u{A0}\u{1680}a b\u{2000}\u{200A}\u{2028}\u{2029}\u{202F}\u{205F}\u{3000}",
        "\u{200B}zero width\u{200B}",
        "inner  space",
        "\u{3000}\u{3000}",
    ] {
        assert_eq!(trim_whitespace(s), s.trim(), "{s:?}");
    }
}

#[test]
fn unicode_space_before_scheme_is_trimmed() {
    assert_eq!(check_external_url("\u{3000}https://example.com\u{A0}").unwrap(), "https://example.com");
    assert_eq!(check_external_url("\u{200B}https://example.com"), Err(BridgeError::SchemeRejected));
}
