use url_shortener::html::{PAGE_FOOT, PAGE_HEAD, PAGE_STYLE};
use url_shortener::{html_escape, is_private_or_local_ip, layout, normalize_url, validate_custom_code};

#[test]
fn html_escape_replaces_the_five_specials() {
    assert_eq!(html_escape("a<b>&\"c'"), "a&lt;b&gt;&amp;&quot;c&#39;");
    assert_eq!(html_escape(""), "");
    assert_eq!(html_escape("plain é text"), "plain é text");
    assert_eq!(html_escape("&amp;"), "&amp;amp;");
}

#[test]
fn layout_frames_title_and_body() {
    let page = layout("T<", "<p>x</p>");
    assert_eq!(page, format!("{}T<{}<p>x</p>{}", PAGE_HEAD, PAGE_STYLE, PAGE_FOOT));
    assert!(page.starts_with("<!doctype html>"));
    assert!(page.contains("<title>T<</title>"));
    assert!(page.contains("body { font-family"));
    assert!(page.ends_with("</html>"));
}

#[test]
fn normalize_url_trims_and_checks_scheme() {
    assert_eq!(normalize_url("  https://a.example/x  ").as_deref(), Some("https://a.example/x"));
    assert_eq!(normalize_url("\thttp://a.example\n").as_deref(), Some("http://a.example"));
    assert_eq!(normalize_url("HTTP://a.example"), None);
    assert_eq!(normalize_url("ftp://a.example"), None);
    assert_eq!(normalize_url("https:/a.example"), None);
    assert_eq!(normalize_url(""), None);
    assert_eq!(normalize_url("\u{3000}https://a.example\u{a0}").as_deref(), Some("https://a.example"));
}

#[test]
fn custom_codes_are_checked_for_length_then_charset() {
    assert_eq!(validate_custom_code("abc"), Ok(()));
    assert_eq!(validate_custom_code("A-b_9"), Ok(()));
    assert_eq!(validate_custom_code(&"x".repeat(32)), Ok(()));
    let len_msg = "custom_code must be 3-32 characters".to_string();
    let set_msg = "custom_code must be alphanumeric (plus - and _)".to_string();
    assert_eq!(validate_custom_code("ab"), Err(len_msg.clone()));
    assert_eq!(validate_custom_code(&"x".repeat(33)), Err(len_msg.clone()));
    assert_eq!(validate_custom_code(""), Err(len_msg.clone()));
    assert_eq!(validate_custom_code("a b"), Err(set_msg.clone()));
    assert_eq!(validate_custom_code("a/b"), Err(set_msg.clone()));
    // the length is counted in bytes: two two-byte letters pass it
    assert_eq!(validate_custom_code("éé"), Err(set_msg));
    assert_eq!(validate_custom_code("é"), Err(len_msg));
}

#[test]
fn private_and_loopback_addresses() {
    for ip in [
        "127.0.0.1", "127.0.0.2", "127.255.0.9", "::1", "10.1.2.3", "192.168.0.1", "172.16.0.1",
        "172.20.5.5", "172.31.255.1", "fd12:3456::1", "fc00::1", "fe80::1", "FE80::1", "febf::2",
        "0:0:0:0:0:0:0:1", "::ffff:10.0.0.1", "::FFFF:127.0.0.1", "::ffff:192.168.1.1",
    ] {
        assert!(is_private_or_local_ip(ip), "{ip}");
    }
    for ip in [
        "8.8.8.8", "172.15.0.1", "172.32.0.1", "172.2.0.1", "172.200.1.1", "1.2.3.4", "",
        "2001:db8::1", "fe8::1", "fc::1", "fec0::1", "::2", "::ffff:8.8.8.8",
    ] {
        assert!(!is_private_or_local_ip(ip), "{ip}");
    }
}
