use url_shortener::{
    client_ip_from_headers, country_from_headers, country_from_headers_or_ip,
    country_from_lookup_reply, geo_lookup_target, RequestHeaders,
};

fn headers(pairs: &[(&str, &str)]) -> RequestHeaders {
    let mut h = RequestHeaders::new();
    for (k, v) in pairs {
        h.insert(k, v);
    }
    h
}

#[test]
fn first_header_of_a_name_wins() {
    let h = headers(&[("a", "1"), ("b", "2"), ("a", "3")]);
    assert_eq!(h.get("a"), Some("1"));
    assert_eq!(h.get("b"), Some("2"));
    assert_eq!(h.get("c"), None);
}

#[test]
fn client_ip_is_first_non_empty_forwarded_entry() {
    let ip = |v: &str| client_ip_from_headers(&headers(&[("x-forwarded-for", v)]));
    assert_eq!(ip("1.2.3.4").as_deref(), Some("1.2.3.4"));
    assert_eq!(ip(" 1.2.3.4 , 5.6.7.8").as_deref(), Some("1.2.3.4"));
    assert_eq!(ip(",1.2.3.4").as_deref(), Some("1.2.3.4"));
    assert_eq!(ip(" , ,9.9.9.9,").as_deref(), Some("9.9.9.9"));
    assert_eq!(ip(""), None);
    assert_eq!(ip(" , "), None);
    assert_eq!(client_ip_from_headers(&RequestHeaders::new()), None);
}

#[test]
fn country_headers_in_priority_order() {
    let c = |pairs: &[(&str, &str)]| country_from_headers(&headers(pairs));
    assert_eq!(c(&[("x-country", "FR"), ("cf-ipcountry", " RO ")]).as_deref(), Some("RO"));
    assert_eq!(c(&[("x-country", "FR"), ("x-geo-country", "DE")]).as_deref(), Some("DE"));
    assert_eq!(c(&[("cf-ipcountry", "  "), ("x-country", "FR")]).as_deref(), Some("FR"));
    assert_eq!(c(&[("x-forwarded-for", "1.1.1.1")]), None);
}

#[test]
fn lookup_only_for_public_addresses_without_country_header() {
    let t = |pairs: &[(&str, &str)]| geo_lookup_target(&headers(pairs));
    assert_eq!(t(&[("x-forwarded-for", "8.8.8.8")]).as_deref(), Some("8.8.8.8"));
    assert_eq!(t(&[("x-forwarded-for", "10.0.0.8")]), None);
    assert_eq!(t(&[("x-forwarded-for", "127.0.0.1")]), None);
    assert_eq!(t(&[("x-forwarded-for", "8.8.8.8"), ("cf-ipcountry", "US")]), None);
    assert_eq!(t(&[]), None);
}

#[test]
fn lookup_replies_must_be_two_letters() {
    assert_eq!(country_from_lookup_reply("US\n").as_deref(), Some("US"));
    assert_eq!(country_from_lookup_reply(" de ").as_deref(), Some("de"));
    assert_eq!(country_from_lookup_reply("USA"), None);
    assert_eq!(country_from_lookup_reply("U"), None);
    assert_eq!(country_from_lookup_reply("12"), None);
    assert_eq!(country_from_lookup_reply("{\"error\": true}"), None);
    assert_eq!(country_from_lookup_reply(""), None);
}

#[test]
fn country_chain_prefers_headers_then_lookup() {
    let public = headers(&[("x-forwarded-for", "8.8.8.8")]);
    assert_eq!(country_from_headers_or_ip(&public, Some("NL")).as_deref(), Some("NL"));
    assert_eq!(country_from_headers_or_ip(&public, Some("error")), None);
    assert_eq!(country_from_headers_or_ip(&public, None), None);
    let hinted = headers(&[("x-forwarded-for", "8.8.8.8"), ("x-geo-country", "IT")]);
    assert_eq!(country_from_headers_or_ip(&hinted, Some("NL")).as_deref(), Some("IT"));
    let private = headers(&[("x-forwarded-for", "192.168.1.1")]);
    assert_eq!(country_from_headers_or_ip(&private, Some("NL")), None);
}
