use url_shortener::stats::day_of_nanos;
use url_shortener::{
    ApiError, AppState, RateLimiter, RequestHeaders, ShortenReq, ShortenResp,
};

const SEC: i128 = 1_000_000_000;
// 2024-05-01T00:00:00Z
const T0: i128 = 1_714_521_600 * SEC;

fn app() -> AppState {
    AppState::new("http://localhost:3000".to_string(), RateLimiter::new(10, 60_000))
}

fn headers(pairs: &[(&str, &str)]) -> RequestHeaders {
    let mut h = RequestHeaders::new();
    for (k, v) in pairs {
        h.insert(k, v);
    }
    h
}

fn req(url: &str, custom: Option<&str>, expires: Option<&str>) -> ShortenReq {
    ShortenReq {
        url: url.to_string(),
        custom_code: custom.map(|s| s.to_string()),
        expires_at: expires.map(|s| s.to_string()),
    }
}

fn create(state: &mut AppState, r: ShortenReq, ip: &str, now: i128) -> Result<ShortenResp, ApiError> {
    state.shorten_at(&r, &headers(&[("x-forwarded-for", ip)]), now)
}

#[test]
fn can_shorten_and_redirect_and_see_stats() {
    let mut state = app();
    let resp = create(&mut state, req("https://example.com/hello", None, None), "1.2.3.4", T0).unwrap();
    assert_eq!(resp.code.len(), 7);
    assert!(resp.code.chars().all(|c| c.is_ascii_alphanumeric()));
    assert_eq!(resp.short_url, format!("http://localhost:3000/{}", resp.code));
    assert_eq!(resp.qr_png_url, format!("http://localhost:3000/api/links/{}/qr", resp.code));

    let h = headers(&[("x-forwarded-for", "1.2.3.4"), ("cf-ipcountry", "RO")]);
    let target = state.redirect_at(&resp.code, &h, T0 + SEC, None).unwrap();
    assert_eq!(target, "https://example.com/hello");

    let stats = state.query_stats(&resp.code).unwrap();
    assert_eq!(stats.total_clicks, 1);
    assert_eq!(stats.unique_visitors, 1);
    assert!(stats.top_countries.iter().any(|c| c.country == "RO" && c.clicks == 1));
}

#[test]
fn custom_code_conflicts_return_409() {
    let mut state = app();
    let first = create(&mut state, req("https://example.com/a", Some("mycode"), None), "9.9.9.9", T0);
    assert_eq!(first.unwrap().code, "mycode");
    let second = create(&mut state, req("https://example.com/b", Some("mycode"), None), "9.9.9.9", T0);
    assert!(matches!(second, Err(ApiError::Conflict)));
    assert_eq!(state.store.links().len(), 1);
    assert_eq!(state.store.links()[0].target_url, "https://example.com/a");
}

#[test]
fn expired_links_return_410() {
    let mut state = app();
    let r = req("https://example.com/x", Some("exp"), Some("2000-01-01T00:00:00Z"));
    let resp = create(&mut state, r, "2.2.2.2", T0).unwrap();
    assert_eq!(resp.expires_at.as_deref(), Some("2000-01-01T00:00:00Z"));
    let out = state.redirect_at("exp", &RequestHeaders::new(), T0, None);
    assert!(matches!(out, Err(ApiError::Gone)));
    assert_eq!(state.store.clicks().len(), 0);
    assert!(matches!(state.resolve("exp", T0), Err(ApiError::Gone)));
}

#[test]
fn qr_endpoint_returns_png() {
    let mut state = app();
    create(&mut state, req("https://example.com/qr", Some("qr1"), None), "3.3.3.3", T0).unwrap();
    let bytes = state.qr_png("qr1").unwrap();
    assert!(bytes.len() > 100);
    assert_eq!(&bytes[..8], &[137u8, 80, 78, 71, 13, 10, 26, 10]);
    assert!(matches!(state.qr_png("nope"), Err(ApiError::NotFound)));
}

#[test]
fn rate_limit_trips_after_10_requests() {
    let mut state = app();
    for i in 0..10 {
        let r = req(&format!("https://example.com/{i}"), None, None);
        assert!(create(&mut state, r, "4.4.4.4", T0 + i as i128 * SEC).is_ok());
    }
    let over = create(&mut state, req("https://example.com/overflow", None, None), "4.4.4.4", T0 + 10 * SEC);
    match over {
        Err(ApiError::RateLimited { limit, window_ms }) => {
            assert_eq!(limit, 10);
            assert_eq!(window_ms, 60_000);
        }
        other => panic!("expected a rate limit, got {:?}", other),
    }
    assert_eq!(state.store.links().len(), 10);
    // another client in the same window is still admitted
    assert!(create(&mut state, req("https://example.com/other", None, None), "5.5.5.5", T0 + 10 * SEC).is_ok());
    // once the window has passed the first client is admitted again
    assert!(create(&mut state, req("https://example.com/later", None, None), "4.4.4.4", T0 + 61 * SEC).is_ok());
}

#[test]
fn requests_without_address_share_the_local_key() {
    let mut state = AppState::new("http://s".to_string(), RateLimiter::new(1, 60_000));
    let none = RequestHeaders::new();
    assert!(state.shorten_at(&req("https://a.example", None, None), &none, T0).is_ok());
    let r = state.shorten_at(&req("https://b.example", None, None), &none, T0);
    assert!(matches!(r, Err(ApiError::RateLimited { .. })));
}

#[test]
fn invalid_inputs_are_rejected_in_order() {
    let mut state = app();
    let h = headers(&[("x-forwarded-for", "6.6.6.6")]);
    match state.shorten_at(&req("ftp://example.com", Some("x"), Some("bad")), &h, T0) {
        Err(ApiError::InvalidInput(m)) => assert_eq!(m, "url must start with http:// or https://"),
        other => panic!("{:?}", other),
    }
    let mut empty = app();
    let gen = empty.shorten_at(&req("https://example.com", None, None), &h, T0).unwrap();
    assert_eq!(gen.code.len(), 7);
    match state.shorten_at(&req("https://example.com", Some("x"), Some("tomorrow")), &h, T0) {
        Err(ApiError::InvalidInput(m)) => {
            assert_eq!(m, "expires_at must be RFC3339 (e.g. 2026-01-31T00:00:00Z)")
        }
        other => panic!("{:?}", other),
    }
    match state.shorten_at(&req("https://example.com", Some("ab"), None), &h, T0) {
        Err(ApiError::InvalidInput(m)) => assert_eq!(m, "custom_code must be 3-32 characters"),
        other => panic!("{:?}", other),
    }
    match state.shorten_at(&req("https://example.com", Some("bad code"), None), &h, T0) {
        Err(ApiError::InvalidInput(m)) => {
            assert_eq!(m, "custom_code must be alphanumeric (plus - and _)")
        }
        other => panic!("{:?}", other),
    }
    assert_eq!(state.store.links().len(), 0);
}

#[test]
fn target_is_trimmed_and_creator_recorded() {
    let mut state = app();
    let h = headers(&[("x-forwarded-for", " 7.7.7.7 , 10.0.0.1"), ("user-agent", "curl/8")]);
    let resp = state.shorten_at(&req("  https://example.com/t \n", Some("trim_me"), None), &h, T0).unwrap();
    assert_eq!(resp.code, "trim_me");
    let link = &state.store.links()[0];
    assert_eq!(link.target_url, "https://example.com/t");
    assert_eq!(link.created_at, T0);
    assert_eq!(link.created_ip.as_deref(), Some("7.7.7.7"));
    assert_eq!(link.created_user_agent.as_deref(), Some("curl/8"));
}

#[test]
fn generated_codes_resolve_to_their_targets() {
    let mut state = AppState::new("http://s".to_string(), RateLimiter::new(1000, 60_000));
    for i in 0..50 {
        let url = format!("https://example.com/page/{i}");
        let resp = create(&mut state, req(&url, None, None), "8.8.8.8", T0).unwrap();
        assert_eq!(resp.code.len(), 7);
        assert!(resp.code.chars().all(|c| c.is_ascii_alphanumeric()));
        assert_eq!(state.resolve(&resp.code, T0 + SEC).unwrap(), url);
    }
    assert_eq!(state.store.links().len(), 50);
}

#[test]
fn future_expiry_records_one_click_per_resolution() {
    let mut state = app();
    let r = req("https://example.com/f", Some("future"), Some("2999-01-01T00:00:00Z"));
    create(&mut state, r, "1.1.1.1", T0).unwrap();
    for n in 1..=3usize {
        let h = headers(&[("x-forwarded-for", "1.1.1.1")]);
        assert_eq!(state.redirect_at("future", &h, T0 + n as i128 * SEC, None).unwrap(), "https://example.com/f");
        assert_eq!(state.store.clicks().len(), n);
    }
    let click = &state.store.clicks()[2];
    assert_eq!(click.code, "future");
    assert_eq!(click.at, T0 + 3 * SEC);
    assert_eq!(click.ip.as_deref(), Some("1.1.1.1"));
}

#[test]
fn unknown_code_is_not_found() {
    let mut state = app();
    assert!(matches!(state.redirect_at("missing", &RequestHeaders::new(), T0, None), Err(ApiError::NotFound)));
    assert!(matches!(state.query_stats("missing"), Err(ApiError::NotFound)));
    assert!(matches!(state.resolve("missing", T0), Err(ApiError::NotFound)));
}

#[test]
fn click_records_request_metadata() {
    let mut state = app();
    create(&mut state, req("https://example.com/m", Some("meta"), None), "1.1.1.1", T0).unwrap();
    let h = headers(&[
        ("x-forwarded-for", "203.0.113.9"),
        ("user-agent", "Mozilla"),
        ("referer", "https://ref.example"),
        ("cf-ipcity", "Cluj"),
    ]);
    state.redirect_at("meta", &h, T0, Some(" de \n")).unwrap();
    let c = &state.store.clicks()[0];
    assert_eq!(c.ip.as_deref(), Some("203.0.113.9"));
    assert_eq!(c.user_agent.as_deref(), Some("Mozilla"));
    assert_eq!(c.referer.as_deref(), Some("https://ref.example"));
    assert_eq!(c.country.as_deref(), Some("de"));
    assert_eq!(c.city.as_deref(), Some("Cluj"));
    // no address: the sentinel is recorded and no lookup applies
    state.redirect_at("meta", &RequestHeaders::new(), T0, Some("FR")).unwrap();
    let c = &state.store.clicks()[1];
    assert_eq!(c.ip.as_deref(), Some("local"));
    assert_eq!(c.country, None);
    assert_eq!(c.city, None);
}

#[test]
fn stats_count_resolutions_and_distinct_addresses() {
    let mut state = app();
    create(&mut state, req("https://example.com/s", Some("stats"), None), "1.1.1.1", T0).unwrap();
    let visits = [
        ("1.1.1.1", "RO"),
        ("2.2.2.2", "RO"),
        ("1.1.1.1", "DE"),
        ("3.3.3.3", "RO"),
        ("2.2.2.2", ""),
        ("1.1.1.1", "FR"),
        ("1.1.1.1", "DE"),
    ];
    for (i, (ip, country)) in visits.iter().enumerate() {
        let h = headers(&[("x-forwarded-for", ip), ("cf-ipcountry", country)]);
        state.redirect_at("stats", &h, T0 + i as i128 * SEC, None).unwrap();
    }
    let s = state.query_stats("stats").unwrap();
    assert_eq!(s.code, "stats");
    assert_eq!(s.target_url, "https://example.com/s");
    assert_eq!(s.total_clicks, 7);
    assert_eq!(s.unique_visitors, 3);
    let names: Vec<(&str, usize)> = s.top_countries.iter().map(|c| (c.country.as_str(), c.clicks)).collect();
    assert_eq!(names[0], ("RO", 3));
    assert_eq!(names[1], ("DE", 2));
    assert_eq!(names[2], ("FR", 1));
    assert_eq!(names.len(), 3);
    let sum: usize = s.top_countries.iter().map(|c| c.clicks).sum();
    assert!(sum <= s.total_clicks);
    assert_eq!(s.clicks_by_day.len(), 1);
    assert_eq!(s.clicks_by_day[0].day, day_of_nanos(T0));
    assert_eq!(s.clicks_by_day[0].clicks, 7);
    assert_eq!(s.clicks_by_day[0].unique_visitors, 3);
    assert_eq!(s.recent_clicks.len(), 7);
    assert_eq!(s.recent_clicks[0].at, T0 + 6 * SEC);
    assert_eq!(s.recent_clicks[6].at, T0);
}

#[test]
fn stats_caps_days_countries_and_recent_clicks() {
    let mut state = app();
    create(&mut state, req("https://example.com/c", Some("caps"), None), "1.1.1.1", T0).unwrap();
    let day = 86_400 * SEC;
    for i in 0..40i128 {
        let country = format!("C{}", (b'A' + (i % 12) as u8) as char);
        let h = headers(&[("x-forwarded-for", "9.9.9.9"), ("x-country", &country)]);
        state.redirect_at("caps", &h, T0 + i * day, None).unwrap();
    }
    let s = state.query_stats("caps").unwrap();
    assert_eq!(s.total_clicks, 40);
    assert_eq!(s.clicks_by_day.len(), 30);
    assert_eq!(s.clicks_by_day[0].day, day_of_nanos(T0) + 39);
    assert_eq!(s.clicks_by_day[29].day, day_of_nanos(T0) + 10);
    assert!(s.clicks_by_day.iter().all(|d| d.clicks == 1 && d.unique_visitors == 1));
    assert_eq!(s.top_countries.len(), 10);
    assert!(s.top_countries.windows(2).all(|w| w[0].clicks >= w[1].clicks));
    assert_eq!(s.top_countries[0].clicks, 4);
    assert_eq!(s.recent_clicks.len(), 25);
    assert_eq!(s.recent_clicks[0].at, T0 + 39 * day);
    assert_eq!(s.recent_clicks[24].at, T0 + 15 * day);
}

#[test]
fn summaries_list_every_link_newest_first() {
    let mut state = app();
    create(&mut state, req("https://example.com/1", Some("one"), None), "1.1.1.1", T0).unwrap();
    create(&mut state, req("https://example.com/3", Some("three"), Some("2000-01-01T00:00:00Z")), "1.1.1.1", T0 + 2 * SEC).unwrap();
    create(&mut state, req("https://example.com/2", Some("two"), None), "1.1.1.1", T0 + SEC).unwrap();
    let h = headers(&[("x-forwarded-for", "1.2.3.4")]);
    state.redirect_at("one", &h, T0 + 5 * SEC, None).unwrap();
    state.redirect_at("one", &h, T0 + 6 * SEC, None).unwrap();
    let list = state.query_link_summaries(T0 + 10 * SEC);
    let codes: Vec<&str> = list.iter().map(|l| l.code.as_str()).collect();
    assert_eq!(codes, vec!["three", "two", "one"]);
    assert!(list[0].expired);
    assert!(!list[1].expired);
    assert_eq!(list[2].total_clicks, 2);
    assert_eq!(list[2].unique_visitors, 1);
    assert_eq!(list[1].total_clicks, 0);
    assert_eq!(state.list_links().len(), 3);
}

#[test]
fn resolution_goes_gone_at_the_expiry_instant() {
    let mut state = app();
    // 2024-05-01T00:01:00Z
    let r = req("https://example.com/e", Some("edge"), Some("2024-05-01T00:01:00Z"));
    create(&mut state, r, "1.1.1.1", T0).unwrap();
    assert!(state.resolve("edge", T0 + 60 * SEC - 1).is_ok());
    assert!(matches!(state.resolve("edge", T0 + 60 * SEC), Err(ApiError::Gone)));
}

#[test]
fn loopback_range_is_never_looked_up() {
    let h = headers(&[("x-forwarded-for", "127.0.0.2")]);
    assert_eq!(url_shortener::geo_lookup_target(&h), None);
    let mut state = app();
    create(&mut state, req("https://example.com/l", Some("loop"), None), "1.1.1.1", T0).unwrap();
    state.redirect_at("loop", &h, T0, Some("US")).unwrap();
    assert_eq!(state.store.clicks()[0].country, None);
}

#[test]
fn first_free_candidate_is_taken() {
    let mut state = app();
    create(&mut state, req("https://example.com/a", Some("aaaaaaa"), None), "1.1.1.1", T0).unwrap();
    create(&mut state, req("https://example.com/b", Some("bbbbbbb"), None), "1.1.1.1", T0).unwrap();
    let cands: Vec<String> = ["aaaaaaa", "bbbbbbb", "ccccccc", "ddddddd"].iter().map(|s| s.to_string()).collect();
    let got = state.insert_first_free(&cands, "https://example.com/c", &None, &None, &None, T0);
    assert_eq!(got, Some(2));
    assert_eq!(state.store.links().len(), 3);
    assert_eq!(state.store.links()[2].code, "ccccccc");
    assert_eq!(state.resolve("ccccccc", T0).unwrap(), "https://example.com/c");
    let taken: Vec<String> = ["aaaaaaa", "ccccccc"].iter().map(|s| s.to_string()).collect();
    assert_eq!(state.insert_first_free(&taken, "https://example.com/d", &None, &None, &None, T0), None);
    assert_eq!(state.store.links().len(), 3);
}
