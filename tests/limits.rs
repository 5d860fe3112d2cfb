use url_shortener::stats::day_of_nanos;
use url_shortener::{expired_given, is_expired, RateLimiter};

const SEC: i128 = 1_000_000_000;

#[test]
fn limiter_admits_up_to_the_limit_per_key() {
    let mut rl = RateLimiter::new(3, 1_000);
    assert!(rl.allow("a", 0));
    assert!(rl.allow("a", 100));
    assert!(rl.allow("a", 200));
    assert!(!rl.allow("a", 300));
    assert!(rl.allow("b", 300));
    // refused requests are not recorded: the oldest drops out after a second
    assert!(!rl.allow("a", SEC - 1));
    assert!(rl.allow("a", SEC));
    assert!(!rl.allow("a", SEC + 1));
    assert_eq!(rl.limit(), 3);
    assert_eq!(rl.window_ms(), 1_000);
}

#[test]
fn limiter_with_zero_limit_refuses_everything() {
    let mut rl = RateLimiter::new(0, 60_000);
    assert!(!rl.allow("a", 0));
}

#[test]
fn expiry_rules() {
    let y2000 = 946_684_800 * SEC;
    assert!(!is_expired(None, 0));
    assert!(is_expired(Some("not a date"), 0));
    assert!(is_expired(Some("2000-01-01T00:00:00Z"), y2000));
    assert!(!is_expired(Some("2000-01-01T00:00:00Z"), y2000 - 1));
    assert!(is_expired(Some("2000-01-01T02:00:00+02:00"), y2000));
    assert!(!is_expired(Some("2999-01-01T00:00:00Z"), y2000));
}

#[test]
fn days_round_down() {
    let day = 86_400 * SEC;
    assert_eq!(day_of_nanos(0), 0);
    assert_eq!(day_of_nanos(day - 1), 0);
    assert_eq!(day_of_nanos(day), 1);
    assert_eq!(day_of_nanos(-1), -1);
    assert_eq!(day_of_nanos(-day), -1);
    assert_eq!(day_of_nanos(-day - 1), -2);
    assert_eq!(day_of_nanos(1_714_521_600 * SEC), 19_844);
}

#[test]
fn expiry_rule_on_read_values() {
    assert!(!expired_given(None, 5));
    assert!(expired_given(Some(None), 5));
    assert!(expired_given(Some(Some(5)), 5));
    assert!(!expired_given(Some(Some(6)), 5));
}

#[test]
fn a_later_stamp_counts_even_with_an_empty_window() {
    let mut rl = RateLimiter::new(1, 0);
    assert!(rl.allow("k", 100));
    assert!(!rl.allow("k", 50));
    assert!(rl.allow("k", 100));
}
