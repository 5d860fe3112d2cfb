//! Instants, the RFC 3339 reading of expiry times, and the expiry rule.
//!
//! An instant is a count of nanoseconds since the Unix epoch, UTC.

use vstd::prelude::*;

verus! {

/// The instant that an RFC 3339 text denotes, if the text is valid RFC 3339.
pub uninterp spec fn rfc3339_nanos(s: Seq<char>) -> Option<int>;

/// Relies on `time::OffsetDateTime::parse` with the `Rfc3339` description,
/// read back through `unix_timestamp_nanos`.
#[verifier::external_body]
pub(crate) fn parse_rfc3339(s: &str) -> (r: Option<i128>)
    ensures
        r is Some <==> rfc3339_nanos(s@) is Some,
        r is Some ==> r->0 == rfc3339_nanos(s@)->0,
{
    match time::OffsetDateTime::parse(s, &time::format_description::well_known::Rfc3339) {
        Ok(t) => Some(t.unix_timestamp_nanos()),
        Err(_) => None,
    }
}

/// Relies on `time::OffsetDateTime::now_utc`, read back through
/// `unix_timestamp_nanos`: the current time. Nothing is known of its value.
#[verifier::external_body]
pub(crate) fn now_unix_nanos() -> (r: i128) {
    time::OffsetDateTime::now_utc().unix_timestamp_nanos()
}

/// Whether `text` is a valid RFC 3339 time.
pub open spec fn valid_rfc3339(text: Seq<char>) -> bool {
    rfc3339_nanos(text) is Some
}

/// Expiry rule: no expiry never expires; an expiry that cannot be read has
/// expired; otherwise the link has expired from its expiry instant on.
pub open spec fn expired(expires_at: Option<Seq<char>>, now: int) -> bool {
    match expires_at {
        None => false,
        Some(text) => match rfc3339_nanos(text) {
            None => true,
            Some(at) => now >= at,
        },
    }
}

/// The view of an optional text.
pub open spec fn opt_view(o: Option<&str>) -> Option<Seq<char>> {
    match o {
        None => None,
        Some(s) => Some(s@),
    }
}

/// The expiry rule on an expiry already read: `None` when the link has no
/// expiry, `Some(None)` when its text is not RFC 3339, `Some(Some(at))` for
/// the instant `at`.
pub fn expired_given(expiry: Option<Option<i128>>, now: i128) -> (r: bool)
    ensures
        r == match expiry {
            None => false,
            Some(None) => true,
            Some(Some(at)) => now >= at,
        },
{
    match expiry {
        None => false,
        Some(None) => true,
        Some(Some(at)) => now >= at,
    }
}

/// Whether a link with expiry `expires_at` has expired at `now`.
pub fn is_expired(expires_at: Option<&str>, now: i128) -> (r: bool)
    ensures
        r == expired(opt_view(expires_at), now as int),
{
    let expiry = match expires_at {
        None => None,
        Some(text) => Some(parse_rfc3339(text)),
    };
    expired_given(expiry, now)
}

/// Whether `text` parses as RFC 3339.
pub fn is_valid_rfc3339(text: &str) -> (r: bool)
    ensures
        r == valid_rfc3339(text@),
{
    parse_rfc3339(text).is_some()
}

} // verus!
