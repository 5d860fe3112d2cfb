//! Short links with click analytics: code generation with collision handling,
//! expiry, per-client rate limiting, click recording and statistics.

pub mod text;
pub mod html;
pub mod validate;
pub mod clock;
pub mod rate_limit;
pub mod headers;
pub mod store;
pub mod qr;
pub mod select;
pub mod stats;
pub mod service;
pub mod laws;

pub use clock::{expired_given, is_expired};
pub use headers::{
    client_ip_from_headers, country_from_headers, country_from_headers_or_ip,
    country_from_lookup_reply, geo_lookup_target, RequestHeaders,
};
pub use html::layout;
pub use rate_limit::RateLimiter;
pub use service::{ApiError, AppState, ShortenReq, ShortenResp};
pub use stats::{CountryStat, DailyStats, LinkSummary, RecentClick, StatsResp};
pub use store::{Click, Link, Store};
pub use text::html_escape;
pub use validate::{is_private_or_local_ip, normalize_url, validate_custom_code};
