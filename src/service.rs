//! The operations of the service: creating, resolving and rendering links.

use vstd::prelude::*;
use rand::Rng;
use crate::clock::{expired, is_expired, is_valid_rfc3339, now_unix_nanos, opt_view, valid_rfc3339};
use crate::headers::{
    client_ip, client_ip_from_headers, click_country, country_from_headers_or_ip, opt_string,
    RequestHeaders,
};
use crate::rate_limit::{admits, allow_step, RateLimiter};
use crate::stats::{
    compute_stats, link_summaries, stats_of, summaries_ok, LinkSummary, StatsResp,
};
use crate::store::{copy_opt, has_code, link_with, own_opt, Click, Link, Store};
use crate::qr::{is_png, qr_fits, png_encode, qr_encode, qr_render};
use crate::text::push_char;
use crate::validate::{
    code_length_message, code_length_ok, code_chars_ok, code_charset_message, normalize_url,
    normalized_url, validate_custom_code,
};

verus! {

/// Why an operation did not succeed.
#[derive(Debug)]
pub enum ApiError {
    /// A malformed URL, expiry or custom code; the text says which.
    InvalidInput(String),
    /// The custom code is taken.
    Conflict,
    /// No link has the code.
    NotFound,
    /// The link has expired.
    Gone,
    /// The client made too many creation requests; the configured policy.
    RateLimited { limit: usize, window_ms: u64 },
    /// An unexpected failure; the text describes it.
    Internal(String),
}

/// A request to create a link.
#[derive(Debug)]
pub struct ShortenReq {
    pub url: String,
    pub custom_code: Option<String>,
    pub expires_at: Option<String>,
}

/// A created link, as its creator sees it.
#[derive(Debug)]
pub struct ShortenResp {
    pub code: String,
    pub short_url: String,
    pub qr_png_url: String,
    pub expires_at: Option<String>,
}

/// Length of a generated code.
pub const CODE_LEN: usize = 7;

/// Smallest width and height of a QR image, in pixels.
pub const QR_MIN_SIZE: u32 = 256;

/// Number of generated codes tried before creation gives up.
pub const MAX_ATTEMPTS: usize = 8;

/// Whether `c` is an ASCII letter or digit.
pub open spec fn is_alnum(c: char) -> bool {
    ('a' <= c <= 'z') || ('A' <= c <= 'Z') || ('0' <= c <= '9')
}

/// The shape of a generated code: seven ASCII letters or digits.
pub open spec fn generated_shape(s: Seq<char>) -> bool {
    s.len() == CODE_LEN && forall|i: int| 0 <= i < s.len() ==> is_alnum(#[trigger] s[i])
}

/// Relies on `rand::thread_rng` sampled with `rand::distributions::Alphanumeric`,
/// which draws from the 62 ASCII letters and digits.
#[verifier::external_body]
fn draw_alphanumeric() -> (c: char)
    ensures
        is_alnum(c),
{
    char::from(rand::thread_rng().sample(rand::distributions::Alphanumeric))
}

/// A random code of seven ASCII letters and digits.
pub fn gen_code() -> (r: String)
    ensures
        generated_shape(r@),
{
    let mut s = String::new();
    let mut i: usize = 0;
    while i < CODE_LEN
        invariant
            i <= CODE_LEN,
            s@.len() == i,
            forall|j: int| 0 <= j < i ==> is_alnum(#[trigger] s@[j]),
        decreases CODE_LEN - i,
    {
        let c = draw_alphanumeric();
        push_char(&mut s, c);
        i = i + 1;
    }
    s
}

/// The key under which a client's creation requests are counted.
pub open spec fn rate_key(h: RequestHeaders) -> Seq<char> {
    match client_ip(h) {
        Some(ip) => ip,
        None => "local"@,
    }
}

/// The key under which a client's creation requests are counted.
pub fn rate_limit_key(headers: &RequestHeaders) -> (r: String)
    ensures
        r@ == rate_key(*headers),
{
    match client_ip_from_headers(headers) {
        Some(ip) => ip,
        None => "local".to_owned(),
    }
}

/// Whether `l` is the link made from these values.
pub open spec fn link_is(
    l: Link,
    code: Seq<char>,
    target: Seq<char>,
    created_at: int,
    expires_at: Option<Seq<char>>,
    ip: Option<Seq<char>>,
    user_agent: Option<Seq<char>>,
) -> bool {
    &&& l.code@ == code
    &&& l.target_url@ == target
    &&& l.created_at == created_at
    &&& opt_string(l.expires_at) == expires_at
    &&& opt_string(l.created_ip) == ip
    &&& opt_string(l.created_user_agent) == user_agent
}

/// The outcome of validating a creation request, before any code is chosen:
/// the message of the first check that fails.
pub open spec fn request_problem(req: ShortenReq) -> Option<Seq<char>> {
    if normalized_url(req.url@) is None {
        Some("url must start with http:// or https://"@)
    } else if req.expires_at is Some && !valid_rfc3339(req.expires_at->0@) {
        Some("expires_at must be RFC3339 (e.g. 2026-01-31T00:00:00Z)"@)
    } else if req.custom_code is Some && !code_length_ok(req.custom_code->0@) {
        Some(code_length_message())
    } else if req.custom_code is Some && !code_chars_ok(req.custom_code->0@) {
        Some(code_charset_message())
    } else {
        None
    }
}

/// `base` followed by `/` and the code.
pub open spec fn short_url_of(base: Seq<char>, code: Seq<char>) -> Seq<char> {
    base + "/"@ + code
}

/// Where the QR image of a code is served.
pub open spec fn qr_url_of(base: Seq<char>, code: Seq<char>) -> Seq<char> {
    base + "/api/links/"@ + code + "/qr"@
}

/// The short URL of `code` under `base`.
pub fn short_url(base: &str, code: &str) -> (r: String)
    ensures
        r@ == short_url_of(base@, code@),
{
    let mut s = base.to_owned();
    s.append("/");
    s.append(code);
    s
}

/// The URL of the QR image of `code` under `base`.
pub fn qr_png_url(base: &str, code: &str) -> (r: String)
    ensures
        r@ == qr_url_of(base@, code@),
{
    let mut s = base.to_owned();
    s.append("/api/links/");
    s.append(code);
    s.append("/qr");
    s
}

/// Whether the link with `code` exists and has expired at `now`.
pub open spec fn link_gone(links: Seq<Link>, code: Seq<char>, now: int) -> bool {
    link_with(links, code) is Some && expired(opt_string(link_with(links, code)->0.expires_at), now)
}

/// Whether `c` is the click recorded for a resolution of `code` at `now`
/// with headers `h` and lookup reply `reply`.
pub open spec fn click_is(
    c: Click,
    code: Seq<char>,
    now: int,
    h: RequestHeaders,
    reply: Option<Seq<char>>,
) -> bool {
    &&& c.code@ == code
    &&& c.at == now
    &&& opt_string(c.ip) == Some(rate_key(h))
    &&& opt_string(c.user_agent) == h.spec_get("user-agent"@)
    &&& opt_string(c.referer) == h.spec_get("referer"@)
    &&& opt_string(c.country) == click_country(h, reply)
    &&& opt_string(c.city) == if h.spec_get("x-geo-city"@) is Some {
        h.spec_get("x-geo-city"@)
    } else {
        h.spec_get("cf-ipcity"@)
    }
}

/// The views of a list of strings.
pub open spec fn views(s: Seq<String>) -> Seq<Seq<char>> {
    s.map_values(|x: String| x@)
}

/// The outcome of trying `cands` in order against `links`: `None` when every
/// one is taken, otherwise the position of the first free one.
pub open spec fn retry_outcome(links: Seq<Link>, cands: Seq<Seq<char>>, r: Option<usize>) -> bool {
    match r {
        None => forall|j: int| 0 <= j < cands.len() ==> has_code(links, #[trigger] cands[j]),
        Some(i) => {
            &&& i < cands.len()
            &&& forall|j: int| 0 <= j < i ==> has_code(links, #[trigger] cands[j])
            &&& !has_code(links, cands[i as int])
        },
    }
}

/// The effect of `shorten_at` from state `pre` to `post`, for request `req`
/// with headers `h` at `now`, answering `r`.
pub open spec fn shorten_post(
    pre: AppState,
    post: AppState,
    req: ShortenReq,
    h: RequestHeaders,
    now: i128,
    r: Result<ShortenResp, ApiError>,
) -> bool {
    let admitted = admits(pre.rate_limiter, rate_key(h), now as int);
    let valid = admitted && request_problem(req) is None;
    &&& post.wf()
    &&& allow_step(pre.rate_limiter, post.rate_limiter, rate_key(h), now, admitted)
    &&& post.base_url == pre.base_url
    &&& post.store.spec_clicks() == pre.store.spec_clicks()
    &&& !admitted ==> r == Err::<ShortenResp, ApiError>(
        ApiError::RateLimited {
            limit: pre.rate_limiter.spec_limit(),
            window_ms: pre.rate_limiter.spec_window_ms(),
        },
    )
    &&& admitted && request_problem(req) is Some ==> r is Err && r->Err_0 is InvalidInput
        && r->Err_0->InvalidInput_0@ == request_problem(req)->0
    &&& valid && req.custom_code is Some ==> (r is Ok <==> !has_code(
        pre.store.spec_links(),
        req.custom_code->0@,
    ))
    &&& valid && req.custom_code is Some && r is Err ==> r->Err_0 is Conflict
    &&& valid && req.custom_code is None ==> exists|cands: Seq<Seq<char>>, i: Option<usize>|
        #[trigger] retry_outcome(pre.store.spec_links(), cands, i) && cands.len() == MAX_ATTEMPTS
            && (forall|j: int| 0 <= j < cands.len() ==> generated_shape(#[trigger] cands[j])) && (
        r is Err <==> i is None) && (r is Ok ==> r->Ok_0.code@ == cands[i->0 as int])
    &&& valid && req.custom_code is None && r is Err ==> r->Err_0 is Internal
        && r->Err_0->Internal_0@ == "failed to generate code"@
        && exists|k: int|
        0 <= k < pre.store.spec_links().len() && generated_shape(
            #[trigger] pre.store.spec_links()[k].code@,
        )
    &&& r is Err ==> post.store.spec_links() == pre.store.spec_links()
    &&& r is Ok ==> {
        let code = r->Ok_0.code@;
        &&& valid
        &&& match req.custom_code {
            Some(c) => code == c@,
            None => generated_shape(code),
        }
        &&& !has_code(pre.store.spec_links(), code)
        &&& post.store.spec_links().len() == pre.store.spec_links().len() + 1
        &&& post.store.spec_links().drop_last() == pre.store.spec_links()
        &&& link_is(
            post.store.spec_links().last(),
            code,
            normalized_url(req.url@)->0,
            now as int,
            opt_string(req.expires_at),
            client_ip(h),
            h.spec_get("user-agent"@),
        )
        &&& r->Ok_0.short_url@ == short_url_of(pre.base_url@, code)
        &&& r->Ok_0.qr_png_url@ == qr_url_of(pre.base_url@, code)
        &&& r->Ok_0.expires_at == req.expires_at
    }
}

/// The effect of `redirect_at` from state `pre` to `post`, for `code` with
/// headers `h` at `now` and lookup reply `reply`, answering `r`.
pub open spec fn redirect_post(
    pre: AppState,
    post: AppState,
    code: Seq<char>,
    h: RequestHeaders,
    now: i128,
    reply: Option<Seq<char>>,
    r: Result<String, ApiError>,
) -> bool {
    let links = pre.store.spec_links();
    &&& post.wf()
    &&& post.store.spec_links() == links
    &&& post.rate_limiter == pre.rate_limiter
    &&& post.base_url == pre.base_url
    &&& link_with(links, code) is None ==> r is Err && r->Err_0 is NotFound
    &&& link_gone(links, code, now as int) ==> r is Err && r->Err_0 is Gone
    &&& link_with(links, code) is Some && !link_gone(links, code, now as int) ==> r is Ok
        && r->Ok_0@ == link_with(links, code)->0.target_url@
    &&& r is Err ==> post.store.spec_clicks() == pre.store.spec_clicks()
    &&& r is Ok ==> {
        &&& post.store.spec_clicks().len() == pre.store.spec_clicks().len() + 1
        &&& post.store.spec_clicks().drop_last() == pre.store.spec_clicks()
        &&& click_is(post.store.spec_clicks().last(), code, now as int, h, reply)
    }
}

/// The state of the service: its records, public base URL and rate limiter.
pub struct AppState {
    pub store: Store,
    pub base_url: String,
    pub rate_limiter: RateLimiter,
}

impl AppState {
    /// Codes are unique and the limiter is well formed.
    pub open spec fn wf(&self) -> bool {
        self.store.wf() && self.rate_limiter.wf()
    }

    /// A service with no records.
    pub fn new(base_url: String, rate_limiter: RateLimiter) -> (r: Self)
        requires
            rate_limiter.wf(),
        ensures
            r.wf(),
            r.store.spec_links().len() == 0,
            r.store.spec_clicks().len() == 0,
            r.base_url == base_url,
            r.rate_limiter == rate_limiter,
    {
        AppState { store: Store::new(), base_url, rate_limiter }
    }

    /// Counts a creation request of the client against the rate limit.
    pub fn rate_limit(&mut self, headers: &RequestHeaders, now: i128) -> (r: Result<(), ApiError>)
        requires
            old(self).wf(),
        ensures
            final(self).wf(),
            allow_step(old(self).rate_limiter, final(self).rate_limiter, rate_key(*headers), now, r is Ok),
            r is Err ==> r == Err::<(), ApiError>(ApiError::RateLimited {
                limit: old(self).rate_limiter.spec_limit(),
                window_ms: old(self).rate_limiter.spec_window_ms(),
            }),
            final(self).store == old(self).store,
            final(self).base_url == old(self).base_url,
    {
        let key = rate_limit_key(headers);
        if self.rate_limiter.allow(key.as_str(), now) {
            Ok(())
        } else {
            Err(ApiError::RateLimited {
                limit: self.rate_limiter.limit(),
                window_ms: self.rate_limiter.window_ms(),
            })
        }
    }

    /// Inserts the link made from these values, unless `code` is taken.
    fn insert_url(
        &mut self,
        code: &str,
        target: &str,
        expires_at: &Option<String>,
        ip: &Option<String>,
        user_agent: &Option<String>,
        now: i128,
    ) -> (r: bool)
        requires
            old(self).wf(),
        ensures
            final(self).wf(),
            r == !has_code(old(self).store.spec_links(), code@),
            r ==> final(self).store.spec_links().len() == old(self).store.spec_links().len() + 1,
            r ==> final(self).store.spec_links().drop_last() == old(self).store.spec_links(),
            r ==> link_is(
                final(self).store.spec_links().last(),
                code@,
                target@,
                now as int,
                opt_string(*expires_at),
                opt_string(*ip),
                opt_string(*user_agent),
            ),
            !r ==> final(self).store.spec_links() == old(self).store.spec_links(),
            final(self).store.spec_clicks() == old(self).store.spec_clicks(),
            final(self).rate_limiter == old(self).rate_limiter,
            final(self).base_url == old(self).base_url,
    {
        let link = Link {
            code: code.to_owned(),
            target_url: target.to_owned(),
            created_at: now,
            expires_at: copy_opt(expires_at),
            created_ip: copy_opt(ip),
            created_user_agent: copy_opt(user_agent),
        };
        let r = self.store.insert_link(link);
        proof {
            if r is Ok {
                assert(self.store.spec_links().drop_last() =~= old(self).store.spec_links());
            }
        }
        r.is_ok()
    }

    /// Inserts the link made from these values under the first of
    /// `candidates` that no link has, and gives its position; `None`, with
    /// the links unchanged, when every candidate is taken.
    pub fn insert_first_free(
        &mut self,
        candidates: &Vec<String>,
        target: &str,
        expires_at: &Option<String>,
        ip: &Option<String>,
        user_agent: &Option<String>,
        now: i128,
    ) -> (r: Option<usize>)
        requires
            old(self).wf(),
        ensures
            final(self).wf(),
            retry_outcome(old(self).store.spec_links(), views(candidates@), r),
            r is None ==> final(self).store.spec_links() == old(self).store.spec_links(),
            r is Some ==> final(self).store.spec_links().len() == old(self).store.spec_links().len()
                + 1,
            r is Some ==> final(self).store.spec_links().drop_last() == old(self).store.spec_links(),
            r is Some ==> link_is(
                final(self).store.spec_links().last(),
                candidates@[r->0 as int]@,
                target@,
                now as int,
                opt_string(*expires_at),
                opt_string(*ip),
                opt_string(*user_agent),
            ),
            final(self).store.spec_clicks() == old(self).store.spec_clicks(),
            final(self).rate_limiter == old(self).rate_limiter,
            final(self).base_url == old(self).base_url,
    {
        let n = candidates.len();
        let mut i: usize = 0;
        while i < n
            invariant
                self.wf(),
                n == candidates@.len(),
                i <= n,
                self.store.spec_links() == old(self).store.spec_links(),
                self.store.spec_clicks() == old(self).store.spec_clicks(),
                self.rate_limiter == old(self).rate_limiter,
                self.base_url == old(self).base_url,
                forall|j: int|
                    0 <= j < i ==> has_code(old(self).store.spec_links(), #[trigger] candidates@[j]@),
            decreases n - i,
        {
            if self.insert_url(candidates[i].as_str(), target, expires_at, ip, user_agent, now) {
                return Some(i);
            }
            i = i + 1;
        }
        None
    }

    /// Creates a link at `now`, after counting the request against the rate
    /// limit. A custom code is taken as given or refused as a conflict; a
    /// generated code is drawn afresh after each collision, at most eight
    /// times.
    pub fn shorten_at(&mut self, req: &ShortenReq, headers: &RequestHeaders, now: i128) -> (r:
        Result<ShortenResp, ApiError>)
        requires
            old(self).wf(),
        ensures
            shorten_post(*old(self), *final(self), *req, *headers, now, r),
    {
        self.rate_limit(headers, now)?;
        let target = match normalize_url(req.url.as_str()) {
            Some(t) => t,
            None => {
                return Err(ApiError::InvalidInput("url must start with http:// or https://".to_owned()));
            },
        };
        match &req.expires_at {
            Some(e) => {
                if !is_valid_rfc3339(e.as_str()) {
                    return Err(
                        ApiError::InvalidInput(
                            "expires_at must be RFC3339 (e.g. 2026-01-31T00:00:00Z)".to_owned(),
                        ),
                    );
                }
            },
            None => {},
        }
        let ip = client_ip_from_headers(headers);
        let ua = own_opt(headers.get("user-agent"));
        let code = match &req.custom_code {
            Some(custom) => {
                match validate_custom_code(custom.as_str()) {
                    Ok(()) => {},
                    Err(msg) => {
                        return Err(ApiError::InvalidInput(msg));
                    },
                }
                if !self.insert_url(custom.as_str(), target.as_str(), &req.expires_at, &ip, &ua, now) {
                    return Err(ApiError::Conflict);
                }
                custom.clone()
            },
            None => {
                let mut candidates: Vec<String> = Vec::new();
                while candidates.len() < MAX_ATTEMPTS
                    invariant
                        candidates@.len() <= MAX_ATTEMPTS,
                        forall|j: int|
                            0 <= j < candidates@.len() ==> generated_shape(#[trigger] candidates@[j]@),
                    decreases MAX_ATTEMPTS - candidates@.len(),
                {
                    candidates.push(gen_code());
                }
                let ghost cands = views(candidates@);
                let chosen = self.insert_first_free(
                    &candidates,
                    target.as_str(),
                    &req.expires_at,
                    &ip,
                    &ua,
                    now,
                );
                proof {
                    assert(retry_outcome(old(self).store.spec_links(), cands, chosen));
                    if chosen is None {
                        assert(has_code(old(self).store.spec_links(), cands[0]));
                        let i = choose|i: int|
                            0 <= i < old(self).store.spec_links().len()
                                && #[trigger] old(self).store.spec_links()[i].code@ == cands[0];
                        assert(generated_shape(old(self).store.spec_links()[i].code@));
                    }
                }
                match chosen {
                    Some(i) => candidates[i].clone(),
                    None => {
                        return Err(ApiError::Internal("failed to generate code".to_owned()));
                    },
                }
            },
        };
        Ok(ShortenResp {
            short_url: short_url(self.base_url.as_str(), code.as_str()),
            qr_png_url: qr_png_url(self.base_url.as_str(), code.as_str()),
            code,
            expires_at: copy_opt(&req.expires_at),
        })
    }

    /// Creates a link now; see `shorten_at`.
    pub fn shorten(&mut self, req: &ShortenReq, headers: &RequestHeaders) -> (r: Result<
        ShortenResp,
        ApiError,
    >)
        requires
            old(self).wf(),
        ensures
            exists|now: i128| shorten_post(*old(self), *final(self), *req, *headers, now, r),
    {
        let now = now_unix_nanos();
        self.shorten_at(req, headers, now)
    }

    /// The target of `code` at `now`; `NotFound` when no link has the code and
    /// `Gone` when it has expired.
    pub fn resolve(&self, code: &str, now: i128) -> (r: Result<String, ApiError>)
        requires
            self.wf(),
        ensures
            link_with(self.store.spec_links(), code@) is None ==> r is Err && r->Err_0 is NotFound,
            link_gone(self.store.spec_links(), code@, now as int) ==> r is Err && r->Err_0 is Gone,
            link_with(self.store.spec_links(), code@) is Some && !link_gone(self.store.spec_links(), code@, now as int)
                ==> r is Ok && r->Ok_0@ == link_with(self.store.spec_links(), code@)->0.target_url@,
    {
        match self.store.find_link(code) {
            None => Err(ApiError::NotFound),
            Some(i) => {
                let link = &self.store.links()[i];
                let exp: Option<&str> = match &link.expires_at {
                    None => None,
                    Some(e) => Some(e.as_str()),
                };
                if is_expired(exp, now) {
                    Err(ApiError::Gone)
                } else {
                    Ok(link.target_url.clone())
                }
            },
        }
    }

    /// Resolves `code` at `now` and, when it resolves, records one click with
    /// the request's metadata. `reply` is the body of the country lookup for
    /// `geo_lookup_target(headers)`, when one was made.
    pub fn redirect_at(
        &mut self,
        code: &str,
        headers: &RequestHeaders,
        now: i128,
        reply: Option<&str>,
    ) -> (r: Result<String, ApiError>)
        requires
            old(self).wf(),
        ensures
            redirect_post(*old(self), *final(self), code@, *headers, now, opt_view(reply), r),
    {
        let target = self.resolve(code, now)?;
        let ip = rate_limit_key(headers);
        let city = match headers.get("x-geo-city") {
            Some(c) => Some(c.to_owned()),
            None => own_opt(headers.get("cf-ipcity")),
        };
        let click = Click {
            code: code.to_owned(),
            at: now,
            ip: Some(ip),
            user_agent: own_opt(headers.get("user-agent")),
            referer: own_opt(headers.get("referer")),
            country: country_from_headers_or_ip(headers, reply),
            city,
        };
        self.store.record_click(click);
        proof {
            assert(self.store.spec_clicks().drop_last() =~= old(self).store.spec_clicks());
        }
        Ok(target)
    }

    /// Resolves `code` now; see `redirect_at`.
    pub fn redirect(&mut self, code: &str, headers: &RequestHeaders, reply: Option<&str>) -> (r:
        Result<String, ApiError>)
        requires
            old(self).wf(),
        ensures
            exists|now: i128|
                redirect_post(*old(self), *final(self), code@, *headers, now, opt_view(reply), r),
    {
        let now = now_unix_nanos();
        self.redirect_at(code, headers, now, reply)
    }

    /// The statistics of the link with `code`; `NotFound` when there is none.
    pub fn query_stats(&self, code: &str) -> (r: Result<StatsResp, ApiError>)
        requires
            self.wf(),
        ensures
            r is Err <==> link_with(self.store.spec_links(), code@) is None,
            r is Err ==> r->Err_0 is NotFound,
            r is Ok ==> stats_of(
                r->Ok_0,
                link_with(self.store.spec_links(), code@)->0,
                self.store.spec_clicks(),
            ),
    {
        match self.store.find_link(code) {
            None => Err(ApiError::NotFound),
            Some(i) => Ok(compute_stats(&self.store.links()[i], self.store.clicks())),
        }
    }

    /// A summary of every link, newest first, with its status at `now`.
    pub fn query_link_summaries(&self, now: i128) -> (r: Vec<LinkSummary>)
        ensures
            summaries_ok(self.store.spec_links(), self.store.spec_clicks(), now as int, r@),
    {
        link_summaries(self.store.links(), self.store.clicks(), now)
    }

    /// A summary of every link, newest first, with its status now.
    pub fn list_links(&self) -> (r: Vec<LinkSummary>)
        ensures
            exists|now: i128|
                summaries_ok(self.store.spec_links(), self.store.spec_clicks(), now as int, r@),
    {
        let now = now_unix_nanos();
        self.query_link_summaries(now)
    }

    /// The QR image, as PNG, of the short URL of `code`.
    pub fn qr_png(&self, code: &str) -> (r: Result<Vec<u8>, ApiError>)
        requires
            self.wf(),
        ensures
            r is Err && r->Err_0 is NotFound <==> link_with(self.store.spec_links(), code@) is None,
            r is Err ==> r->Err_0 is NotFound || r->Err_0 is Internal,
            link_with(self.store.spec_links(), code@) is Some && !qr_fits(
                short_url_of(self.base_url@, code@),
            ) ==> r is Err && r->Err_0 is Internal && r->Err_0->Internal_0@ == "qr error"@,
            r is Ok ==> is_png(r->Ok_0@) && qr_fits(short_url_of(self.base_url@, code@)),
    {
        if self.store.find_link(code).is_none() {
            return Err(ApiError::NotFound);
        }
        let url = short_url(self.base_url.as_str(), code);
        let symbol = match qr_encode(url.as_str()) {
            Some(s) => s,
            None => {
                return Err(ApiError::Internal("qr error".to_owned()));
            },
        };
        let img = qr_render(&symbol, QR_MIN_SIZE);
        match png_encode(&img) {
            Some(bytes) => Ok(bytes),
            None => Err(ApiError::Internal("qr encode error".to_owned())),
        }
    }
}

} // verus!
