//! Properties that hold across calls of the service, proved from the
//! contracts of its operations.

use vstd::prelude::*;
use crate::clock::expired;
use crate::headers::{opt_string, RequestHeaders};
use crate::rate_limit::{admits, allow_step, live, within, RateLimiter};
use crate::service::{
    generated_shape, link_gone, rate_key, redirect_post, request_problem, short_url_of, shorten_post,
    AppState, ApiError, ShortenReq, ShortenResp,
};
use crate::stats::{country_count, ip_set, of_code, stats_of, CountryStat, StatsResp};
use crate::store::{has_code, lemma_link_with_push, link_with, Click, Link};
use crate::validate::normalized_url;

verus! {

/// After a successful creation the new link is the last one, and lookups of
/// its code find it.
proof fn lemma_created_link(pre: AppState, post: AppState, req: ShortenReq, h: RequestHeaders, now: i128, r: Result<ShortenResp, ApiError>)
    requires
        pre.wf(),
        shorten_post(pre, post, req, h, now, r),
        r is Ok,
    ensures
        post.store.spec_links() == pre.store.spec_links().push(post.store.spec_links().last()),
        link_with(post.store.spec_links(), r->Ok_0.code@) == Some(post.store.spec_links().last()),
        has_code(post.store.spec_links(), r->Ok_0.code@),
{
    let links = post.store.spec_links();
    assert(links =~= pre.store.spec_links().push(links.last()));
    lemma_link_with_push(pre.store.spec_links(), links.last(), r->Ok_0.code@);
    assert(links[links.len() - 1].code@ == r->Ok_0.code@);
}

/// A link created without a custom code gets seven ASCII letters and digits,
/// its short URL is the base URL followed by that code, and resolving the code
/// at any time before its expiry gives back the submitted target.
pub proof fn lemma_generated_code_resolves(
    pre: AppState,
    post: AppState,
    req: ShortenReq,
    h: RequestHeaders,
    now: i128,
    r: Result<ShortenResp, ApiError>,
    later: int,
)
    requires
        pre.wf(),
        shorten_post(pre, post, req, h, now, r),
        r is Ok,
        req.custom_code is None,
        !expired(opt_string(req.expires_at), later),
    ensures
        generated_shape(r->Ok_0.code@),
        r->Ok_0.short_url@ == short_url_of(pre.base_url@, r->Ok_0.code@),
        link_with(post.store.spec_links(), r->Ok_0.code@) is Some,
        !link_gone(post.store.spec_links(), r->Ok_0.code@, later),
        link_with(post.store.spec_links(), r->Ok_0.code@)->0.target_url@ == normalized_url(
            req.url@,
        )->0,
{
    lemma_created_link(pre, post, req, h, now, r);
}

/// On a store with no links, a valid request without a custom code that the
/// rate limiter admits always succeeds, with a generated code that resolves
/// to the submitted target.
pub proof fn lemma_generated_code_on_empty_store(
    pre: AppState,
    post: AppState,
    req: ShortenReq,
    h: RequestHeaders,
    now: i128,
    r: Result<ShortenResp, ApiError>,
)
    requires
        pre.wf(),
        shorten_post(pre, post, req, h, now, r),
        pre.store.spec_links().len() == 0,
        req.custom_code is None,
        request_problem(req) is None,
        admits(pre.rate_limiter, rate_key(h), now as int),
    ensures
        r is Ok,
        generated_shape(r->Ok_0.code@),
        link_with(post.store.spec_links(), r->Ok_0.code@) is Some,
        link_with(post.store.spec_links(), r->Ok_0.code@)->0.target_url@ == normalized_url(
            req.url@,
        )->0,
{
    lemma_created_link(pre, post, req, h, now, r);
}

/// Creating two links with one custom code, valid and admitted both times,
/// succeeds the first time when the code was free, and then conflicts.
pub proof fn lemma_custom_code_conflicts(
    s0: AppState,
    s1: AppState,
    s2: AppState,
    req1: ShortenReq,
    req2: ShortenReq,
    h1: RequestHeaders,
    h2: RequestHeaders,
    t1: i128,
    t2: i128,
    r1: Result<ShortenResp, ApiError>,
    r2: Result<ShortenResp, ApiError>,
)
    requires
        s0.wf(),
        shorten_post(s0, s1, req1, h1, t1, r1),
        shorten_post(s1, s2, req2, h2, t2, r2),
        req1.custom_code is Some,
        req2.custom_code is Some,
        req2.custom_code->0@ == req1.custom_code->0@,
        !has_code(s0.store.spec_links(), req1.custom_code->0@),
        admits(s0.rate_limiter, crate::service::rate_key(h1), t1 as int),
        admits(s1.rate_limiter, crate::service::rate_key(h2), t2 as int),
        request_problem(req1) is None,
        request_problem(req2) is None,
    ensures
        r1 is Ok,
        r2 is Err,
        r2->Err_0 is Conflict,
{
    lemma_created_link(s0, s1, req1, h1, t1, r1);
}

/// A link whose expiry has passed resolves to `Gone` and records no click.
pub proof fn lemma_expired_link_gone(
    s0: AppState,
    s1: AppState,
    s2: AppState,
    req: ShortenReq,
    h: RequestHeaders,
    t0: i128,
    r: Result<ShortenResp, ApiError>,
    h2: RequestHeaders,
    t: i128,
    reply: Option<Seq<char>>,
    r2: Result<String, ApiError>,
)
    requires
        s0.wf(),
        shorten_post(s0, s1, req, h, t0, r),
        r is Ok,
        expired(opt_string(req.expires_at), t as int),
        redirect_post(s1, s2, r->Ok_0.code@, h2, t, reply, r2),
    ensures
        r2 is Err,
        r2->Err_0 is Gone,
        s2.store.spec_clicks() == s1.store.spec_clicks(),
{
    lemma_created_link(s0, s1, req, h, t0, r);
}

/// A link that has not expired resolves to its target and records exactly
/// one click, for its code.
pub proof fn lemma_live_link_one_click(
    s0: AppState,
    s1: AppState,
    s2: AppState,
    req: ShortenReq,
    h: RequestHeaders,
    t0: i128,
    r: Result<ShortenResp, ApiError>,
    h2: RequestHeaders,
    t: i128,
    reply: Option<Seq<char>>,
    r2: Result<String, ApiError>,
)
    requires
        s0.wf(),
        shorten_post(s0, s1, req, h, t0, r),
        r is Ok,
        !expired(opt_string(req.expires_at), t as int),
        redirect_post(s1, s2, r->Ok_0.code@, h2, t, reply, r2),
    ensures
        r2 is Ok,
        r2->Ok_0@ == normalized_url(req.url@)->0,
        s2.store.spec_clicks() == s1.store.spec_clicks().push(s2.store.spec_clicks().last()),
        of_code(s2.store.spec_clicks(), r->Ok_0.code@).len() == of_code(
            s1.store.spec_clicks(),
            r->Ok_0.code@,
        ).len() + 1,
{
    lemma_created_link(s0, s1, req, h, t0, r);
    let cs = s2.store.spec_clicks();
    assert(cs =~= s1.store.spec_clicks().push(cs.last()));
    assert(cs.drop_last() == s1.store.spec_clicks());
}

/// An admission that counts at a later instant counted at every instant in
/// between, so pruning earlier loses nothing that counts later.
proof fn lemma_live_twice(s: Seq<i128>, t: int, now: int, window: int)
    requires
        t <= now,
    ensures
        live(live(s, t, window), now, window) == live(s, now, window),
    decreases s.len(),
{
    if s.len() > 0 {
        lemma_live_twice(s.drop_last(), t, now, window);
        let x = s.last() as int;
        if within(now, x, window) {
            assert(within(t, x, window));
        }
        if within(t, x, window) {
            assert(live(s, t, window).drop_last() == live(s.drop_last(), t, window));
        }
    }
}

/// After `limit` admitted requests from one key, at instants (in any order)
/// that all lie within the window before `now`, the next request from that
/// key at `now` is refused; whether another key is admitted is unchanged,
/// so a key with no admissions is still admitted.
pub proof fn lemma_rate_limit_trips(
    steps: Seq<RateLimiter>,
    times: Seq<i128>,
    key: Seq<char>,
    other: Seq<char>,
    now: i128,
)
    requires
        steps.len() == steps[0].spec_limit() + 1,
        times.len() == steps[0].spec_limit(),
        steps[0].wf(),
        forall|i: int|
            0 <= i < times.len() ==> allow_step(steps[i], #[trigger] steps[i + 1], key, times[i], true),
        forall|i: int| 0 <= i < times.len() ==> #[trigger] times[i] <= now,
        forall|i: int| 0 <= i < times.len() ==> now - #[trigger] times[i] < steps[0].spec_window(),
        other != key,
    ensures
        !admits(steps[times.len() as int], key, now as int),
        admits(steps[times.len() as int], other, now as int) == admits(steps[0], other, now as int),
        steps[0].recent(other).len() == 0 && steps[0].spec_limit() > 0 ==> admits(
            steps[times.len() as int],
            other,
            now as int,
        ),
{
    lemma_admissions_count(steps, times, key, other, now, times.len() as int);
}

/// After the first `i` admitted steps, at least `i` admissions of `key` count
/// at `now`, and nothing else has changed.
proof fn lemma_admissions_count(
    steps: Seq<RateLimiter>,
    times: Seq<i128>,
    key: Seq<char>,
    other: Seq<char>,
    now: i128,
    i: int,
)
    requires
        0 <= i <= times.len(),
        steps.len() == times.len() + 1,
        forall|q: int|
            0 <= q < times.len() ==> allow_step(steps[q], #[trigger] steps[q + 1], key, times[q], true),
        forall|q: int| 0 <= q < times.len() ==> #[trigger] times[q] <= now,
        forall|q: int| 0 <= q < times.len() ==> now - #[trigger] times[q] < steps[0].spec_window(),
        other != key,
    ensures
        steps[i].spec_limit() == steps[0].spec_limit(),
        steps[i].spec_window() == steps[0].spec_window(),
        steps[i].recent(other) == steps[0].recent(other),
        live(steps[i].recent(key), now as int, steps[0].spec_window()).len() >= i,
    decreases i,
{
    if i > 0 {
        let w = steps[0].spec_window();
        lemma_admissions_count(steps, times, key, other, now, i - 1);
        let pre = steps[i - 1];
        let post = steps[i];
        assert(allow_step(steps[i - 1], steps[(i - 1) + 1], key, times[i - 1], true));
        let t = times[i - 1] as int;
        assert(times[i - 1] <= now);
        lemma_live_twice(pre.recent(key), t, now as int, w);
        let kept = live(pre.recent(key), t, w);
        assert(post.recent(key) == kept.push(times[i - 1]));
        assert(kept.push(times[i - 1]).drop_last() == kept);
        assert(within(now as int, t, w));
        assert(live(post.recent(key), now as int, w) == live(kept, now as int, w).push(
            times[i - 1],
        ));
    }
}

/// The sum of the clicks listed in `ts`.
pub open spec fn sum_clicks(ts: Seq<CountryStat>) -> nat
    decreases ts.len(),
{
    if ts.len() == 0 {
        0
    } else {
        sum_clicks(ts.drop_last()) + ts.last().clicks as nat
    }
}

/// The sum, over the countries listed in `ts`, of their counts in `cs`.
pub open spec fn sum_counts(cs: Seq<Click>, ts: Seq<CountryStat>) -> nat
    decreases ts.len(),
{
    if ts.len() == 0 {
        0
    } else {
        sum_counts(cs, ts.drop_last()) + country_count(cs, ts.last().country@)
    }
}

/// The number of entries of `ts` that name country `c`.
pub open spec fn hits(ts: Seq<CountryStat>, c: Option<Seq<char>>) -> nat
    decreases ts.len(),
{
    if ts.len() == 0 {
        0
    } else {
        hits(ts.drop_last(), c) + if Some(ts.last().country@) == c {
            1nat
        } else {
            0nat
        }
    }
}

/// A country named by no entry is hit by none; one named by at most one
/// entry is hit at most once.
proof fn lemma_hits_at_most_one(ts: Seq<CountryStat>, c: Option<Seq<char>>)
    requires
        forall|i: int, j: int| 0 <= i < j < ts.len() ==> ts[i].country@ != ts[j].country@,
    ensures
        hits(ts, c) <= 1,
        (forall|i: int| 0 <= i < ts.len() ==> Some(ts[i].country@) != c) ==> hits(ts, c) == 0,
    decreases ts.len(),
{
    if ts.len() > 0 {
        let rest = ts.drop_last();
        lemma_hits_at_most_one(rest, c);
        if Some(ts.last().country@) == c {
            assert forall|i: int| 0 <= i < rest.len() implies Some(rest[i].country@) != c by {
                assert(ts[i].country@ != ts[ts.len() - 1].country@);
            }
        }
        if forall|i: int| 0 <= i < ts.len() ==> Some(ts[i].country@) != c {
            assert(Some(ts[ts.len() - 1].country@) != c);
        }
    }
}

/// Adding one click adds to the summed counts the entries that name its country.
proof fn lemma_sum_counts_step(cs: Seq<Click>, ts: Seq<CountryStat>)
    requires
        cs.len() > 0,
    ensures
        sum_counts(cs, ts) == sum_counts(cs.drop_last(), ts) + hits(ts, opt_string(cs.last().country)),
    decreases ts.len(),
{
    if ts.len() > 0 {
        lemma_sum_counts_step(cs, ts.drop_last());
    }
}

/// Distinct countries together count at most every click.
proof fn lemma_sum_counts_bound(cs: Seq<Click>, ts: Seq<CountryStat>)
    requires
        forall|i: int, j: int| 0 <= i < j < ts.len() ==> ts[i].country@ != ts[j].country@,
    ensures
        sum_counts(cs, ts) <= cs.len(),
    decreases cs.len(),
{
    if cs.len() == 0 {
        assert(cs =~= Seq::<Click>::empty());
        lemma_sum_counts_zero(ts);
    } else {
        lemma_sum_counts_bound(cs.drop_last(), ts);
        lemma_sum_counts_step(cs, ts);
        lemma_hits_at_most_one(ts, opt_string(cs.last().country));
    }
}

/// Over no clicks the summed counts are zero.
proof fn lemma_sum_counts_zero(ts: Seq<CountryStat>)
    ensures
        sum_counts(Seq::<Click>::empty(), ts) == 0,
    decreases ts.len(),
{
    if ts.len() > 0 {
        lemma_sum_counts_zero(ts.drop_last());
    }
}

/// Entries that carry their own counts sum to the summed counts.
proof fn lemma_sum_clicks_is_counts(cs: Seq<Click>, ts: Seq<CountryStat>)
    requires
        forall|i: int| 0 <= i < ts.len() ==> #[trigger] ts[i].clicks == country_count(cs, ts[i].country@),
    ensures
        sum_clicks(ts) == sum_counts(cs, ts),
    decreases ts.len(),
{
    if ts.len() > 0 {
        let rest = ts.drop_last();
        assert forall|i: int| 0 <= i < rest.len() implies #[trigger] rest[i].clicks == country_count(cs, rest[i].country@) by {
            assert(rest[i] == ts[i]);
        }
        lemma_sum_clicks_is_counts(cs, rest);
        assert(ts.last().clicks == country_count(cs, ts.last().country@));
    }
}

/// The statistics of a link count its clicks and its distinct client
/// addresses, and the listed countries, most clicked first, account for no
/// more clicks than there are.
pub proof fn lemma_stats_consistent(r: StatsResp, l: Link, cs: Seq<Click>)
    requires
        stats_of(r, l, cs),
    ensures
        r.total_clicks == of_code(cs, l.code@).len(),
        r.unique_visitors == ip_set(of_code(cs, l.code@)).len(),
        sum_clicks(r.top_countries@) <= r.total_clicks,
        forall|i: int, j: int|
            0 <= i < j < r.top_countries@.len() ==> r.top_countries@[i].clicks
                >= r.top_countries@[j].clicks,
{
    let mine = of_code(cs, l.code@);
    let ts = r.top_countries@;
    lemma_sum_clicks_is_counts(mine, ts);
    lemma_sum_counts_bound(mine, ts);
    assert forall|i: int, j: int| 0 <= i < j < ts.len() implies ts[i].clicks >= ts[j].clicks by {
        lemma_sorted_pairs(ts, i, j);
    }
}

/// Adjacent order carries over to any two entries.
proof fn lemma_sorted_pairs(ts: Seq<CountryStat>, i: int, j: int)
    requires
        0 <= i < j < ts.len(),
        forall|k: int| 0 <= k < ts.len() - 1 ==> #[trigger] ts[k].clicks >= ts[k + 1].clicks,
    ensures
        ts[i].clicks >= ts[j].clicks,
    decreases j - i,
{
    if j > i + 1 {
        lemma_sorted_pairs(ts, i, j - 1);
        assert(ts[j - 1].clicks >= ts[j].clicks);
    }
}

/// The client keys of the first `n` requests.
pub open spec fn keys_of(hs: Seq<RequestHeaders>, n: int) -> Set<Seq<char>> {
    Set::new(|k: Seq<char>| exists|i: int| 0 <= i < n && rate_key(#[trigger] hs[i]) == k)
}

/// After `n` successful resolutions of `code`, starting from no clicks on it,
/// there are `n` clicks on it, and their distinct addresses are the keys of
/// the clients that made them.
pub proof fn lemma_resolutions_counted(
    states: Seq<AppState>,
    code: Seq<char>,
    hs: Seq<RequestHeaders>,
    times: Seq<i128>,
    replies: Seq<Option<Seq<char>>>,
    rs: Seq<Result<String, ApiError>>,
    n: int,
)
    requires
        0 <= n <= hs.len(),
        states.len() == hs.len() + 1,
        times.len() == hs.len(),
        replies.len() == hs.len(),
        rs.len() == hs.len(),
        forall|i: int|
            0 <= i < hs.len() ==> redirect_post(
                states[i],
                #[trigger] states[i + 1],
                code,
                hs[i],
                times[i],
                replies[i],
                rs[i],
            ),
        forall|i: int| 0 <= i < hs.len() ==> #[trigger] rs[i] is Ok,
        of_code(states[0].store.spec_clicks(), code).len() == 0,
    ensures
        of_code(states[n].store.spec_clicks(), code).len() == n,
        ip_set(of_code(states[n].store.spec_clicks(), code)) == keys_of(hs, n),
    decreases n,
{
    if n == 0 {
        assert(ip_set(of_code(states[0].store.spec_clicks(), code)) =~= keys_of(hs, 0));
    } else {
        lemma_resolutions_counted(states, code, hs, times, replies, rs, n - 1);
        let i = n - 1;
        assert(redirect_post(states[i], states[i + 1], code, hs[i], times[i], replies[i], rs[i]));
        assert(rs[i] is Ok);
        let before = states[i].store.spec_clicks();
        let after = states[n].store.spec_clicks();
        assert(after.drop_last() == before);
        let c = after.last();
        assert(of_code(after, code) == of_code(before, code).push(c));
        assert(of_code(after, code).drop_last() =~= of_code(before, code));
        assert(c.ip is Some);
        assert(ip_set(of_code(after, code)) == ip_set(of_code(before, code)).insert(rate_key(hs[i])));
        assert(ip_set(of_code(after, code)) =~= keys_of(hs, n)) by {
            assert forall|k: Seq<char>| keys_of(hs, n).contains(k) implies ip_set(
                of_code(after, code),
            ).contains(k) by {
                let j = choose|j: int| 0 <= j < n && rate_key(#[trigger] hs[j]) == k;
                if j < i {
                    assert(keys_of(hs, i).contains(k));
                }
            }
            assert forall|k: Seq<char>| ip_set(of_code(after, code)).contains(k) implies keys_of(
                hs,
                n,
            ).contains(k) by {
                if k != rate_key(hs[i]) {
                    assert(keys_of(hs, i).contains(k));
                    let j = choose|j: int| 0 <= j < i && rate_key(#[trigger] hs[j]) == k;
                    assert(0 <= j < n);
                }
            }
        }
    }
}

} // verus!
