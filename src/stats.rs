//! Aggregates over the click log: totals, distinct visitors, daily rollups,
//! top countries, recent clicks, and per-link summaries.

use vstd::prelude::*;
use crate::headers::opt_string;
use crate::clock::{expired, is_expired};
use crate::select::{lemma_distinct_positions, top_k, top_k_of};
use crate::store::{copy_opt, Click, Link};
use crate::text::same_text;

verus! {

/// Nanoseconds in a day.
pub const NANOS_PER_DAY: i128 = 86_400_000_000_000;

/// The clicks on the link with `code`, in order of recording.
pub open spec fn of_code(cs: Seq<Click>, code: Seq<char>) -> Seq<Click>
    decreases cs.len(),
{
    if cs.len() == 0 {
        Seq::empty()
    } else if cs.last().code@ == code {
        of_code(cs.drop_last(), code).push(cs.last())
    } else {
        of_code(cs.drop_last(), code)
    }
}

/// The distinct client addresses of `cs`.
pub open spec fn ip_set(cs: Seq<Click>) -> Set<Seq<char>>
    decreases cs.len(),
{
    if cs.len() == 0 {
        Set::empty()
    } else {
        match cs.last().ip {
            Some(ip) => ip_set(cs.drop_last()).insert(ip@),
            None => ip_set(cs.drop_last()),
        }
    }
}

/// The UTC calendar day of an instant, counted in days since the Unix epoch.
pub open spec fn day_of(at: int) -> int {
    at / (NANOS_PER_DAY as int)
}

/// The clicks of `cs` made on day `d`.
pub open spec fn on_day(cs: Seq<Click>, d: int) -> Seq<Click>
    decreases cs.len(),
{
    if cs.len() == 0 {
        Seq::empty()
    } else if day_of(cs.last().at as int) == d {
        on_day(cs.drop_last(), d).push(cs.last())
    } else {
        on_day(cs.drop_last(), d)
    }
}

/// The days on which the clicks of `cs` were made.
pub open spec fn day_set(cs: Seq<Click>) -> Set<int>
    decreases cs.len(),
{
    if cs.len() == 0 {
        Set::empty()
    } else {
        day_set(cs.drop_last()).insert(day_of(cs.last().at as int))
    }
}

/// The number of clicks of `cs` resolved to country `c`.
pub open spec fn country_count(cs: Seq<Click>, c: Seq<char>) -> nat
    decreases cs.len(),
{
    if cs.len() == 0 {
        0
    } else {
        country_count(cs.drop_last(), c) + if opt_string(cs.last().country) == Some(c) {
            1nat
        } else {
            0nat
        }
    }
}

/// `ip_set` is finite.
pub proof fn lemma_ip_set_finite(cs: Seq<Click>)
    ensures
        ip_set(cs).finite(),
    decreases cs.len(),
{
    if cs.len() > 0 {
        lemma_ip_set_finite(cs.drop_last());
    }
}

/// A country count never exceeds the number of clicks.
pub proof fn lemma_country_count_bound(cs: Seq<Click>, c: Seq<char>)
    ensures
        country_count(cs, c) <= cs.len(),
    decreases cs.len(),
{
    if cs.len() > 0 {
        lemma_country_count_bound(cs.drop_last(), c);
    }
}

impl Click {
    /// A field-by-field copy.
    pub fn copy(&self) -> (r: Click)
        ensures
            r == *self,
    {
        Click {
            code: self.code.clone(),
            at: self.at,
            ip: copy_opt(&self.ip),
            user_agent: copy_opt(&self.user_agent),
            referer: copy_opt(&self.referer),
            country: copy_opt(&self.country),
            city: copy_opt(&self.city),
        }
    }
}

/// The clicks on the link with `code`.
pub fn clicks_for(cs: &Vec<Click>, code: &str) -> (r: Vec<Click>)
    ensures
        r@ == of_code(cs@, code@),
{
    let n = cs.len();
    let mut out: Vec<Click> = Vec::new();
    let mut i: usize = 0;
    while i < n
        invariant
            n == cs@.len(),
            i <= n,
            out@ == of_code(cs@.subrange(0, i as int), code@),
        decreases n - i,
    {
        assert(cs@.subrange(0, i + 1).drop_last() =~= cs@.subrange(0, i as int));
        if same_text(cs[i].code.as_str(), code) {
            out.push(cs[i].copy());
        }
        i = i + 1;
    }
    assert(cs@.subrange(0, n as int) =~= cs@);
    out
}

/// The day of an instant, rounding down.
pub fn day_of_nanos(at: i128) -> (r: i128)
    ensures
        r == day_of(at as int),
{
    if at >= 0 {
        at / NANOS_PER_DAY
    } else {
        let m: i128 = -(at + 1);
        let q: i128 = m / NANOS_PER_DAY;
        proof {
            let d = NANOS_PER_DAY as int;
            let mi = m as int;
            let qi = q as int;
            let rem = mi % d;
            vstd::arithmetic::div_mod::lemma_fundamental_div_mod(mi, d);
            assert(qi == mi / d);
            assert(0 <= rem < d);
            assert(mi == d * qi + rem);
            assert(at == (-qi - 1) * d + (d - rem - 1)) by (nonlinear_arith)
                requires
                    mi == d * qi + rem,
                    mi == -(at + 1),
            ;
            vstd::arithmetic::div_mod::lemma_fundamental_div_mod_converse(
                at as int,
                d,
                -qi - 1,
                d - rem - 1,
            );
        }
        -q - 1
    }
}

/// The number of distinct client addresses among `cs`.
pub fn count_visitors(cs: &Vec<Click>) -> (r: usize)
    ensures
        r == ip_set(cs@).len(),
{
    let n = cs.len();
    let mut seen: Vec<String> = Vec::new();
    let mut i: usize = 0;
    while i < n
        invariant
            n == cs@.len(),
            i <= n,
            ip_set(cs@.subrange(0, i as int)).finite(),
            seen@.len() == ip_set(cs@.subrange(0, i as int)).len(),
            forall|s: Seq<char>|
                ip_set(cs@.subrange(0, i as int)).contains(s) <==> exists|j: int|
                    0 <= j < seen@.len() && #[trigger] seen@[j]@ == s,
        decreases n - i,
    {
        proof {
            assert(cs@.subrange(0, i + 1).drop_last() =~= cs@.subrange(0, i as int));
            lemma_ip_set_finite(cs@.subrange(0, i + 1));
        }
        match &cs[i].ip {
            None => {},
            Some(ip) => {
                let m = seen.len();
                let mut j: usize = 0;
                let mut found = false;
                while j < m
                    invariant_except_break
                        !found,
                    invariant
                        m == seen@.len(),
                        j <= m,
                        forall|q: int| 0 <= q < j ==> seen@[q]@ != ip@,
                    ensures
                        found ==> exists|q: int| 0 <= q < m && #[trigger] seen@[q]@ == ip@,
                        !found ==> forall|q: int| 0 <= q < m ==> seen@[q]@ != ip@,
                    decreases m - j,
                {
                    if same_text(seen[j].as_str(), ip.as_str()) {
                        found = true;
                        break;
                    }
                    j = j + 1;
                }
                if !found {
                    let ghost before = seen@;
                    seen.push(ip.clone());
                    proof {
                        let prev = ip_set(cs@.subrange(0, i as int));
                        assert(!prev.contains(ip@));
                        assert forall|s: Seq<char>|
                            prev.insert(ip@).contains(s) <==> exists|q: int|
                                0 <= q < seen@.len() && #[trigger] seen@[q]@ == s by {
                            if prev.contains(s) {
                                let q = choose|q: int| 0 <= q < before.len() && #[trigger] before[q]@ == s;
                                assert(seen@[q] == before[q]);
                            }
                            if s == ip@ {
                                assert(seen@[before.len() as int]@ == s);
                            }
                            if exists|q: int| 0 <= q < seen@.len() && #[trigger] seen@[q]@ == s {
                                let q = choose|q: int| 0 <= q < seen@.len() && #[trigger] seen@[q]@ == s;
                                if q < before.len() {
                                    assert(before[q] == seen@[q]);
                                }
                            }
                        }
                    }
                }
            },
        }
        i = i + 1;
    }
    assert(cs@.subrange(0, n as int) =~= cs@);
    seen.len()
}

/// Clicks and distinct visitors of one day.
#[derive(Debug)]
pub struct DailyStats {
    /// Days since the Unix epoch, UTC.
    pub day: i128,
    pub clicks: usize,
    pub unique_visitors: usize,
}

/// Clicks resolved to one country.
#[derive(Debug)]
pub struct CountryStat {
    pub country: String,
    pub clicks: usize,
}

/// What the statistics show of one click.
#[derive(Debug)]
pub struct RecentClick {
    pub at: i128,
    pub ip: Option<String>,
    pub country: Option<String>,
    pub user_agent: Option<String>,
    pub referer: Option<String>,
}

/// The statistics of one link.
#[derive(Debug)]
pub struct StatsResp {
    pub code: String,
    pub target_url: String,
    pub created_at: i128,
    pub expires_at: Option<String>,
    pub total_clicks: usize,
    pub unique_visitors: usize,
    pub clicks_by_day: Vec<DailyStats>,
    pub top_countries: Vec<CountryStat>,
    pub recent_clicks: Vec<RecentClick>,
}

/// Most days in a daily rollup.
pub const MAX_DAYS: usize = 30;

/// Most countries listed.
pub const MAX_COUNTRIES: usize = 10;

/// Most recent clicks listed.
pub const MAX_RECENT: usize = 25;

/// `ds` lists, newest first, the (at most 30) latest days with clicks in
/// `cs`, each with its clicks and distinct visitors.
pub open spec fn daily_ok(cs: Seq<Click>, ds: Seq<DailyStats>) -> bool {
    &&& ds.len() <= MAX_DAYS
    &&& forall|i: int|
        0 <= i < ds.len() ==> {
            &&& day_set(cs).contains(#[trigger] ds[i].day as int)
            &&& ds[i].clicks == on_day(cs, ds[i].day as int).len()
            &&& ds[i].unique_visitors == ip_set(on_day(cs, ds[i].day as int)).len()
        }
    &&& forall|i: int| 0 <= i < ds.len() - 1 ==> #[trigger] ds[i].day > ds[i + 1].day
    &&& ds.len() < MAX_DAYS ==> forall|d: int|
        #[trigger] day_set(cs).contains(d) ==> exists|i: int| 0 <= i < ds.len() && ds[i].day == d
    &&& ds.len() > 0 ==> forall|d: int|
        #[trigger] day_set(cs).contains(d) && !(exists|i: int| 0 <= i < ds.len() && ds[i].day == d)
            ==> d < ds.last().day
}

/// `ts` lists, most clicked first, the (at most 10) countries with the most
/// clicks in `cs`, each once, with its clicks.
pub open spec fn countries_ok(cs: Seq<Click>, ts: Seq<CountryStat>) -> bool {
    &&& ts.len() <= MAX_COUNTRIES
    &&& forall|i: int|
        0 <= i < ts.len() ==> #[trigger] ts[i].clicks == country_count(cs, ts[i].country@)
            && ts[i].clicks > 0
    &&& forall|i: int, j: int| 0 <= i < j < ts.len() ==> ts[i].country@ != ts[j].country@
    &&& forall|i: int| 0 <= i < ts.len() - 1 ==> #[trigger] ts[i].clicks >= ts[i + 1].clicks
    &&& ts.len() < MAX_COUNTRIES ==> forall|c: Seq<char>|
        #[trigger] country_count(cs, c) > 0 ==> exists|i: int|
            0 <= i < ts.len() && ts[i].country@ == c
    &&& ts.len() > 0 ==> forall|c: Seq<char>|
        #[trigger] country_count(cs, c) > 0 && !(exists|i: int|
            0 <= i < ts.len() && ts[i].country@ == c) ==> country_count(cs, c) <= ts.last().clicks
}

/// The instants of `cs`.
pub open spec fn ats(cs: Seq<Click>) -> Seq<i128> {
    cs.map_values(|c: Click| c.at)
}

/// Whether `r` shows click `c`.
pub open spec fn shows(r: RecentClick, c: Click) -> bool {
    &&& r.at == c.at
    &&& r.ip == c.ip
    &&& r.country == c.country
    &&& r.user_agent == c.user_agent
    &&& r.referer == c.referer
}

/// `rs` shows the (at most 25) latest clicks of `cs`, latest first.
pub open spec fn recent_ok(cs: Seq<Click>, rs: Seq<RecentClick>) -> bool {
    exists|ix: Seq<usize>|
        #[trigger] top_k_of(ats(cs), MAX_RECENT as nat, ix) && rs.len() == ix.len() && forall|i: int|
            0 <= i < rs.len() ==> shows(#[trigger] rs[i], cs[ix[i] as int])
}

/// Whether `r` holds the statistics of link `l` over the click log `cs`.
pub open spec fn stats_of(r: StatsResp, l: Link, cs: Seq<Click>) -> bool {
    let mine = of_code(cs, l.code@);
    &&& r.code@ == l.code@
    &&& r.target_url@ == l.target_url@
    &&& r.created_at == l.created_at
    &&& r.expires_at == l.expires_at
    &&& r.total_clicks == mine.len()
    &&& r.unique_visitors == ip_set(mine).len()
    &&& daily_ok(mine, r.clicks_by_day@)
    &&& countries_ok(mine, r.top_countries@)
    &&& recent_ok(mine, r.recent_clicks@)
}

/// The distinct days of the clicks of `cs`.
pub fn distinct_days(cs: &Vec<Click>) -> (r: Vec<i128>)
    ensures
        forall|a: int, b: int| 0 <= a < b < r@.len() ==> r@[a] != r@[b],
        forall|d: int| day_set(cs@).contains(d) <==> exists|j: int| 0 <= j < r@.len() && r@[j] == d,
{
    let n = cs.len();
    let mut out: Vec<i128> = Vec::new();
    let mut i: usize = 0;
    while i < n
        invariant
            n == cs@.len(),
            i <= n,
            forall|a: int, b: int| 0 <= a < b < out@.len() ==> out@[a] != out@[b],
            forall|d: int|
                day_set(cs@.subrange(0, i as int)).contains(d) <==> exists|j: int|
                    0 <= j < out@.len() && out@[j] == d,
        decreases n - i,
    {
        assert(cs@.subrange(0, i + 1).drop_last() =~= cs@.subrange(0, i as int));
        let d = day_of_nanos(cs[i].at);
        let m = out.len();
        let mut j: usize = 0;
        let mut found = false;
        while j < m
            invariant_except_break
                !found,
            invariant
                m == out@.len(),
                j <= m,
                forall|q: int| 0 <= q < j ==> out@[q] != d,
            ensures
                found ==> exists|q: int| 0 <= q < m && out@[q] == d,
                !found ==> forall|q: int| 0 <= q < m ==> out@[q] != d,
            decreases m - j,
        {
            if out[j] == d {
                found = true;
                break;
            }
            j = j + 1;
        }
        let ghost before = out@;
        if !found {
            out.push(d);
        }
        proof {
            assert forall|x: int|
                #[trigger] day_set(cs@.subrange(0, i + 1)).contains(x) <==> exists|q: int|
                    0 <= q < out@.len() && out@[q] == x by {
                let pre = cs@.subrange(0, i as int);
                let cur = cs@.subrange(0, i + 1);
                assert(cur.last() == cs@[i as int]);
                assert(day_set(cur) == day_set(pre).insert(d as int));
                if x == d as int && !found {
                    assert(out@[before.len() as int] == x);
                }
                if exists|q: int| 0 <= q < out@.len() && out@[q] == x {
                    let q = choose|q: int| 0 <= q < out@.len() && out@[q] == x;
                    if q < before.len() {
                        assert(before[q] == x);
                    }
                }
                if exists|q: int| 0 <= q < before.len() && before[q] == x {
                    let q = choose|q: int| 0 <= q < before.len() && before[q] == x;
                    assert(out@[q] == x);
                }
            }
        }
        i = i + 1;
    }
    assert(cs@.subrange(0, n as int) =~= cs@);
    out
}

/// The clicks of `cs` made on day `d`.
pub fn clicks_on_day(cs: &Vec<Click>, d: i128) -> (r: Vec<Click>)
    ensures
        r@ == on_day(cs@, d as int),
{
    let n = cs.len();
    let mut out: Vec<Click> = Vec::new();
    let mut i: usize = 0;
    while i < n
        invariant
            n == cs@.len(),
            i <= n,
            out@ == on_day(cs@.subrange(0, i as int), d as int),
        decreases n - i,
    {
        assert(cs@.subrange(0, i + 1).drop_last() =~= cs@.subrange(0, i as int));
        if day_of_nanos(cs[i].at) == d {
            out.push(cs[i].copy());
        }
        i = i + 1;
    }
    assert(cs@.subrange(0, n as int) =~= cs@);
    out
}

/// The daily rollup of `cs`: the latest 30 days with clicks, newest first.
#[verifier::spinoff_prover]
#[verifier::rlimit(40)]
pub fn daily_stats(cs: &Vec<Click>) -> (r: Vec<DailyStats>)
    ensures
        daily_ok(cs@, r@),
{
    let days = distinct_days(cs);
    let ix = top_k(&days, MAX_DAYS);
    let mut out: Vec<DailyStats> = Vec::new();
    let mut t: usize = 0;
    while t < ix.len()
        invariant
            top_k_of(days@, MAX_DAYS as nat, ix@),
            t <= ix@.len(),
            out@.len() == t,
            forall|i: int| 0 <= i < t ==> #[trigger] out@[i].day == days@[ix@[i] as int],
            forall|i: int|
                0 <= i < t ==> {
                    &&& (#[trigger] out@[i]).clicks == on_day(cs@, out@[i].day as int).len()
                    &&& out@[i].unique_visitors == ip_set(on_day(cs@, out@[i].day as int)).len()
                },
        decreases ix@.len() - t,
    {
        let d = days[ix[t]];
        let on = clicks_on_day(cs, d);
        let v = count_visitors(&on);
        out.push(DailyStats { day: d, clicks: on.len(), unique_visitors: v });
        t = t + 1;
    }
    proof {
        let ds = out@;
        assert forall|i: int| 0 <= i < ds.len() implies day_set(cs@).contains(
            #[trigger] ds[i].day as int,
        ) by {
            assert(ix@[i] < days@.len());
        }
        assert forall|i: int| 0 <= i < ds.len() - 1 implies #[trigger] ds[i].day > ds[i + 1].day by {
            assert(ix@[i] != ix@[i + 1]);
            assert(days@[ix@[i] as int] >= days@[ix@[i + 1] as int]);
        }
        if ds.len() < MAX_DAYS {
            assert forall|d: int| #[trigger] day_set(cs@).contains(d) implies exists|i: int|
                0 <= i < ds.len() && ds[i].day == d by {
                let j = choose|j: int| 0 <= j < days@.len() && days@[j] == d;
                assert(ix@.contains(j as usize));
                let i = choose|i: int| 0 <= i < ix@.len() && ix@[i] == j as usize;
                assert(ds[i].day == d);
            }
        }
        if ds.len() > 0 {
            assert forall|d: int|
                #[trigger] day_set(cs@).contains(d) && !(exists|i: int|
                    0 <= i < ds.len() && ds[i].day == d) implies d < ds.last().day by {
                let j = choose|j: int| 0 <= j < days@.len() && days@[j] == d;
                if ix@.contains(j as usize) {
                    let i = choose|i: int| 0 <= i < ix@.len() && ix@[i] == j as usize;
                    assert(ds[i].day == d);
                }
                assert(!ix@.contains(j as usize));
                assert(days@[j] <= days@[ix@.last() as int]);
                assert(ix@.last() < days@.len());
                assert(ds.last().day == days@[ix@.last() as int]);
                if days@[j] == days@[ix@.last() as int] {
                    assert(j != ix@.last() as int);
                }
            }
        }
    }
    out
}

/// The countries of `cs`, each once, with their click counts.
pub fn country_groups(cs: &Vec<Click>) -> (r: (Vec<String>, Vec<i128>))
    ensures
        r.0@.len() == r.1@.len(),
        forall|a: int, b: int| 0 <= a < b < r.0@.len() ==> r.0@[a]@ != r.0@[b]@,
        forall|j: int|
            0 <= j < r.1@.len() ==> #[trigger] r.1@[j] == country_count(cs@, r.0@[j]@) && r.1@[j]
                > 0,
        forall|c: Seq<char>|
            #[trigger] country_count(cs@, c) > 0 ==> exists|j: int|
                0 <= j < r.0@.len() && r.0@[j]@ == c,
{
    let n = cs.len();
    let mut names: Vec<String> = Vec::new();
    let mut counts: Vec<i128> = Vec::new();
    let mut i: usize = 0;
    while i < n
        invariant
            n == cs@.len(),
            i <= n,
            names@.len() == counts@.len(),
            forall|a: int, b: int| 0 <= a < b < names@.len() ==> names@[a]@ != names@[b]@,
            forall|j: int|
                0 <= j < counts@.len() ==> #[trigger] counts@[j] == country_count(
                    cs@.subrange(0, i as int),
                    names@[j]@,
                ) && counts@[j] > 0,
            forall|c: Seq<char>|
                #[trigger] country_count(cs@.subrange(0, i as int), c) > 0 ==> exists|j: int|
                    0 <= j < names@.len() && names@[j]@ == c,
        decreases n - i,
    {
        let ghost pre = cs@.subrange(0, i as int);
        let ghost cur = cs@.subrange(0, i + 1);
        assert(cur.drop_last() =~= pre);
        assert(cur.last() == cs@[i as int]);
        match &cs[i].country {
            None => {
                assert forall|x: Seq<char>| country_count(cur, x) == country_count(pre, x) by {}
            },
            Some(c) => {
                assert forall|x: Seq<char>|
                    country_count(cur, x) == country_count(pre, x) + if x == c@ {
                        1nat
                    } else {
                        0nat
                    } by {}
                let m = names.len();
                let mut j: usize = 0;
                let mut found = false;
                while j < m
                    invariant_except_break
                        !found,
                    invariant
                        m == names@.len(),
                        j <= m,
                        forall|q: int| 0 <= q < j ==> names@[q]@ != c@,
                    ensures
                        found ==> j < m && names@[j as int]@ == c@,
                        !found ==> forall|q: int| 0 <= q < m ==> names@[q]@ != c@,
                    decreases m - j,
                {
                    if same_text(names[j].as_str(), c.as_str()) {
                        found = true;
                        break;
                    }
                    j = j + 1;
                }
                let ghost names0 = names@;
                let ghost counts0 = counts@;
                if found {
                    proof {
                        lemma_country_count_bound(pre, c@);
                    }
                    let v = counts[j] + 1;
                    counts.set(j, v);
                    proof {
                        assert forall|q: int| 0 <= q < counts@.len() implies #[trigger] counts@[q]
                            == country_count(cur, names@[q]@) && counts@[q] > 0 by {
                            if q != j as int {
                                assert(counts@[q] == counts0[q]);
                                assert(names@[q]@ != c@);
                            }
                        }
                    }
                } else {
                    names.push(c.clone());
                    counts.push(1);
                    proof {
                        assert forall|q: int| 0 <= q < counts@.len() implies #[trigger] counts@[q]
                            == country_count(cur, names@[q]@) && counts@[q] > 0 by {
                            if q < m as int {
                                assert(counts@[q] == counts0[q]);
                                assert(names@[q] == names0[q]);
                            }
                        }
                        assert forall|a: int, b: int| 0 <= a < b < names@.len() implies names@[a]@
                            != names@[b]@ by {
                            if b == m as int {
                                assert(names@[a] == names0[a]);
                            }
                        }
                        assert forall|x: Seq<char>| #[trigger] country_count(cur, x) > 0 implies exists|q: int|
                            0 <= q < names@.len() && names@[q]@ == x by {
                            if x == c@ {
                                assert(names@[m as int]@ == x);
                            } else {
                                let q = choose|q: int| 0 <= q < names0.len() && names0[q]@ == x;
                                assert(names@[q] == names0[q]);
                            }
                        }
                    }
                }
            },
        }
        i = i + 1;
    }
    assert(cs@.subrange(0, n as int) =~= cs@);
    (names, counts)
}

/// The ten countries with the most clicks in `cs`, most clicked first.
pub fn top_countries(cs: &Vec<Click>) -> (r: Vec<CountryStat>)
    ensures
        countries_ok(cs@, r@),
{
    let n = cs.len();
    let (names, counts) = country_groups(cs);
    let ix = top_k(&counts, MAX_COUNTRIES);
    let mut out: Vec<CountryStat> = Vec::new();
    let mut t: usize = 0;
    while t < ix.len()
        invariant
            n == cs@.len(),
            top_k_of(counts@, MAX_COUNTRIES as nat, ix@),
            names@.len() == counts@.len(),
            forall|j: int|
                0 <= j < counts@.len() ==> #[trigger] counts@[j] == country_count(cs@, names@[j]@)
                    && counts@[j] > 0,
            t <= ix@.len(),
            out@.len() == t,
            forall|i: int|
                0 <= i < t ==> (#[trigger] out@[i]).country@ == names@[ix@[i] as int]@
                    && out@[i].clicks == counts@[ix@[i] as int],
        decreases ix@.len() - t,
    {
        let p = ix[t];
        proof {
            assert(ix@[t as int] < counts@.len());
            lemma_country_count_bound(cs@, names@[p as int]@);
        }
        out.push(CountryStat { country: names[p].clone(), clicks: counts[p] as usize });
        t = t + 1;
    }
    proof {
        let ts = out@;
        assert forall|i: int| 0 <= i < ts.len() implies #[trigger] ts[i].clicks == country_count(
            cs@,
            ts[i].country@,
        ) && ts[i].clicks > 0 by {
            assert(ix@[i] < counts@.len());
        }
        assert forall|i: int, j: int| 0 <= i < j < ts.len() implies ts[i].country@
            != ts[j].country@ by {
            assert(ix@[i] != ix@[j]);
            assert(ix@[i] < counts@.len() && ix@[j] < counts@.len());
        }
        assert forall|i: int| 0 <= i < ts.len() - 1 implies #[trigger] ts[i].clicks >= ts[i
            + 1].clicks by {
            assert(counts@[ix@[i] as int] >= counts@[ix@[i + 1] as int]);
            assert(ix@[i] < counts@.len() && ix@[i + 1] < counts@.len());
        }
        if ts.len() < MAX_COUNTRIES {
            assert forall|c: Seq<char>| #[trigger] country_count(cs@, c) > 0 implies exists|i: int|
                0 <= i < ts.len() && ts[i].country@ == c by {
                let j = choose|j: int| 0 <= j < names@.len() && names@[j]@ == c;
                assert(ix@.contains(j as usize));
                let i = choose|i: int| 0 <= i < ix@.len() && ix@[i] == j as usize;
                assert(ts[i].country@ == c);
            }
        }
        if ts.len() > 0 {
            assert forall|c: Seq<char>|
                #[trigger] country_count(cs@, c) > 0 && !(exists|i: int|
                    0 <= i < ts.len() && ts[i].country@ == c) implies country_count(cs@, c)
                <= ts.last().clicks by {
                let j = choose|j: int| 0 <= j < names@.len() && names@[j]@ == c;
                if ix@.contains(j as usize) {
                    let i = choose|i: int| 0 <= i < ix@.len() && ix@[i] == j as usize;
                    assert(ts[i].country@ == c);
                }
                assert(counts@[j] <= counts@[ix@.last() as int]);
                assert(ix@.last() < counts@.len());
                assert(counts@[j] == country_count(cs@, c));
            }
        }
    }
    out
}

/// The 25 latest clicks of `cs`, latest first.
pub fn recent_clicks(cs: &Vec<Click>) -> (r: Vec<RecentClick>)
    ensures
        recent_ok(cs@, r@),
{
    let n = cs.len();
    let mut keys: Vec<i128> = Vec::new();
    let mut i: usize = 0;
    while i < n
        invariant
            n == cs@.len(),
            i <= n,
            keys@ =~= ats(cs@.subrange(0, i as int)),
        decreases n - i,
    {
        keys.push(cs[i].at);
        i = i + 1;
    }
    assert(cs@.subrange(0, n as int) =~= cs@);
    let ix = top_k(&keys, MAX_RECENT);
    let mut out: Vec<RecentClick> = Vec::new();
    let mut t: usize = 0;
    while t < ix.len()
        invariant
            n == cs@.len(),
            keys@ == ats(cs@),
            top_k_of(keys@, MAX_RECENT as nat, ix@),
            t <= ix@.len(),
            out@.len() == t,
            forall|q: int| 0 <= q < t ==> shows(#[trigger] out@[q], cs@[ix@[q] as int]),
        decreases ix@.len() - t,
    {
        let c = &cs[ix[t]];
        out.push(
            RecentClick {
                at: c.at,
                ip: copy_opt(&c.ip),
                country: copy_opt(&c.country),
                user_agent: copy_opt(&c.user_agent),
                referer: copy_opt(&c.referer),
            },
        );
        t = t + 1;
    }
    assert(top_k_of(ats(cs@), MAX_RECENT as nat, ix@));
    out
}

/// The statistics of `link` over the click log `cs`.
pub fn compute_stats(link: &Link, cs: &Vec<Click>) -> (r: StatsResp)
    ensures
        stats_of(r, *link, cs@),
{
    let mine = clicks_for(cs, link.code.as_str());
    let unique_visitors = count_visitors(&mine);
    StatsResp {
        code: link.code.clone(),
        target_url: link.target_url.clone(),
        created_at: link.created_at,
        expires_at: copy_opt(&link.expires_at),
        total_clicks: mine.len(),
        unique_visitors,
        clicks_by_day: daily_stats(&mine),
        top_countries: top_countries(&mine),
        recent_clicks: recent_clicks(&mine),
    }
}

/// One link with its status and totals.
#[derive(Debug)]
pub struct LinkSummary {
    pub code: String,
    pub target_url: String,
    pub created_at: i128,
    pub expires_at: Option<String>,
    pub expired: bool,
    pub total_clicks: usize,
    pub unique_visitors: usize,
}

/// Whether `s` summarises link `l` over the click log `cs` at `now`.
pub open spec fn summary_of(s: LinkSummary, l: Link, cs: Seq<Click>, now: int) -> bool {
    &&& s.code@ == l.code@
    &&& s.target_url@ == l.target_url@
    &&& s.created_at == l.created_at
    &&& s.expires_at == l.expires_at
    &&& s.expired == expired(opt_string(l.expires_at), now)
    &&& s.total_clicks == of_code(cs, l.code@).len()
    &&& s.unique_visitors == ip_set(of_code(cs, l.code@)).len()
}

/// The creation instants of `links`.
pub open spec fn created(links: Seq<Link>) -> Seq<i128> {
    links.map_values(|l: Link| l.created_at)
}

/// `ss` summarises every link once, newest first.
pub open spec fn summaries_ok(links: Seq<Link>, cs: Seq<Click>, now: int, ss: Seq<LinkSummary>) -> bool {
    exists|ix: Seq<usize>|
        #[trigger] top_k_of(created(links), links.len(), ix) && ss.len() == ix.len() && (forall|
            j: usize,
        | j < links.len() ==> #[trigger] ix.contains(j)) && forall|i: int|
            0 <= i < ss.len() ==> summary_of(#[trigger] ss[i], links[ix[i] as int], cs, now)
}

/// A summary of every link, newest first, at `now`.
pub fn link_summaries(links: &Vec<Link>, cs: &Vec<Click>, now: i128) -> (r: Vec<LinkSummary>)
    ensures
        summaries_ok(links@, cs@, now as int, r@),
{
    let n = links.len();
    let mut keys: Vec<i128> = Vec::new();
    let mut i: usize = 0;
    while i < n
        invariant
            n == links@.len(),
            i <= n,
            keys@ =~= created(links@.subrange(0, i as int)),
        decreases n - i,
    {
        keys.push(links[i].created_at);
        i = i + 1;
    }
    assert(links@.subrange(0, n as int) =~= links@);
    let ix = top_k(&keys, n);
    let mut out: Vec<LinkSummary> = Vec::new();
    let mut t: usize = 0;
    while t < ix.len()
        invariant
            n == links@.len(),
            keys@ == created(links@),
            top_k_of(keys@, n as nat, ix@),
            t <= ix@.len(),
            out@.len() == t,
            forall|q: int|
                0 <= q < t ==> summary_of(#[trigger] out@[q], links@[ix@[q] as int], cs@, now as int),
        decreases ix@.len() - t,
    {
        let l = &links[ix[t]];
        let mine = clicks_for(cs, l.code.as_str());
        let exp: Option<&str> = match &l.expires_at {
            None => None,
            Some(e) => Some(e.as_str()),
        };
        out.push(
            LinkSummary {
                code: l.code.clone(),
                target_url: l.target_url.clone(),
                created_at: l.created_at,
                expires_at: copy_opt(&l.expires_at),
                expired: is_expired(exp, now),
                total_clicks: mine.len(),
                unique_visitors: count_visitors(&mine),
            },
        );
        t = t + 1;
    }
    proof {
        lemma_distinct_positions(ix@, n as nat);
    }
    assert(top_k_of(created(links@), links@.len(), ix@));
    out
}

} // verus!
