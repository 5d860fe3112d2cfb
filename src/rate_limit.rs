//! Sliding-window admission control keyed by client identifier.

use vstd::prelude::*;
use crate::text::same_text;

verus! {

/// Nanoseconds in a millisecond.
pub const NANOS_PER_MILLI: i128 = 1_000_000;

/// Whether an admission at `t` still counts at `now` for a window of `window`
/// nanoseconds: it is not older than `now - window`.
pub open spec fn within(now: int, t: int, window: int) -> bool {
    now - t < window
}

/// The admissions of `s` that still count at `now`, in their order.
pub open spec fn live(s: Seq<i128>, now: int, window: int) -> Seq<i128>
    decreases s.len(),
{
    if s.len() == 0 {
        Seq::empty()
    } else if within(now, s.last() as int, window) {
        live(s.drop_last(), now, window).push(s.last())
    } else {
        live(s.drop_last(), now, window)
    }
}

/// The admissions recorded for one key.
pub struct Bucket {
    pub key: String,
    pub stamps: Vec<i128>,
}

/// The admissions recorded for `key` in a list of buckets.
pub open spec fn stamps_in(bs: Seq<Bucket>, key: Seq<char>) -> Seq<i128>
    decreases bs.len(),
{
    if bs.len() == 0 {
        Seq::empty()
    } else if bs.last().key@ == key {
        bs.last().stamps@
    } else {
        stamps_in(bs.drop_last(), key)
    }
}

/// Whether `rl` admits a request from `key` at `now`: fewer than the limit
/// of its admissions still count.
pub open spec fn admits(rl: RateLimiter, key: Seq<char>, now: int) -> bool {
    live(rl.recent(key), now, rl.spec_window()).len() < rl.spec_limit()
}

/// One call of `allow`: from `pre` to `post`, for `key` at `now`, answering `r`.
pub open spec fn allow_step(
    pre: RateLimiter,
    post: RateLimiter,
    key: Seq<char>,
    now: i128,
    r: bool,
) -> bool {
    &&& post.wf()
    &&& post.spec_limit() == pre.spec_limit()
    &&& post.spec_window() == pre.spec_window()
    &&& post.spec_window_ms() == pre.spec_window_ms()
    &&& r == admits(pre, key, now as int)
    &&& post.recent(key) == if r {
        live(pre.recent(key), now as int, pre.spec_window()).push(now)
    } else {
        live(pre.recent(key), now as int, pre.spec_window())
    }
    &&& forall|k: Seq<char>| k != key ==> post.recent(k) == pre.recent(k)
}

/// Admits at most `limit` requests per key within a trailing window.
pub struct RateLimiter {
    buckets: Vec<Bucket>,
    limit: usize,
    window_ms: u64,
    window: i128,
}

impl RateLimiter {
    /// The number of admissions allowed per window.
    pub closed spec fn spec_limit(&self) -> usize {
        self.limit
    }

    /// The window's length in nanoseconds.
    pub closed spec fn spec_window(&self) -> int {
        self.window as int
    }

    /// The window's length in milliseconds.
    pub closed spec fn spec_window_ms(&self) -> u64 {
        self.window_ms
    }

    /// The admissions recorded for `key`, oldest first.
    pub closed spec fn recent(&self, key: Seq<char>) -> Seq<i128> {
        stamps_in(self.buckets@, key)
    }

    /// The keys are distinct, and no key holds more than `limit` admissions.
    /// The admissions of a key are kept in the order of the calls that made
    /// them; they are in time order only when callers pass non-decreasing
    /// instants, which a wall clock does not promise.
    pub closed spec fn wf(&self) -> bool {
        &&& forall|i: int, j: int|
            0 <= i < j < self.buckets@.len() ==> self.buckets@[i].key@ != self.buckets@[j].key@
        &&& forall|i: int|
            0 <= i < self.buckets@.len() ==> #[trigger] self.buckets@[i].stamps@.len()
                <= self.limit
        &&& self.window == self.window_ms as int * NANOS_PER_MILLI
    }

    /// No key holds more than `limit` admissions.
    pub proof fn lemma_recent_bounded(&self, key: Seq<char>)
        requires
            self.wf(),
        ensures
            self.recent(key).len() <= self.spec_limit(),
    {
        lemma_stamps_in_bounded(self.buckets@, key, self.limit as nat);
    }

    /// The number of admissions allowed per window.
    pub fn limit(&self) -> (r: usize)
        ensures
            r == self.spec_limit(),
    {
        self.limit
    }

    /// The window's length in milliseconds.
    pub fn window_ms(&self) -> (r: u64)
        ensures
            r == self.spec_window_ms(),
    {
        self.window_ms
    }

    /// A limiter with no admissions, allowing `limit` requests per window of
    /// `window_ms` milliseconds.
    pub fn new(limit: usize, window_ms: u64) -> (r: Self)
        ensures
            r.wf(),
            r.spec_limit() == limit,
            r.spec_window() == window_ms as int * NANOS_PER_MILLI,
            r.spec_window_ms() == window_ms,
            forall|k: Seq<char>| r.recent(k) == Seq::<i128>::empty(),
    {
        RateLimiter {
            buckets: Vec::new(),
            limit,
            window_ms,
            window: (window_ms as i128) * NANOS_PER_MILLI,
        }
    }

    /// Drops the admissions of `key` that no longer count at `now`; then
    /// admits and records `now` if fewer than `limit` remain, and refuses
    /// otherwise.
    pub fn allow(&mut self, key: &str, now: i128) -> (r: bool)
        requires
            old(self).wf(),
        ensures
            allow_step(*old(self), *final(self), key@, now, r),
    {
        let n = self.buckets.len();
        let mut i: usize = 0;
        while i < n
            invariant
                n == self.buckets@.len(),
                i <= n,
                forall|j: int| 0 <= j < i ==> self.buckets@[j].key@ != key@,
            ensures
                i <= n,
                forall|j: int| 0 <= j < i ==> self.buckets@[j].key@ != key@,
                i < n ==> self.buckets@[i as int].key@ == key@,
            decreases n - i,
        {
            if same_text(self.buckets[i].key.as_str(), key) {
                break;
            }
            i = i + 1;
        }
        proof {
            lemma_stamps_in_found(self.buckets@, key@, i as int);
        }
        let ghost before = self.recent(key@);
        let mut kept: Vec<i128> = Vec::new();
        if i < n {
            let stamps = &self.buckets[i].stamps;
            let m = stamps.len();
            let mut j: usize = 0;
            while j < m
                invariant
                    m == stamps@.len(),
                    j <= m,
                    self.window >= 0,
                    kept@ == live(stamps@.subrange(0, j as int), now as int, self.window as int),
                decreases m - j,
            {
                let t = stamps[j];
                assert(stamps@.subrange(0, j + 1).drop_last() =~= stamps@.subrange(0, j as int));
                let counts = match now.checked_sub(t) {
                    Some(age) => age < self.window,
                    None => now < t,
                };
                if counts {
                    kept.push(t);
                }
                j = j + 1;
            }
            assert(stamps@.subrange(0, m as int) =~= stamps@);
        }
        assert(kept@ == live(before, now as int, self.window as int));
        proof {
            lemma_live_len(before, now as int, self.window as int);
            if i < n {
                assert(self.buckets@[i as int].stamps@.len() <= self.limit);
            }
        }
        let admitted = kept.len() < self.limit;
        if admitted {
            kept.push(now);
        }
        let ghost old_buckets = self.buckets@;
        if i < n {
            let key_copy = self.buckets[i].key.clone();
            self.buckets.set(i, Bucket { key: key_copy, stamps: kept });
            proof {
                lemma_stamps_in_set(old_buckets, i as int, self.buckets@[i as int]);
            }
        } else {
            self.buckets.push(Bucket { key: key.to_owned(), stamps: kept });
            proof {
                lemma_stamps_in_push(old_buckets, self.buckets@.last());
            }
        }
        admitted
    }
}

/// The admissions of a key are those of some bucket, or none.
proof fn lemma_stamps_in_bounded(bs: Seq<Bucket>, key: Seq<char>, limit: nat)
    requires
        forall|i: int| 0 <= i < bs.len() ==> #[trigger] bs[i].stamps@.len() <= limit,
    ensures
        stamps_in(bs, key).len() <= limit,
    decreases bs.len(),
{
    if bs.len() > 0 {
        let rest = bs.drop_last();
        assert forall|i: int| 0 <= i < rest.len() implies #[trigger] rest[i].stamps@.len() <= limit by {
            assert(rest[i] == bs[i]);
        }
        lemma_stamps_in_bounded(rest, key, limit);
        assert(bs[bs.len() - 1].stamps@.len() <= limit);
    }
}

/// Pruning keeps no more admissions than there were.
proof fn lemma_live_len(s: Seq<i128>, now: int, window: int)
    ensures
        live(s, now, window).len() <= s.len(),
    decreases s.len(),
{
    if s.len() > 0 {
        lemma_live_len(s.drop_last(), now, window);
    }
}

/// Where the search stopped: at the bucket of `key`, or past the end with no
/// bucket of it.
proof fn lemma_stamps_in_found(bs: Seq<Bucket>, key: Seq<char>, i: int)
    requires
        0 <= i <= bs.len(),
        forall|j: int| 0 <= j < i ==> bs[j].key@ != key,
        i < bs.len() ==> bs[i].key@ == key,
        forall|a: int, b: int| 0 <= a < b < bs.len() ==> bs[a].key@ != bs[b].key@,
    ensures
        i < bs.len() ==> stamps_in(bs, key) == bs[i].stamps@,
        i == bs.len() ==> stamps_in(bs, key) == Seq::<i128>::empty(),
    decreases bs.len(),
{
    if bs.len() > 0 {
        if i == bs.len() - 1 {
        } else {
            lemma_stamps_in_found(bs.drop_last(), key, if i == bs.len() { i - 1 } else { i });
        }
    }
}

/// Replacing the stamps of the bucket at `i` changes only what its key reads.
proof fn lemma_stamps_in_set(bs: Seq<Bucket>, i: int, b: Bucket)
    requires
        0 <= i < bs.len(),
        b.key@ == bs[i].key@,
        forall|a: int, c: int| 0 <= a < c < bs.len() ==> bs[a].key@ != bs[c].key@,
    ensures
        stamps_in(bs.update(i, b), b.key@) == b.stamps@,
        forall|k: Seq<char>| k != b.key@ ==> stamps_in(bs.update(i, b), k) == stamps_in(bs, k),
    decreases bs.len(),
{
    let nb = bs.update(i, b);
    if i == bs.len() - 1 {
        assert(nb.drop_last() =~= bs.drop_last());
    } else {
        assert(nb.drop_last() =~= bs.drop_last().update(i, b));
        lemma_stamps_in_set(bs.drop_last(), i, b);
        assert(bs.last().key@ != b.key@);
    }
    assert forall|k: Seq<char>| k != b.key@ implies stamps_in(nb, k) == stamps_in(bs, k) by {
        if i == bs.len() - 1 {
            assert(nb.last() == b);
            assert(bs.last().key@ == b.key@);
            assert(stamps_in(nb, k) == stamps_in(nb.drop_last(), k));
            assert(stamps_in(bs, k) == stamps_in(bs.drop_last(), k));
        } else {
            assert(nb.last() == bs.last());
            assert(stamps_in(bs.drop_last().update(i, b), k) == stamps_in(bs.drop_last(), k));
            assert(stamps_in(nb.drop_last(), k) == stamps_in(bs.drop_last(), k));
        }
    }
}

/// Appending a bucket for a new key changes only what that key reads.
proof fn lemma_stamps_in_push(bs: Seq<Bucket>, b: Bucket)
    ensures
        stamps_in(bs.push(b), b.key@) == b.stamps@,
        forall|k: Seq<char>| k != b.key@ ==> stamps_in(bs.push(b), k) == stamps_in(bs, k),
{
    assert(bs.push(b).drop_last() =~= bs);
}

} // verus!
