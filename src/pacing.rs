use vstd::prelude::*;

verus! {

/// Minimum time between the starts of two live registry requests, in milliseconds.
pub const REGISTRY_INTERVAL_MS: u64 = 1000;

/// How long to wait after a live request that started at `start_ms` and ended at
/// `now_ms` before the next live request may start.
pub open spec fn wait_spec(start_ms: int, now_ms: int, interval_ms: int) -> int {
    if now_ms - start_ms >= interval_ms {
        0
    } else {
        start_ms + interval_ms - now_ms
    }
}

/// The remaining part of the interval after a live request, zero once it has passed.
pub fn registry_wait_ms(start_ms: u64, now_ms: u64, interval_ms: u64) -> (r: u64)
    requires
        start_ms <= now_ms,
    ensures
        r == wait_spec(start_ms as int, now_ms as int, interval_ms as int),
{
    let elapsed = now_ms - start_ms;
    if elapsed >= interval_ms {
        0
    } else {
        interval_ms - elapsed
    }
}

/// A request that waits the computed time after the previous one ended starts no
/// earlier than one interval after the previous one started, and no later than
/// needed.
pub proof fn lemma_next_start_after_interval(start_ms: int, now_ms: int, interval_ms: int)
    requires
        start_ms <= now_ms,
        0 <= interval_ms,
    ensures
        now_ms + wait_spec(start_ms, now_ms, interval_ms) >= start_ms + interval_ms,
        now_ms + wait_spec(start_ms, now_ms, interval_ms) == if now_ms >= start_ms + interval_ms {
            now_ms
        } else {
            start_ms + interval_ms
        },
{
}

/// Whole seconds from `now` until `reset`, zero when `reset` has passed.
pub open spec fn seconds_until(reset: int, now: int) -> int {
    if reset > now {
        reset - now
    } else {
        0
    }
}

/// Whole seconds to wait for a quota reset at Unix time `reset`, seen at `now`.
pub fn wait_seconds(reset: i64, now: i64) -> (r: u64)
    ensures
        r == seconds_until(reset as int, now as int),
{
    if reset > now {
        (reset as i128 - now as i128) as u64
    } else {
        0
    }
}

/// A wait split into whole minutes and the seconds that remain, for display.
pub fn minutes_seconds(total: u64) -> (r: (u64, u64))
    ensures
        r.0 == total / 60,
        r.1 == total % 60,
        r.0 * 60 + r.1 == total,
{
    (total / 60, total % 60)
}

/// The request quota of the GitHub API as last seen, counted down locally.
#[derive(Debug, Clone, Copy, PartialEq, Eq)]
pub struct Quota {
    pub limit: u64,
    pub remaining: u64,
    pub reset: i64,
}

/// What to do before a request: go ahead with the quota after it, or wait until
/// the reset time and then read the quota again.
#[derive(Debug, Clone, Copy, PartialEq, Eq)]
pub enum QuotaStep {
    Proceed(Quota),
    WaitUntil(i64),
}

/// Takes one request from the quota, or says to wait when none is left.
pub fn take_request(q: Quota) -> (r: QuotaStep)
    ensures
        q.remaining > 0 ==> r == QuotaStep::Proceed(Quota { remaining: (q.remaining - 1) as u64, ..q }),
        q.remaining == 0 ==> r == QuotaStep::WaitUntil(q.reset),
{
    if q.remaining > 0 {
        QuotaStep::Proceed(Quota { limit: q.limit, remaining: q.remaining - 1, reset: q.reset })
    } else {
        QuotaStep::WaitUntil(q.reset)
    }
}

/// The quota after a reset: the fresh one, with the limit of the previous window
/// added to its limit.
pub fn after_reset(previous: Quota, fresh: Quota) -> (r: Quota)
    requires
        previous.limit + fresh.limit <= u64::MAX,
    ensures
        r.limit == previous.limit + fresh.limit,
        r.remaining == fresh.remaining,
        r.reset == fresh.reset,
{
    Quota { limit: previous.limit + fresh.limit, remaining: fresh.remaining, reset: fresh.reset }
}

} // verus!
