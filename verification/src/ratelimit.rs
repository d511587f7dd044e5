//! The per-user fixed-window rate limiter.
//!
//! Time is a monotonic clock in milliseconds, passed in by the caller.  A
//! window is one second wide; a request inside the window grows the
//! counter and is admitted only while the counter stays within the quota;
//! a request at or past the window's end resets the window and is
//! admitted.  A burst straddling two adjacent windows can therefore be
//! admitted close to twice the quota inside a rolling second: that is the
//! accepted approximation of this scheme, not an accident.

use vstd::prelude::*;

verus! {

/// One user's window: how many requests it has seen and when it started.
#[derive(Clone, Copy, Debug, PartialEq, Eq, Structural)]
pub struct RateLimitState {
    pub request_count: u64,
    pub last_request_time: u64,
}

/// Milliseconds from `last` to `now`, zero if the clock did not advance.
pub open spec fn elapsed_ms(last: u64, now: u64) -> int {
    if now >= last {
        now - last
    } else {
        0
    }
}

/// One step of the fixed-window scheme: the state after a request at
/// `now`, and whether that request is admitted.  A missing entry behaves
/// as a window that opens with this request.
pub open spec fn rl_step(e: Option<RateLimitState>, qps: u32, now: u64) -> (
    RateLimitState,
    bool,
) {
    match e {
        None => (
            RateLimitState { request_count: 1, last_request_time: now },
            1 <= qps as u64,
        ),
        Some(s) => {
            if elapsed_ms(s.last_request_time, now) < 1000 {
                let c: u64 = if s.request_count < u64::MAX {
                    (s.request_count + 1) as u64
                } else {
                    u64::MAX
                };
                (
                    RateLimitState { request_count: c, last_request_time: s.last_request_time },
                    c <= qps as u64,
                )
            } else {
                (RateLimitState { request_count: 1, last_request_time: now }, true)
            }
        },
    }
}

/// Applies one request at `now` to an existing entry.
pub fn rate_limit_step(e: &mut RateLimitState, qps: u32, now: u64) -> (allowed: bool)
    ensures
        *final(e) == rl_step(Some(*old(e)), qps, now).0,
        allowed == rl_step(Some(*old(e)), qps, now).1,
{
    let elapsed: u64 = if now >= e.last_request_time {
        now - e.last_request_time
    } else {
        0
    };
    if elapsed < 1000 {
        if e.request_count < u64::MAX {
            e.request_count = e.request_count + 1;
        }
        e.request_count <= qps as u64
    } else {
        e.request_count = 1;
        e.last_request_time = now;
        true
    }
}

/// The window a first request at `now` opens.
pub fn rate_limit_fresh(now: u64) -> (e: RateLimitState)
    ensures
        e == rl_step(None, 0u32, now).0,
        e == (RateLimitState { request_count: 1, last_request_time: now }),
{
    RateLimitState { request_count: 1, last_request_time: now }
}

/// A whole run of requests at the given times: the final state and each
/// request's admission.
pub open spec fn rl_run(e: Option<RateLimitState>, qps: u32, nows: Seq<u64>) -> (
    RateLimitState,
    Seq<bool>,
)
    decreases nows.len(),
{
    if nows.len() == 0 {
        (
            match e {
                Some(s) => s,
                None => RateLimitState { request_count: 0, last_request_time: 0 },
            },
            Seq::empty(),
        )
    } else {
        let first = rl_step(e, qps, nows[0]);
        let rest = rl_run(Some(first.0), qps, nows.drop_first());
        (rest.0, seq![first.1] + rest.1)
    }
}

proof fn lemma_window_run(s: RateLimitState, qps: u32, nows: Seq<u64>)
    requires
        s.request_count as int + nows.len() <= u64::MAX,
        forall|i: int|
            0 <= i < nows.len() ==> s.last_request_time <= #[trigger] nows[i]
                < s.last_request_time + 1000,
    ensures
        rl_run(Some(s), qps, nows).1.len() == nows.len(),
        forall|i: int|
            0 <= i < nows.len() ==> rl_run(Some(s), qps, nows).1[i] == (s.request_count + i + 1
                <= qps as u64),
        rl_run(Some(s), qps, nows).0 == (RateLimitState {
            request_count: (s.request_count + nows.len()) as u64,
            last_request_time: s.last_request_time,
        }),
    decreases nows.len(),
{
    if nows.len() > 0 {
        let first = rl_step(Some(s), qps, nows[0]);
        let s2 = first.0;
        assert(elapsed_ms(s.last_request_time, nows[0]) < 1000);
        assert(s2 == (RateLimitState {
            request_count: (s.request_count + 1) as u64,
            last_request_time: s.last_request_time,
        }));
        assert(first.1 == (s.request_count + 1 <= qps as u64));
        let rest = nows.drop_first();
        assert(forall|i: int|
            0 <= i < rest.len() ==> #[trigger] rest[i] == nows[i + 1]);
        lemma_window_run(s2, qps, rest);
        let whole = rl_run(Some(s), qps, nows);
        assert(whole.1 == seq![first.1] + rl_run(Some(s2), qps, rest).1);
        assert(forall|i: int|
            1 <= i < nows.len() ==> #[trigger] whole.1[i] == rl_run(Some(s2), qps, rest).1[i
                - 1]);
        assert(whole.1[0] == first.1);
    }
}

/// The fixed-window quota, as one law: starting with no entry and a quota
/// of `qps`, requests all falling inside the window opened by the first
/// one are admitted exactly as long as their number stays within `qps` —
/// so with `qps` of them, all are admitted and one more is refused — and
/// the counter afterwards holds the number of requests seen.
pub proof fn lemma_fixed_window_quota(qps: u32, nows: Seq<u64>)
    requires
        1 <= nows.len() <= u64::MAX,
        forall|i: int| 0 <= i < nows.len() ==> nows[0] <= #[trigger] nows[i] < nows[0] + 1000,
    ensures
        rl_run(None, qps, nows).1.len() == nows.len(),
        forall|i: int|
            0 <= i < nows.len() ==> rl_run(None, qps, nows).1[i] == (i + 1 <= qps as u64),
        rl_run(None, qps, nows).0 == (RateLimitState {
            request_count: nows.len() as u64,
            last_request_time: nows[0],
        }),
{
    let first = rl_step(None, qps, nows[0]);
    let s1 = first.0;
    assert(s1 == (RateLimitState { request_count: 1, last_request_time: nows[0] }));
    assert(first.1 == (1 <= qps as u64));
    let rest = nows.drop_first();
    assert(forall|i: int| 0 <= i < rest.len() ==> #[trigger] rest[i] == nows[i + 1]);
    lemma_window_run(s1, qps, rest);
    let whole = rl_run(None, qps, nows);
    assert(whole.1 == seq![first.1] + rl_run(Some(s1), qps, rest).1);
    assert(forall|i: int|
        1 <= i < nows.len() ==> #[trigger] whole.1[i] == rl_run(Some(s1), qps, rest).1[i - 1]);
    assert(whole.1[0] == first.1);
}

/// After a full second of quiet, the next request is admitted and the
/// counter starts over at one.
pub proof fn lemma_window_reset(s: RateLimitState, qps: u32, now: u64)
    requires
        now >= s.last_request_time + 1000,
    ensures
        rl_step(Some(s), qps, now) == (
            RateLimitState { request_count: 1, last_request_time: now },
            true,
        ),
{
}

} // verus!
