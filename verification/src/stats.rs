//! Online per-user, per-method latency statistics.
//!
//! Latencies are whole milliseconds.  Each entry keeps the exact moments
//! of everything it has recorded — count, sum, sum of squares, minimum and
//! maximum — from which mean, variance and standard deviation follow; the
//! recorded history itself is kept only as ghost state, and the moments
//! are proved to summarise it exactly.  A flush hands the tracked entries
//! back to the caller (which writes them to the log) and clears them.

use vstd::prelude::*;
use vstd::string::StringExecFns;

verus! {

/// The sum of a sample sequence.
pub open spec fn sum_of(s: Seq<u32>) -> int
    decreases s.len(),
{
    if s.len() == 0 {
        0
    } else {
        sum_of(s.drop_last()) + s.last()
    }
}

/// The sum of the squares of a sample sequence.
pub open spec fn sum_sq_of(s: Seq<u32>) -> int
    decreases s.len(),
{
    if s.len() == 0 {
        0
    } else {
        sum_sq_of(s.drop_last()) + s.last() * s.last()
    }
}

/// The least sample, or the largest representable latency when there is
/// none.
pub open spec fn min_of(s: Seq<u32>) -> u32
    decreases s.len(),
{
    if s.len() == 0 {
        u32::MAX
    } else if s.last() < min_of(s.drop_last()) {
        s.last()
    } else {
        min_of(s.drop_last())
    }
}

/// The greatest sample, or zero when there is none.
pub open spec fn max_of(s: Seq<u32>) -> u32
    decreases s.len(),
{
    if s.len() == 0 {
        0u32
    } else if s.last() > max_of(s.drop_last()) {
        s.last()
    } else {
        max_of(s.drop_last())
    }
}

pub proof fn lemma_moment_bounds(s: Seq<u32>)
    ensures
        0 <= sum_of(s) <= s.len() * (u32::MAX as int),
        0 <= sum_sq_of(s) <= s.len() * ((u32::MAX as int) * (u32::MAX as int)),
    decreases s.len(),
{
    if s.len() > 0 {
        lemma_moment_bounds(s.drop_last());
        let x = s.last() as int;
        assert(x * x <= (u32::MAX as int) * (u32::MAX as int)) by (nonlinear_arith)
            requires
                0 <= x <= u32::MAX as int,
        ;
    }
}

/// The running statistics of one RPC method for one user.
#[derive(Clone)]
pub struct RpcMethodState {
    pub method: String,
    pub request_count: u64,
    pub sum_ms: u128,
    pub sum_sq_ms: u128,
    pub min_ms: u32,
    pub max_ms: u32,
    pub samples: Ghost<Seq<u32>>,
}

impl RpcMethodState {
    /// The moments summarise the recorded samples exactly.
    pub open spec fn wf(self) -> bool {
        &&& self.request_count == self.samples@.len()
        &&& self.sum_ms == sum_of(self.samples@)
        &&& self.sum_sq_ms == sum_sq_of(self.samples@)
        &&& self.min_ms == min_of(self.samples@)
        &&& self.max_ms == max_of(self.samples@)
    }

    /// An entry that has recorded nothing yet.
    pub fn new(method: &str) -> (r: RpcMethodState)
        ensures
            r.wf(),
            r.method@ == method@,
            r.samples@ == Seq::<u32>::empty(),
            r.request_count == 0,
    {
        RpcMethodState {
            method: String::from_str(method),
            request_count: 0,
            sum_ms: 0,
            sum_sq_ms: 0,
            min_ms: u32::MAX,
            max_ms: 0,
            samples: Ghost(Seq::empty()),
        }
    }

    /// Records one latency.  Once the counter has reached its ceiling —
    /// after more requests than a machine can make — further samples are
    /// dropped rather than corrupting the moments.
    pub fn update(&mut self, response_time: u32)
        requires
            old(self).wf(),
        ensures
            final(self).wf(),
            final(self).method == old(self).method,
            old(self).request_count < u64::MAX ==> final(self).samples@ == old(
                self,
            ).samples@.push(response_time),
            old(self).request_count == u64::MAX ==> *final(self) == *old(self),
    {
        if self.request_count == u64::MAX {
            return ;
        }
        proof {
            lemma_moment_bounds(self.samples@);
            let s2 = self.samples@.push(response_time);
            assert(s2.drop_last() =~= self.samples@);
            let x = response_time as int;
            let m = u32::MAX as int;
            assert(x * x <= m * m) by (nonlinear_arith)
                requires
                    0 <= x <= m,
            ;
            assert(sum_of(self.samples@) <= (u64::MAX - 1) * m) by (nonlinear_arith)
                requires
                    sum_of(self.samples@) <= self.samples@.len() * m,
                    self.samples@.len() <= u64::MAX - 1,
                    m >= 0,
            ;
            assert(sum_sq_of(self.samples@) <= (u64::MAX - 1) * (m * m)) by (nonlinear_arith)
                requires
                    sum_sq_of(self.samples@) <= self.samples@.len() * (m * m),
                    self.samples@.len() <= u64::MAX - 1,
                    m * m >= 0,
            ;
        }
        self.request_count = self.request_count + 1;
        self.sum_ms = self.sum_ms + response_time as u128;
        self.sum_sq_ms = self.sum_sq_ms + (response_time as u128) * (response_time as u128);
        if response_time < self.min_ms {
            self.min_ms = response_time;
        }
        if response_time > self.max_ms {
            self.max_ms = response_time;
        }
        let ghost s2 = self.samples@.push(response_time);
        proof {
            self.samples@ = s2;
        }
    }
}

/// Finds the entry for a method.
pub open spec fn find_method(s: Seq<RpcMethodState>, m: Seq<char>) -> Option<RpcMethodState>
    decreases s.len(),
{
    if s.len() == 0 {
        None
    } else if s[0].method@ == m {
        Some(s[0])
    } else {
        find_method(s.drop_first(), m)
    }
}

proof fn lemma_find_method_at(s: Seq<RpcMethodState>, i: int)
    requires
        0 <= i < s.len(),
        forall|k: int| 0 <= k < i ==> (#[trigger] s[k]).method@ != s[i].method@,
    ensures
        find_method(s, s[i].method@) == Some(s[i]),
    decreases i,
{
    if i > 0 {
        let s2 = s.drop_first();
        assert(forall|k: int| 0 <= k < s2.len() ==> #[trigger] s2[k] == s[k + 1]);
        lemma_find_method_at(s2, i - 1);
    }
}

proof fn lemma_find_method_none(s: Seq<RpcMethodState>, m: Seq<char>)
    requires
        forall|k: int| 0 <= k < s.len() ==> (#[trigger] s[k]).method@ != m,
    ensures
        find_method(s, m) is None,
    decreases s.len(),
{
    if s.len() > 0 {
        let s2 = s.drop_first();
        assert(forall|k: int| 0 <= k < s2.len() ==> #[trigger] s2[k] == s[k + 1]);
        lemma_find_method_none(s2, m);
    }
}

proof fn lemma_find_method_update(s: Seq<RpcMethodState>, i: int, e2: RpcMethodState, m: Seq<char>)
    requires
        0 <= i < s.len(),
        e2.method@ == s[i].method@,
        forall|k: int| 0 <= k < i ==> (#[trigger] s[k]).method@ != s[i].method@,
    ensures
        find_method(s.update(i, e2), s[i].method@) == Some(e2),
        m != s[i].method@ ==> find_method(s.update(i, e2), m) == find_method(s, m),
    decreases i,
{
    let s2 = s.update(i, e2);
    if i == 0 {
        assert(s2[0] == e2);
        if m != s[0].method@ {
            assert(s2.drop_first() =~= s.drop_first());
        }
    } else {
        assert(s2[0] == s[0]);
        assert(s2.drop_first() =~= s.drop_first().update(i - 1, e2));
        let t = s.drop_first();
        assert(forall|k: int| 0 <= k < t.len() ==> #[trigger] t[k] == s[k + 1]);
        lemma_find_method_update(t, i - 1, e2, m);
    }
}

proof fn lemma_find_method_push(s: Seq<RpcMethodState>, e: RpcMethodState, m: Seq<char>)
    ensures
        find_method(s.push(e), m) == (match find_method(s, m) {
            Some(x) => Some(x),
            None => if e.method@ == m {
                Some(e)
            } else {
                None::<RpcMethodState>
            },
        }),
    decreases s.len(),
{
    if s.len() == 0 {
        assert(s.push(e)[0] == e);
        assert(s.push(e).drop_first() =~= Seq::<RpcMethodState>::empty());
    } else {
        assert(s.push(e)[0] == s[0]);
        assert(s.push(e).drop_first() =~= s.drop_first().push(e));
        lemma_find_method_push(s.drop_first(), e, m);
    }
}

/// How the entry for a method looks after recording `x`, next to how it
/// looked before.
pub open spec fn updated_entry(
    old_e: Option<RpcMethodState>,
    new_e: Option<RpcMethodState>,
    m: Seq<char>,
    x: u32,
) -> bool {
    match old_e {
        Some(e1) => match new_e {
            Some(e2) => {
                &&& e2.method == e1.method
                &&& e2.wf()
                &&& (e1.request_count < u64::MAX ==> e2.samples@ == e1.samples@.push(x))
                &&& (e1.request_count == u64::MAX ==> e2 == e1)
            },
            None => false,
        },
        None => match new_e {
            Some(e2) => {
                &&& e2.method@ == m
                &&& e2.wf()
                &&& e2.samples@ == seq![x]
            },
            None => false,
        },
    }
}

/// One user's tracked methods and when they were last flushed to the log.
#[derive(Clone)]
pub struct UserRpcMethodState {
    pub user_id: String,
    pub last_log_time: u64,
    pub rpc_method_state: Vec<RpcMethodState>,
}

/// Whether the flush interval (in seconds) has elapsed since `last` at
/// the millisecond clock reading `now`.
pub open spec fn flush_due(last: u64, now: u64, interval_secs: u64) -> bool {
    crate::ratelimit::elapsed_ms(last, now) / 1000 > interval_secs
}

impl UserRpcMethodState {
    /// Every entry is well formed and no method occurs twice.
    pub open spec fn wf(self) -> bool {
        &&& forall|i: int|
            0 <= i < self.rpc_method_state@.len() ==> (#[trigger] self.rpc_method_state@[i]).wf()
        &&& forall|i: int, j: int|
            0 <= i < j < self.rpc_method_state@.len() ==> self.rpc_method_state@[i].method@
                != self.rpc_method_state@[j].method@
    }

    /// A user state that starts tracking at `now`.
    pub fn new(user_id: &str, now: u64) -> (r: UserRpcMethodState)
        ensures
            r.wf(),
            r.user_id@ == user_id@,
            r.last_log_time == now,
            r.rpc_method_state@ == Seq::<RpcMethodState>::empty(),
    {
        UserRpcMethodState {
            user_id: String::from_str(user_id),
            last_log_time: now,
            rpc_method_state: Vec::new(),
        }
    }

    /// Records one latency for `rpc_method`, creating the entry on its
    /// first appearance.
    pub fn update_method(&mut self, rpc_method: &str, response_time: u32)
        requires
            old(self).wf(),
        ensures
            final(self).wf(),
            final(self).user_id == old(self).user_id,
            final(self).last_log_time == old(self).last_log_time,
            updated_entry(
                find_method(old(self).rpc_method_state@, rpc_method@),
                find_method(final(self).rpc_method_state@, rpc_method@),
                rpc_method@,
                response_time,
            ),
            forall|m: Seq<char>|
                m != rpc_method@ ==> find_method(final(self).rpc_method_state@, m) == find_method(
                    old(self).rpc_method_state@,
                    m,
                ),
    {
        let n = self.rpc_method_state.len();
        let mut i: usize = 0;
        while i < n
            invariant
                n == self.rpc_method_state@.len(),
                0 <= i <= n,
                forall|k: int|
                    0 <= k < i ==> (#[trigger] self.rpc_method_state@[k]).method@ != rpc_method@,
                *self == *old(self),
                old(self).wf(),
            decreases n - i,
        {
            let hit = {
                let e = &self.rpc_method_state[i];
                crate::crypto::ct_str_eq(e.method.as_str(), rpc_method)
            };
            if hit {
                proof {
                    lemma_find_method_at(self.rpc_method_state@, i as int);
                    assert(self.rpc_method_state@ == old(self).rpc_method_state@);
                    assert((old(self).rpc_method_state@[i as int]).wf());
                    assert((self.rpc_method_state@[i as int]).wf());
                }
                let ghost before = self.rpc_method_state@;
                let e = &mut self.rpc_method_state[i];
                e.update(response_time);
                proof {
                    let e2 = self.rpc_method_state@[i as int];
                    assert(self.rpc_method_state@ == before.update(i as int, e2));
                    assert(forall|k: int|
                        0 <= k < before.len() && k != i ==> self.rpc_method_state@[k]
                            == #[trigger] before[k]);
                    lemma_find_method_update(before, i as int, e2, rpc_method@);
                    assert forall|m: Seq<char>| m != rpc_method@ implies find_method(
                        self.rpc_method_state@,
                        m,
                    ) == find_method(before, m) by {
                        lemma_find_method_update(before, i as int, e2, m);
                    }
                }
                return ;
            }
            i = i + 1;
        }
        proof {
            lemma_find_method_none(self.rpc_method_state@, rpc_method@);
        }
        let mut fresh = RpcMethodState::new(rpc_method);
        fresh.update(response_time);
        proof {
            assert(fresh.samples@ =~= seq![response_time]);
        }
        let ghost before = self.rpc_method_state@;
        let ghost fresh_g = fresh;
        self.rpc_method_state.push(fresh);
        proof {
            assert forall|m: Seq<char>| true implies find_method(self.rpc_method_state@, m)
                == (match find_method(before, m) {
                Some(x) => Some(x),
                None => if fresh_g.method@ == m {
                    Some(fresh_g)
                } else {
                    None::<RpcMethodState>
                },
            }) by {
                lemma_find_method_push(before, fresh_g, m);
            }
        }
    }

    /// When the flush interval has elapsed, hands back every tracked entry
    /// and starts an empty interval at `now`; otherwise changes nothing.
    /// The caller writes the returned entries to the log: a user that
    /// stops sending requests keeps their last partial interval unflushed.
    pub fn log_if_needed(&mut self, user_rpc_log_interval: u64, now: u64) -> (flushed: Vec<
        RpcMethodState,
    >)
        requires
            old(self).wf(),
        ensures
            final(self).wf(),
            final(self).user_id == old(self).user_id,
            flush_due(old(self).last_log_time, now, user_rpc_log_interval) ==> {
                &&& flushed@ == old(self).rpc_method_state@
                &&& final(self).rpc_method_state@ == Seq::<RpcMethodState>::empty()
                &&& final(self).last_log_time == now
            },
            !flush_due(old(self).last_log_time, now, user_rpc_log_interval) ==> {
                &&& flushed@ == Seq::<RpcMethodState>::empty()
                &&& *final(self) == *old(self)
            },
            forall|i: int|
                0 <= i < flushed@.len() ==> (#[trigger] flushed@[i]).wf(),
    {
        let elapsed: u64 = if now >= self.last_log_time {
            now - self.last_log_time
        } else {
            0
        };
        if elapsed / 1000 > user_rpc_log_interval {
            let mut out: Vec<RpcMethodState> = Vec::new();
            core::mem::swap(&mut out, &mut self.rpc_method_state);
            self.last_log_time = now;
            out
        } else {
            Vec::new()
        }
    }
}

} // verus!
