//! The long-lived service state: the settings, the per-user rate-limit
//! windows, and the per-user method statistics.
//!
//! Both tables are keyed association lists with unique keys; every
//! concurrent handler shares this one object and goes through its
//! methods, so per-request updates stay per-key.

use vstd::prelude::*;

use crate::config::Settings;
use crate::crypto::ct_str_eq;
use crate::ratelimit::RateLimitState;
use crate::ratelimit::rate_limit_fresh;
use crate::ratelimit::rate_limit_step;
use crate::ratelimit::rl_step;
use crate::stats::RpcMethodState;
use crate::stats::UserRpcMethodState;
use crate::stats::find_method;
use crate::stats::flush_due;
use crate::stats::updated_entry;

verus! {

/// One user's rate-limit window, keyed by the user id.
pub struct RateLimitEntry {
    pub user_id: String,
    pub state: RateLimitState,
}

/// Finds the window of a user.
pub open spec fn find_rl(s: Seq<RateLimitEntry>, u: Seq<char>) -> Option<RateLimitState>
    decreases s.len(),
{
    if s.len() == 0 {
        None
    } else if s[0].user_id@ == u {
        Some(s[0].state)
    } else {
        find_rl(s.drop_first(), u)
    }
}

proof fn lemma_find_rl_at(s: Seq<RateLimitEntry>, i: int)
    requires
        0 <= i < s.len(),
        forall|k: int| 0 <= k < i ==> (#[trigger] s[k]).user_id@ != s[i].user_id@,
    ensures
        find_rl(s, s[i].user_id@) == Some(s[i].state),
    decreases i,
{
    if i > 0 {
        let s2 = s.drop_first();
        assert(forall|k: int| 0 <= k < s2.len() ==> #[trigger] s2[k] == s[k + 1]);
        lemma_find_rl_at(s2, i - 1);
    }
}

proof fn lemma_find_rl_none(s: Seq<RateLimitEntry>, u: Seq<char>)
    requires
        forall|k: int| 0 <= k < s.len() ==> (#[trigger] s[k]).user_id@ != u,
    ensures
        find_rl(s, u) is None,
    decreases s.len(),
{
    if s.len() > 0 {
        let s2 = s.drop_first();
        assert(forall|k: int| 0 <= k < s2.len() ==> #[trigger] s2[k] == s[k + 1]);
        lemma_find_rl_none(s2, u);
    }
}

proof fn lemma_find_rl_update(s: Seq<RateLimitEntry>, i: int, e2: RateLimitEntry, u: Seq<char>)
    requires
        0 <= i < s.len(),
        e2.user_id@ == s[i].user_id@,
        forall|k: int| 0 <= k < i ==> (#[trigger] s[k]).user_id@ != s[i].user_id@,
    ensures
        find_rl(s.update(i, e2), s[i].user_id@) == Some(e2.state),
        u != s[i].user_id@ ==> find_rl(s.update(i, e2), u) == find_rl(s, u),
    decreases i,
{
    let s2 = s.update(i, e2);
    if i == 0 {
        assert(s2[0] == e2);
        if u != s[0].user_id@ {
            assert(s2.drop_first() =~= s.drop_first());
        }
    } else {
        assert(s2[0] == s[0]);
        assert(s2.drop_first() =~= s.drop_first().update(i - 1, e2));
        let t = s.drop_first();
        assert(forall|k: int| 0 <= k < t.len() ==> #[trigger] t[k] == s[k + 1]);
        lemma_find_rl_update(t, i - 1, e2, u);
    }
}

proof fn lemma_find_rl_push(s: Seq<RateLimitEntry>, e: RateLimitEntry, u: Seq<char>)
    ensures
        find_rl(s.push(e), u) == (match find_rl(s, u) {
            Some(x) => Some(x),
            None => if e.user_id@ == u {
                Some(e.state)
            } else {
                None::<RateLimitState>
            },
        }),
    decreases s.len(),
{
    let p = s.push(e);
    if s.len() == 0 {
        assert(p[0] == e);
        assert(p.drop_first() =~= Seq::<RateLimitEntry>::empty());
        if e.user_id@ == u {
            assert(find_rl(p, u) == Some(e.state));
        } else {
            assert(find_rl(p, u) == find_rl(p.drop_first(), u));
        }
    } else {
        assert(p[0] == s[0]);
        assert(p.drop_first() =~= s.drop_first().push(e));
        lemma_find_rl_push(s.drop_first(), e, u);
        if s[0].user_id@ == u {
            assert(find_rl(p, u) == Some(s[0].state));
            assert(find_rl(s, u) == Some(s[0].state));
        } else {
            assert(find_rl(p, u) == find_rl(p.drop_first(), u));
            assert(find_rl(s, u) == find_rl(s.drop_first(), u));
        }
    }
}

/// Finds the statistics of a user.
pub open spec fn find_user(s: Seq<UserRpcMethodState>, u: Seq<char>) -> Option<UserRpcMethodState>
    decreases s.len(),
{
    if s.len() == 0 {
        None
    } else if s[0].user_id@ == u {
        Some(s[0])
    } else {
        find_user(s.drop_first(), u)
    }
}

proof fn lemma_find_user_at(s: Seq<UserRpcMethodState>, i: int)
    requires
        0 <= i < s.len(),
        forall|k: int| 0 <= k < i ==> (#[trigger] s[k]).user_id@ != s[i].user_id@,
    ensures
        find_user(s, s[i].user_id@) == Some(s[i]),
    decreases i,
{
    if i > 0 {
        let s2 = s.drop_first();
        assert(forall|k: int| 0 <= k < s2.len() ==> #[trigger] s2[k] == s[k + 1]);
        lemma_find_user_at(s2, i - 1);
    }
}

proof fn lemma_find_user_none(s: Seq<UserRpcMethodState>, u: Seq<char>)
    requires
        forall|k: int| 0 <= k < s.len() ==> (#[trigger] s[k]).user_id@ != u,
    ensures
        find_user(s, u) is None,
    decreases s.len(),
{
    if s.len() > 0 {
        let s2 = s.drop_first();
        assert(forall|k: int| 0 <= k < s2.len() ==> #[trigger] s2[k] == s[k + 1]);
        lemma_find_user_none(s2, u);
    }
}

proof fn lemma_find_user_update(
    s: Seq<UserRpcMethodState>,
    i: int,
    e2: UserRpcMethodState,
    u: Seq<char>,
)
    requires
        0 <= i < s.len(),
        e2.user_id@ == s[i].user_id@,
        forall|k: int| 0 <= k < i ==> (#[trigger] s[k]).user_id@ != s[i].user_id@,
    ensures
        find_user(s.update(i, e2), s[i].user_id@) == Some(e2),
        u != s[i].user_id@ ==> find_user(s.update(i, e2), u) == find_user(s, u),
    decreases i,
{
    let s2 = s.update(i, e2);
    if i == 0 {
        assert(s2[0] == e2);
        if u != s[0].user_id@ {
            assert(s2.drop_first() =~= s.drop_first());
        }
    } else {
        assert(s2[0] == s[0]);
        assert(s2.drop_first() =~= s.drop_first().update(i - 1, e2));
        let t = s.drop_first();
        assert(forall|k: int| 0 <= k < t.len() ==> #[trigger] t[k] == s[k + 1]);
        lemma_find_user_update(t, i - 1, e2, u);
    }
}

proof fn lemma_find_user_push(s: Seq<UserRpcMethodState>, e: UserRpcMethodState, u: Seq<char>)
    ensures
        find_user(s.push(e), u) == (match find_user(s, u) {
            Some(x) => Some(x),
            None => if e.user_id@ == u {
                Some(e)
            } else {
                None::<UserRpcMethodState>
            },
        }),
    decreases s.len(),
{
    let p = s.push(e);
    if s.len() == 0 {
        assert(p[0] == e);
        assert(p.drop_first() =~= Seq::<UserRpcMethodState>::empty());
        if e.user_id@ == u {
            assert(find_user(p, u) == Some(e));
        } else {
            assert(find_user(p, u) == find_user(p.drop_first(), u));
        }
    } else {
        assert(p[0] == s[0]);
        assert(p.drop_first() =~= s.drop_first().push(e));
        lemma_find_user_push(s.drop_first(), e, u);
        if s[0].user_id@ == u {
            assert(find_user(p, u) == Some(s[0]));
            assert(find_user(s, u) == Some(s[0]));
        } else {
            assert(find_user(p, u) == find_user(p.drop_first(), u));
            assert(find_user(s, u) == find_user(s.drop_first(), u));
        }
    }
}

/// The position of a user's statistics, if tracked.
fn find_user_index(v: &Vec<UserRpcMethodState>, user_id: &str) -> (r: Option<usize>)
    ensures
        match r {
            Some(i) => i < v@.len() && v@[i as int].user_id@ == user_id@ && forall|k: int|
                0 <= k < i ==> (#[trigger] v@[k]).user_id@ != user_id@,
            None => forall|k: int| 0 <= k < v@.len() ==> (#[trigger] v@[k]).user_id@ != user_id@,
        },
{
    let n = v.len();
    let mut i: usize = 0;
    while i < n
        invariant
            n == v@.len(),
            0 <= i <= n,
            forall|k: int| 0 <= k < i ==> (#[trigger] v@[k]).user_id@ != user_id@,
        decreases n - i,
    {
        let hit = {
            let e = &v[i];
            ct_str_eq(e.user_id.as_str(), user_id)
        };
        if hit {
            return Some(i);
        }
        i = i + 1;
    }
    None
}

/// The shared service object.  Neither table evicts inactive users, so a
/// long-lived process grows them without bound; that mirrors the lazily
/// created, never deleted entries this state keeps per user.
pub struct AppState {
    pub settings: Settings,
    pub user_rate_limit_state: Vec<RateLimitEntry>,
    pub user_rpc_method_state: Vec<UserRpcMethodState>,
}

impl AppState {
    /// Keys are unique in both tables and every user's statistics are
    /// well formed.
    pub open spec fn wf(self) -> bool {
        &&& forall|i: int, j: int|
            0 <= i < j < self.user_rate_limit_state@.len()
                ==> (#[trigger] self.user_rate_limit_state@[i]).user_id@
                != (#[trigger] self.user_rate_limit_state@[j]).user_id@
        &&& forall|i: int|
            0 <= i < self.user_rpc_method_state@.len()
                ==> (#[trigger] self.user_rpc_method_state@[i]).wf()
        &&& forall|i: int, j: int|
            0 <= i < j < self.user_rpc_method_state@.len()
                ==> (#[trigger] self.user_rpc_method_state@[i]).user_id@
                != (#[trigger] self.user_rpc_method_state@[j]).user_id@
    }

    /// A fresh state with no users tracked.
    pub fn new(settings: &Settings) -> (r: AppState)
        ensures
            r.wf(),
            r.settings == *settings,
            r.user_rate_limit_state@ == Seq::<RateLimitEntry>::empty(),
            r.user_rpc_method_state@ == Seq::<UserRpcMethodState>::empty(),
    {
        AppState {
            settings: settings.duplicate(),
            user_rate_limit_state: Vec::new(),
            user_rpc_method_state: Vec::new(),
        }
    }

    /// Applies one request from `user_id` at the millisecond clock reading
    /// `now_ms` to their window and says whether it is admitted.
    pub fn update_and_check_rate_limit(&mut self, user_id: &str, user_qps: u32, now_ms: u64) -> (
        allowed: bool)
        requires
            old(self).wf(),
        ensures
            final(self).wf(),
            final(self).settings == old(self).settings,
            final(self).user_rpc_method_state == old(self).user_rpc_method_state,
            allowed == rl_step(
                find_rl(old(self).user_rate_limit_state@, user_id@),
                user_qps,
                now_ms,
            ).1,
            find_rl(final(self).user_rate_limit_state@, user_id@) == Some(
                rl_step(find_rl(old(self).user_rate_limit_state@, user_id@), user_qps, now_ms).0,
            ),
            forall|u: Seq<char>|
                u != user_id@ ==> find_rl(final(self).user_rate_limit_state@, u) == find_rl(
                    old(self).user_rate_limit_state@,
                    u,
                ),
    {
        let n = self.user_rate_limit_state.len();
        let mut i: usize = 0;
        while i < n
            invariant
                n == self.user_rate_limit_state@.len(),
                0 <= i <= n,
                forall|k: int|
                    0 <= k < i ==> (#[trigger] self.user_rate_limit_state@[k]).user_id@
                        != user_id@,
                *self == *old(self),
                old(self).wf(),
            decreases n - i,
        {
            let hit = {
                let e = &self.user_rate_limit_state[i];
                ct_str_eq(e.user_id.as_str(), user_id)
            };
            if hit {
                proof {
                    lemma_find_rl_at(self.user_rate_limit_state@, i as int);
                }
                let ghost before = self.user_rate_limit_state@;
                let e = &mut self.user_rate_limit_state[i];
                let mut st = e.state;
                let allowed = rate_limit_step(&mut st, user_qps, now_ms);
                e.state = st;
                proof {
                    let e2 = self.user_rate_limit_state@[i as int];
                    assert(self.user_rate_limit_state@ == before.update(i as int, e2));
                    assert(forall|k: int|
                        0 <= k < before.len() && k != i ==> self.user_rate_limit_state@[k]
                            == #[trigger] before[k]);
                    lemma_find_rl_update(before, i as int, e2, user_id@);
                    assert forall|u: Seq<char>| u != user_id@ implies find_rl(
                        self.user_rate_limit_state@,
                        u,
                    ) == find_rl(before, u) by {
                        lemma_find_rl_update(before, i as int, e2, u);
                    }
                }
                return allowed;
            }
            i = i + 1;
        }
        proof {
            lemma_find_rl_none(self.user_rate_limit_state@, user_id@);
        }
        let st = rate_limit_fresh(now_ms);
        let allowed = user_qps >= 1;
        let ghost before = self.user_rate_limit_state@;
        let entry = RateLimitEntry { user_id: String::from_str(user_id), state: st };
        let ghost entry_g = entry;
        self.user_rate_limit_state.push(entry);
        proof {
            assert forall|u: Seq<char>| true implies find_rl(self.user_rate_limit_state@, u)
                == (match find_rl(before, u) {
                Some(x) => Some(x),
                None => if entry_g.user_id@ == u {
                    Some(entry_g.state)
                } else {
                    None::<RateLimitState>
                },
            }) by {
                lemma_find_rl_push(before, entry_g, u);
            }
        }
        allowed
    }

    /// Records one latency for `(user_id, rpc_method)` and, when the flush
    /// interval of the settings has elapsed for that user, hands back the
    /// entries to be written to the log, their interval starting over at
    /// `now_ms`.
    pub fn update_and_log_rpc_method_state(
        &mut self,
        user_id: &str,
        rpc_method: &str,
        response_time: u32,
        now_ms: u64,
    ) -> (flushed: Vec<RpcMethodState>)
        requires
            old(self).wf(),
        ensures
            final(self).wf(),
            final(self).settings == old(self).settings,
            final(self).user_rate_limit_state == old(self).user_rate_limit_state,
            forall|i: int| 0 <= i < flushed@.len() ==> (#[trigger] flushed@[i]).wf(),
            ({
                let old_u = find_user(old(self).user_rpc_method_state@, user_id@);
                let old_methods = match old_u {
                    Some(u) => u.rpc_method_state@,
                    None => Seq::<RpcMethodState>::empty(),
                };
                let base_last = match old_u {
                    Some(u) => u.last_log_time,
                    None => now_ms,
                };
                let due = flush_due(base_last, now_ms, old(self).settings.log.user_rpc_log_interval);
                let new_u = find_user(final(self).user_rpc_method_state@, user_id@);
                let live = if due {
                    flushed@
                } else {
                    match new_u {
                        Some(nu) => nu.rpc_method_state@,
                        None => Seq::<RpcMethodState>::empty(),
                    }
                };
                &&& (new_u matches Some(nu) && nu.user_id@ == user_id@)
                &&& updated_entry(
                    find_method(old_methods, rpc_method@),
                    find_method(live, rpc_method@),
                    rpc_method@,
                    response_time,
                )
                &&& forall|m: Seq<char>|
                    m != rpc_method@ ==> find_method(live, m) == find_method(old_methods, m)
                &&& due ==> (new_u matches Some(nu) && nu.rpc_method_state@ == Seq::<
                    RpcMethodState,
                >::empty() && nu.last_log_time == now_ms)
                &&& !due ==> (flushed@ == Seq::<RpcMethodState>::empty() && (
                new_u matches Some(nu) && nu.last_log_time == base_last))
            }),
            forall|u: Seq<char>|
                u != user_id@ ==> find_user(final(self).user_rpc_method_state@, u) == find_user(
                    old(self).user_rpc_method_state@,
                    u,
                ),
    {
        let interval = self.settings.log.user_rpc_log_interval;
        let ghost old_u = find_user(old(self).user_rpc_method_state@, user_id@);
        let idx: usize = match find_user_index(&self.user_rpc_method_state, user_id) {
            Some(i) => {
                proof {
                    lemma_find_user_at(self.user_rpc_method_state@, i as int);
                }
                i
            },
            None => {
                proof {
                    lemma_find_user_none(self.user_rpc_method_state@, user_id@);
                }
                let fresh = UserRpcMethodState::new(user_id, now_ms);
                let ghost before = self.user_rpc_method_state@;
                let ghost fresh_g = fresh;
                self.user_rpc_method_state.push(fresh);
                proof {
                    assert forall|u: Seq<char>| true implies find_user(
                        self.user_rpc_method_state@,
                        u,
                    ) == (match find_user(before, u) {
                        Some(x) => Some(x),
                        None => if fresh_g.user_id@ == u {
                            Some(fresh_g)
                        } else {
                            None::<UserRpcMethodState>
                        },
                    }) by {
                        lemma_find_user_push(before, fresh_g, u);
                    }
                    assert forall|u: Seq<char>| u != user_id@ implies find_user(
                        self.user_rpc_method_state@,
                        u,
                    ) == find_user(before, u) by {
                        lemma_find_user_push(before, fresh_g, u);
                    }
                }
                self.user_rpc_method_state.len() - 1
            },
        };
        let ghost mid = self.user_rpc_method_state@;
        proof {
            assert(idx < self.user_rpc_method_state@.len());
            assert(mid[idx as int].user_id@ == user_id@);
            assert(forall|k: int|
                0 <= k < idx ==> (#[trigger] mid[k]).user_id@ != user_id@);
            assert((mid[idx as int]).wf());
        }
        let us = &mut self.user_rpc_method_state[idx];
        us.update_method(rpc_method, response_time);
        let flushed = us.log_if_needed(interval, now_ms);
        proof {
            let nu = self.user_rpc_method_state@[idx as int];
            assert(self.user_rpc_method_state@ == mid.update(idx as int, nu));
            assert(forall|k: int|
                0 <= k < mid.len() && k != idx ==> self.user_rpc_method_state@[k]
                    == #[trigger] mid[k]);
            lemma_find_user_update(mid, idx as int, nu, user_id@);
            assert forall|u: Seq<char>| u != user_id@ implies find_user(
                self.user_rpc_method_state@,
                u,
            ) == find_user(old(self).user_rpc_method_state@, u) by {
                lemma_find_user_update(mid, idx as int, nu, u);
                assert(find_user(mid, u) == find_user(old(self).user_rpc_method_state@, u));
            }
        }
        flushed
    }
}

} // verus!
