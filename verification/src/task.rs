//! The per-window restore protocol: spawn, poll until a matching window
//! appears, then relocate it — or give up after a bounded number of polls.
//!
//! Each task is independent of its siblings; the surrounding binary drives
//! one task per planned window, performing the sleeps and compositor
//! round-trips and feeding each observation back into the step functions
//! here, which hold the whole decision logic.

use vstd::prelude::*;
use crate::config::bytes_eq;
use crate::snapshot::LiveWindow;

verus! {

/// The lifecycle of one restore task.
#[derive(Clone, Copy, Debug, PartialEq, Eq, Structural)]
pub enum TaskState {
    /// Created, spawn not yet requested.
    Pending,
    /// Spawn acknowledged; this many polls remain before giving up.
    Spawned { attempts_left: u64 },
    /// A matching window appeared and a move was requested for it.
    Relocated,
    /// The spawn was not acknowledged, or no matching window appeared
    /// within the poll budget.
    TimedOut,
}

/// A move request for one window: fire-and-forget, never confirmed.
#[derive(Clone, Copy, Debug, PartialEq, Eq, Structural)]
pub struct RelocateCmd {
    pub window_id: u64,
    pub workspace: u64,
}

/// The workspace a window is sent to: the recorded one, or the designated
/// default workspace when none was recorded.
pub open spec fn ws_or_default(w: Option<u64>) -> u64 {
    match w {
        Some(x) => x,
        None => 0,
    }
}

/// The poll budget: two attempts per configured second, one per fixed
/// half-second polling interval.
pub fn poll_budget(spawn_timeout_secs: u64) -> (n: u64)
    requires
        spawn_timeout_secs <= u64::MAX / 2,
    ensures
        n == 2 * spawn_timeout_secs,
{
    2 * spawn_timeout_secs
}

/// Where a task stands after the spawn request: polling when the compositor
/// acknowledged it and the budget allows at least one poll, given up
/// otherwise. A spawn is never retried.
pub open spec fn spawn_step(acknowledged: bool, budget: u64) -> TaskState {
    if acknowledged && budget > 0 {
        TaskState::Spawned { attempts_left: budget }
    } else {
        TaskState::TimedOut
    }
}

pub fn on_spawn_reply(acknowledged: bool, budget: u64) -> (s: TaskState)
    ensures
        s == spawn_step(acknowledged, budget),
{
    if acknowledged && budget > 0 {
        TaskState::Spawned { attempts_left: budget }
    } else {
        TaskState::TimedOut
    }
}

/// One poll: on a match, relocate it and finish; otherwise spend one
/// attempt, giving up when the budget is exhausted.
pub open spec fn poll_step(attempts_left: u64, found: Option<u64>, target: Option<u64>) -> (
    TaskState,
    Option<RelocateCmd>,
) {
    match found {
        Some(id) => (
            TaskState::Relocated,
            Some(RelocateCmd { window_id: id, workspace: ws_or_default(target) }),
        ),
        None => if attempts_left <= 1 {
            (TaskState::TimedOut, None)
        } else {
            (TaskState::Spawned { attempts_left: (attempts_left - 1) as u64 }, None)
        },
    }
}

pub fn on_poll(state: &TaskState, found: Option<u64>, target: Option<u64>) -> (r: (
    TaskState,
    Option<RelocateCmd>,
))
    requires
        *state matches TaskState::Spawned { attempts_left } && attempts_left >= 1,
    ensures
        r == poll_step(state->attempts_left, found, target),
{
    let attempts_left = match state {
        TaskState::Spawned { attempts_left } => *attempts_left,
        _ => 0,
    };
    match found {
        Some(id) => {
            let workspace = match target {
                Some(x) => x,
                None => 0,
            };
            (TaskState::Relocated, Some(RelocateCmd { window_id: id, workspace }))
        },
        None => if attempts_left <= 1 {
            (TaskState::TimedOut, None)
        } else {
            (TaskState::Spawned { attempts_left: attempts_left - 1 }, None)
        },
    }
}

/// The first live window carrying this app id, if any: its id.
pub open spec fn find_match_spec(live: Seq<LiveWindow>, app: Seq<u8>) -> Option<u64>
    decreases live.len(),
{
    if live.len() == 0 {
        None
    } else if live[0].app_id matches Some(a) && a@ == app {
        Some(live[0].id)
    } else {
        find_match_spec(live.drop_first(), app)
    }
}

/// Scan one observation of the live window list for a window of this app.
pub fn find_match(live: &Vec<LiveWindow>, app: &Vec<u8>) -> (r: Option<u64>)
    ensures
        r == find_match_spec(live@, app@),
{
    let mut i: usize = 0;
    proof {
        assert(live@.skip(0) =~= live@);
    }
    while i < live.len()
        invariant
            i <= live@.len(),
            find_match_spec(live@, app@) == find_match_spec(live@.skip(i as int), app@),
        decreases live@.len() - i,
    {
        proof {
            assert(live@.skip(i as int).drop_first() =~= live@.skip(i as int + 1));
            assert(live@.skip(i as int)[0] == live@[i as int]);
        }
        match &live[i].app_id {
            Some(a) => {
                if bytes_eq(a, app) {
                    return Some(live[i].id);
                }
            },
            None => {},
        }
        i = i + 1;
    }
    None
}

/// The state after `k` polls that each observed no match, starting from a
/// budget of `n` attempts.
pub open spec fn state_after_unmatched(n: u64, k: nat, target: Option<u64>) -> TaskState
    decreases k,
{
    if k == 0 {
        TaskState::Spawned { attempts_left: n }
    } else {
        match state_after_unmatched(n, (k - 1) as nat, target) {
            TaskState::Spawned { attempts_left } => poll_step(attempts_left, None, target).0,
            s => s,
        }
    }
}

/// A task whose polls never observe a matching window spends its whole
/// budget and ends timed out, and no poll along the way requests a
/// relocation. Sibling tasks are untouched by construction: a task's step
/// functions read nothing but their own arguments.
pub proof fn lemma_unmatched_polls_time_out(n: u64, target: Option<u64>)
    requires
        n >= 1,
    ensures
        forall|k: nat|
            k < n ==> state_after_unmatched(n, k, target) == (TaskState::Spawned {
                attempts_left: (n - k) as u64,
            }),
        state_after_unmatched(n, n as nat, target) == TaskState::TimedOut,
        forall|m: u64| m >= 1 ==> poll_step(m, None, target).1 is None,
{
    assert forall|k: nat| k < n implies state_after_unmatched(n, k, target) == (TaskState::Spawned {
        attempts_left: (n - k) as u64,
    }) by {
        lemma_unmatched_prefix(n, k, target);
    }
    lemma_unmatched_prefix(n, (n - 1) as nat, target);
}

proof fn lemma_unmatched_prefix(n: u64, k: nat, target: Option<u64>)
    requires
        k < n,
    ensures
        state_after_unmatched(n, k, target) == (TaskState::Spawned {
            attempts_left: (n - k) as u64,
        }),
    decreases k,
{
    if k > 0 {
        lemma_unmatched_prefix(n, (k - 1) as nat, target);
    }
}

} // verus!
