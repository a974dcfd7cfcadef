//! Lifecycle decisions: the periodic-save loop and the whole-cycle retry
//! policy. The surrounding binary performs the sleeps, observes the events
//! (a timer tick or the shutdown notification) and carries out the saves;
//! every decision about what to do on an event is made here.

use vstd::prelude::*;

verus! {

/// What woke the periodic-save loop.
#[derive(Clone, Copy, Debug, PartialEq, Eq, Structural)]
pub enum SchedEvent {
    /// The save interval elapsed.
    Tick,
    /// The shutdown notification fired during the sleep.
    Shutdown,
}

/// What the loop does with one event.
#[derive(Clone, Copy, Debug, PartialEq, Eq, Structural)]
pub struct SchedDecision {
    /// Perform one backup-rotate-save pass now.
    pub save_now: bool,
    /// Sleep again afterwards; when false, the loop exits.
    pub keep_running: bool,
}

/// Every wake-up saves: a tick performs the periodic save and the loop goes
/// on; the shutdown notification performs one final save and the loop
/// exits.
pub open spec fn sched_step_spec(ev: SchedEvent) -> SchedDecision {
    SchedDecision { save_now: true, keep_running: ev is Tick }
}

pub fn scheduler_step(ev: &SchedEvent) -> (d: SchedDecision)
    ensures
        d == sched_step_spec(*ev),
{
    match ev {
        SchedEvent::Tick => SchedDecision { save_now: true, keep_running: true },
        SchedEvent::Shutdown => SchedDecision { save_now: true, keep_running: false },
    }
}

/// How a run of the loop over a sequence of wake-ups unfolds: how many save
/// passes are performed, and whether the loop exited.
pub open spec fn sched_run(events: Seq<SchedEvent>) -> (nat, bool)
    decreases events.len(),
{
    if events.len() == 0 {
        (0, false)
    } else {
        let d = sched_step_spec(events[0]);
        if !d.keep_running {
            (1, true)
        } else {
            let rest = sched_run(events.drop_first());
            ((rest.0 + 1) as nat, rest.1)
        }
    }
}

/// A shutdown that arrives during the sleep, after `k` periodic ticks,
/// causes exactly one additional save pass — the final one — and the loop
/// exits; whatever would have followed is never observed.
pub proof fn lemma_shutdown_single_final_save(events: Seq<SchedEvent>, k: int)
    requires
        0 <= k < events.len(),
        events[k] is Shutdown,
        forall|i: int| 0 <= i < k ==> events[i] is Tick,
    ensures
        sched_run(events) == ((k + 1) as nat, true),
    decreases k,
{
    if k == 0 {
        assert(sched_run(events) == (1nat, true));
    } else {
        let rest = events.drop_first();
        assert(rest[k - 1] is Shutdown);
        assert forall|i: int| 0 <= i < k - 1 implies rest[i] is Tick by {
            assert(rest[i] == events[i + 1]);
        }
        lemma_shutdown_single_final_save(rest, k - 1);
    }
}

/// Whether a failed restore cycle is tried again: only while attempts
/// remain. Attempts are numbered from one.
pub fn should_retry(attempt: u32, retry_attempts: u32) -> (r: bool)
    ensures
        r == (attempt < retry_attempts),
{
    attempt < retry_attempts
}

/// How the whole-cycle retry unfolds over the outcomes of successive
/// cycles (`true` for a cycle that succeeded): how many cycles run, and
/// whether the retry as a whole succeeds. A success stops it at once; a
/// failure is retried only while attempts remain.
pub open spec fn retry_run(outcomes: Seq<bool>, attempts_left: nat) -> (nat, bool)
    decreases outcomes.len(),
{
    if outcomes.len() == 0 || attempts_left == 0 {
        (0, false)
    } else if outcomes[0] {
        (1, true)
    } else if attempts_left == 1 {
        (1, false)
    } else {
        let rest = retry_run(outcomes.drop_first(), (attempts_left - 1) as nat);
        ((rest.0 + 1) as nat, rest.1)
    }
}

/// The retry policy succeeds exactly when some cycle among the first
/// `attempts` succeeds, runs no cycle beyond the first success, and a run
/// of nothing but failures stops after exactly `attempts` cycles.
pub proof fn lemma_retry_stops_at_first_success(outcomes: Seq<bool>, attempts: nat, k: int)
    requires
        0 <= k < attempts,
        k < outcomes.len(),
        outcomes[k],
        forall|i: int| 0 <= i < k ==> !outcomes[i],
    ensures
        retry_run(outcomes, attempts) == ((k + 1) as nat, true),
    decreases k,
{
    if k > 0 {
        let rest = outcomes.drop_first();
        assert(rest[k - 1]);
        assert forall|i: int| 0 <= i < k - 1 implies !rest[i] by {
            assert(rest[i] == outcomes[i + 1]);
        }
        lemma_retry_stops_at_first_success(rest, (attempts - 1) as nat, k - 1);
    }
}

/// All cycles failing, the retry is exhausted after exactly `attempts`
/// cycles and reports failure.
pub proof fn lemma_retry_exhausts(outcomes: Seq<bool>, attempts: nat)
    requires
        attempts >= 1,
        outcomes.len() >= attempts,
        forall|i: int| 0 <= i < outcomes.len() ==> !outcomes[i],
    ensures
        retry_run(outcomes, attempts) == (attempts, false),
    decreases attempts,
{
    assert(!outcomes[0]);
    if attempts > 1 {
        let rest = outcomes.drop_first();
        assert forall|i: int| 0 <= i < rest.len() implies !rest[i] by {
            assert(rest[i] == outcomes[i + 1]);
        }
        lemma_retry_exhausts(rest, (attempts - 1) as nat);
    }
}

/// The periodic sleep length in seconds, from the configured minutes.
pub fn save_interval_secs(save_interval_minutes: u64) -> (s: u64)
    requires
        save_interval_minutes <= u64::MAX / 60,
    ensures
        s == 60 * save_interval_minutes,
{
    60 * save_interval_minutes
}

} // verus!
