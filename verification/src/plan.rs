//! Restore planning: the synchronous decisions of a restore cycle.
//!
//! Before any task is dispatched, the planner compares the saved window
//! list against the live window set and decides, window by window, whether
//! to spawn. The single-instance de-duplication is part of this pass, so it
//! is race-free by construction: concurrency begins only after the plan is
//! fixed.

use vstd::prelude::*;
use crate::config::AppResolutionTable;
use crate::config::bytes_eq;
use crate::config::command_model;
use crate::snapshot::LiveWindow;
use crate::snapshot::TrackedWindow;

verus! {

/// One unit of restore work: spawn this command, wait for a window of this
/// app id, move it to this workspace.
pub struct RestoreTask {
    pub app_id: Vec<u8>,
    pub workspace_id: Option<u64>,
    pub command: Vec<Vec<u8>>,
}

/// Mathematical model of a restore task.
pub struct TaskModel {
    pub app_id: Seq<u8>,
    pub workspace_id: Option<u64>,
    pub command: Seq<Seq<u8>>,
}

pub open spec fn task_model(t: RestoreTask) -> TaskModel {
    TaskModel {
        app_id: t.app_id@,
        workspace_id: t.workspace_id,
        command: command_model(t.command@),
    }
}

pub open spec fn tasks_model(ts: Seq<RestoreTask>) -> Seq<TaskModel> {
    ts.map_values(|t: RestoreTask| task_model(t))
}

/// Whether this live window carries exactly this app id.
pub open spec fn live_match(l: LiveWindow, app: Seq<u8>) -> bool {
    l.app_id matches Some(a) && a@ == app
}

/// Whether some live window carries exactly this app id.
pub open spec fn live_has(live: Seq<LiveWindow>, app: Seq<u8>) -> bool {
    exists|i: int| 0 <= i < live.len() && #[trigger] live_match(live[i], app)
}

/// The plan, built left to right over the saved windows. `spawned` holds
/// the app ids already scheduled earlier in this same cycle. A window is
/// skipped when its app id is already live, or when its app is
/// single-instance and already scheduled.
pub open spec fn plan_rec(
    saved: Seq<TrackedWindow>,
    live: Seq<LiveWindow>,
    table: AppResolutionTable,
    spawned: Set<Seq<u8>>,
) -> Seq<TaskModel>
    decreases saved.len(),
{
    if saved.len() == 0 {
        Seq::empty()
    } else {
        let w = saved[0];
        let app = w.app_id@;
        let skip = live_has(live, app) || (table.is_single_spec(app) && spawned.contains(app));
        if skip {
            plan_rec(saved.drop_first(), live, table, spawned)
        } else {
            seq![
                TaskModel {
                    app_id: app,
                    workspace_id: w.workspace_id,
                    command: table.resolve_spec(app),
                },
            ] + plan_rec(saved.drop_first(), live, table, spawned.insert(app))
        }
    }
}

/// What a whole restore cycle decides, starting with nothing scheduled.
pub open spec fn plan_spec(
    saved: Seq<TrackedWindow>,
    live: Seq<LiveWindow>,
    table: AppResolutionTable,
) -> Seq<TaskModel> {
    plan_rec(saved, live, table, Set::empty())
}

/// The views of a list of byte strings, as a set.
pub open spec fn views_set(sv: Seq<Vec<u8>>) -> Set<Seq<u8>> {
    sv.map_values(|v: Vec<u8>| v@).to_set()
}

/// Whether some element of `xs` views to `x`.
fn bytes_list_contains(xs: &Vec<Vec<u8>>, x: &Vec<u8>) -> (r: bool)
    ensures
        r == views_set(xs@).contains(x@),
{
    let mut i: usize = 0;
    while i < xs.len()
        invariant
            i <= xs@.len(),
            forall|j: int| 0 <= j < i ==> xs@[j]@ != x@,
        decreases xs@.len() - i,
    {
        if bytes_eq(&xs[i], x) {
            proof {
                let vs = xs@.map_values(|v: Vec<u8>| v@);
                assert(vs[i as int] == x@);
                assert(vs.contains(x@));
            }
            return true;
        }
        i = i + 1;
    }
    proof {
        let vs = xs@.map_values(|v: Vec<u8>| v@);
        assert forall|j: int| 0 <= j < vs.len() implies vs[j] != x@ by {
            assert(vs[j] == xs@[j]@);
        }
        assert(!vs.contains(x@));
    }
    false
}

/// Whether some live window carries exactly this app id.
pub fn live_list_has(live: &Vec<LiveWindow>, app: &Vec<u8>) -> (r: bool)
    ensures
        r == live_has(live@, app@),
{
    let mut i: usize = 0;
    while i < live.len()
        invariant
            i <= live@.len(),
            forall|j: int| 0 <= j < i ==> !live_match(live@[j], app@),
        decreases live@.len() - i,
    {
        match &live[i].app_id {
            Some(a) => {
                if bytes_eq(a, app) {
                    proof {
                        assert(live_match(live@[i as int], app@));
                    }
                    return true;
                }
            },
            None => {},
        }
        i = i + 1;
    }
    false
}

/// Build the restore plan: one task per saved window that must be
/// respawned, in snapshot order, with the de-duplication decided here,
/// before any concurrency begins.
pub fn plan_restore(
    saved: &Vec<TrackedWindow>,
    live: &Vec<LiveWindow>,
    table: &AppResolutionTable,
) -> (tasks: Vec<RestoreTask>)
    ensures
        tasks_model(tasks@) == plan_spec(saved@, live@, *table),
{
    let mut tasks: Vec<RestoreTask> = Vec::new();
    let mut spawned: Vec<Vec<u8>> = Vec::new();
    let mut i: usize = 0;
    proof {
        assert(saved@.skip(0) =~= saved@);
        assert(views_set(spawned@) =~= Set::<Seq<u8>>::empty());
        assert(tasks_model(tasks@) + plan_rec(saved@, live@, *table, Set::empty()) =~= plan_rec(
            saved@,
            live@,
            *table,
            Set::empty(),
        ));
    }
    while i < saved.len()
        invariant
            i <= saved@.len(),
            plan_spec(saved@, live@, *table) == tasks_model(tasks@) + plan_rec(
                saved@.skip(i as int),
                live@,
                *table,
                views_set(spawned@),
            ),
        decreases saved@.len() - i,
    {
        proof {
            assert(saved@.skip(i as int).drop_first() =~= saved@.skip(i as int + 1));
            assert(saved@.skip(i as int)[0] == saved@[i as int]);
        }
        let w = &saved[i];
        let already_live = live_list_has(live, &w.app_id);
        let single = table.is_single_instance(&w.app_id);
        let scheduled = bytes_list_contains(&spawned, &w.app_id);
        if already_live || (single && scheduled) {
            i = i + 1;
        } else {
            let command = table.resolve(&w.app_id);
            let app_id = crate::snapshot::clone_bytes(&w.app_id);
            let ghost old_tasks = tasks@;
            let ghost old_spawned = spawned@;
            let t = RestoreTask { app_id, workspace_id: w.workspace_id, command };
            tasks.push(t);
            let keep = crate::snapshot::clone_bytes(&w.app_id);
            spawned.push(keep);
            proof {
                assert(tasks_model(tasks@) =~= tasks_model(old_tasks) + seq![
                    task_model(tasks@[tasks@.len() - 1]),
                ]);
                lemma_views_set_push(old_spawned, spawned@[spawned@.len() - 1], saved@[i as int].app_id@);
                assert(views_set(spawned@) =~= views_set(old_spawned).insert(
                    saved@[i as int].app_id@,
                ));
            }
            i = i + 1;
        }
    }
    proof {
        assert(saved@.skip(i as int).len() == 0);
        assert(plan_rec(saved@.skip(i as int), live@, *table, views_set(spawned@))
            == Seq::<TaskModel>::empty());
        assert(tasks_model(tasks@) + Seq::<TaskModel>::empty() =~= tasks_model(tasks@));
    }
    tasks
}

proof fn lemma_views_set_push(sv: Seq<Vec<u8>>, v: Vec<u8>, app: Seq<u8>)
    requires
        v@ == app,
    ensures
        views_set(sv.push(v)) == views_set(sv).insert(app),
{
    let a = sv.push(v).map_values(|x: Vec<u8>| x@);
    let b = sv.map_values(|x: Vec<u8>| x@);
    assert(a =~= b.push(app));
    assert forall|x: Seq<u8>| a.to_set().contains(x) implies b.to_set().contains(x) || x == app by {
        let k = choose|k: int| 0 <= k < a.len() && a[k] == x;
        if k < b.len() {
            assert(b[k] == x);
        }
    }
    assert forall|x: Seq<u8>| b.to_set().contains(x) implies a.to_set().contains(x) by {
        let k = choose|k: int| 0 <= k < b.len() && b[k] == x;
        assert(a[k] == x);
    }
    assert(a[a.len() - 1] == app);
    assert(a.to_set().contains(app));
    assert(views_set(sv.push(v)) =~= views_set(sv).insert(app));
}

/// No task is planned for an app id that is already live: for every saved
/// window whose app id appears in the live list, the plan holds no spawn of
/// that app id at all.
pub proof fn lemma_no_spawn_when_present(
    saved: Seq<TrackedWindow>,
    live: Seq<LiveWindow>,
    table: AppResolutionTable,
    app: Seq<u8>,
)
    requires
        live_has(live, app),
    ensures
        forall|k: int|
            0 <= k < plan_spec(saved, live, table).len() ==> plan_spec(
                saved,
                live,
                table,
            )[k].app_id != app,
{
    lemma_no_spawn_when_present_rec(saved, live, table, Set::empty(), app);
}

proof fn lemma_no_spawn_when_present_rec(
    saved: Seq<TrackedWindow>,
    live: Seq<LiveWindow>,
    table: AppResolutionTable,
    spawned: Set<Seq<u8>>,
    app: Seq<u8>,
)
    requires
        live_has(live, app),
    ensures
        forall|k: int|
            0 <= k < plan_rec(saved, live, table, spawned).len() ==> plan_rec(
                saved,
                live,
                table,
                spawned,
            )[k].app_id != app,
    decreases saved.len(),
{
    if saved.len() > 0 {
        let w = saved[0];
        let a = w.app_id@;
        let skip = live_has(live, a) || (table.is_single_spec(a) && spawned.contains(a));
        if skip {
            lemma_no_spawn_when_present_rec(saved.drop_first(), live, table, spawned, app);
        } else {
            assert(a != app);
            lemma_no_spawn_when_present_rec(saved.drop_first(), live, table, spawned.insert(a), app);
        }
    }
}

/// How many planned tasks carry this app id.
pub open spec fn count_app(ts: Seq<TaskModel>, app: Seq<u8>) -> nat
    decreases ts.len(),
{
    if ts.len() == 0 {
        0
    } else {
        (if ts[0].app_id == app {
            1nat
        } else {
            0nat
        }) + count_app(ts.drop_first(), app)
    }
}

/// A single-instance app is spawned at most once per cycle, however many
/// saved windows recorded it; and when at least one saved window
/// recorded it and no live window carries it, it is spawned exactly once.
pub proof fn lemma_single_instance_once(
    saved: Seq<TrackedWindow>,
    live: Seq<LiveWindow>,
    table: AppResolutionTable,
    app: Seq<u8>,
)
    requires
        table.is_single_spec(app),
    ensures
        count_app(plan_spec(saved, live, table), app) <= 1,
        !live_has(live, app) && (exists|k: int|
            0 <= k < saved.len() && saved[k].app_id@ == app) ==> count_app(
            plan_spec(saved, live, table),
            app,
        ) == 1,
{
    lemma_single_instance_once_rec(saved, live, table, Set::empty(), app);
}

proof fn lemma_single_instance_once_rec(
    saved: Seq<TrackedWindow>,
    live: Seq<LiveWindow>,
    table: AppResolutionTable,
    spawned: Set<Seq<u8>>,
    app: Seq<u8>,
)
    requires
        table.is_single_spec(app),
    ensures
        spawned.contains(app) ==> count_app(plan_rec(saved, live, table, spawned), app) == 0,
        count_app(plan_rec(saved, live, table, spawned), app) <= 1,
        !spawned.contains(app) && !live_has(live, app) && (exists|k: int|
            0 <= k < saved.len() && saved[k].app_id@ == app) ==> count_app(
            plan_rec(saved, live, table, spawned),
            app,
        ) == 1,
    decreases saved.len(),
{
    if saved.len() > 0 {
        let w = saved[0];
        let a = w.app_id@;
        let skip = live_has(live, a) || (table.is_single_spec(a) && spawned.contains(a));
        let rest = saved.drop_first();
        if skip {
            lemma_single_instance_once_rec(rest, live, table, spawned, app);
            let p = plan_rec(saved, live, table, spawned);
            assert(p == plan_rec(rest, live, table, spawned));
            if !spawned.contains(app) && !live_has(live, app) && (exists|k: int|
                0 <= k < saved.len() && saved[k].app_id@ == app) {
                let k = choose|k: int| 0 <= k < saved.len() && saved[k].app_id@ == app;
                if k == 0 {
                    assert(a == app);
                    assert(false);
                } else {
                    assert(rest[k - 1].app_id@ == app);
                }
            }
        } else {
            let head = TaskModel {
                app_id: a,
                workspace_id: w.workspace_id,
                command: table.resolve_spec(a),
            };
            let tail = plan_rec(rest, live, table, spawned.insert(a));
            let p = plan_rec(saved, live, table, spawned);
            assert(p == seq![head] + tail);
            assert(p.drop_first() =~= tail);
            assert(p[0] == head);
            lemma_single_instance_once_rec(rest, live, table, spawned.insert(a), app);
            if a == app {
                assert(spawned.insert(a).contains(app));
                assert(count_app(tail, app) == 0);
                assert(count_app(p, app) == 1);
                assert(!spawned.contains(app));
            } else {
                assert(count_app(p, app) == count_app(tail, app));
                if !spawned.contains(app) && !live_has(live, app) && (exists|k: int|
                    0 <= k < saved.len() && saved[k].app_id@ == app) {
                    let k = choose|k: int| 0 <= k < saved.len() && saved[k].app_id@ == app;
                    assert(k != 0);
                    assert(rest[k - 1].app_id@ == app);
                    assert(!spawned.insert(a).contains(app));
                }
            }
        }
    }
}

} // verus!
