//! The data model of a session: windows as recorded in a snapshot and
//! windows as reported live by the compositor.
//!
//! Application identifiers and command words are carried as byte strings
//! (`Vec<u8>`), the UTF-8 bytes of the identifier text; matching and lookup
//! compare bytes, which agrees with comparing the texts themselves.

use vstd::prelude::*;

verus! {

/// One window as recorded in a session snapshot: exactly the fields needed
/// to relaunch the application and place its window back. The window title
/// is deliberately absent: it is not needed for matching and is not
/// persisted.
#[derive(Debug, PartialEq, Eq)]
pub struct TrackedWindow {
    /// Compositor-assigned id at snapshot time; not stable across restarts.
    pub id: u64,
    /// Application identifier; the identity used for matching.
    pub app_id: Vec<u8>,
    /// Workspace the window was on, if any.
    pub workspace_id: Option<u64>,
    /// Whether the window was focused at snapshot time.
    pub is_focused: bool,
}

/// One window as reported live by the compositor. A live window may lack an
/// application identifier; the title and every other reported field are
/// dropped before the value reaches this crate.
pub struct LiveWindow {
    pub id: u64,
    pub app_id: Option<Vec<u8>>,
    pub workspace_id: Option<u64>,
    pub is_focused: bool,
}

/// Mathematical model of one tracked window.
pub struct WinModel {
    pub id: u64,
    pub app_id: Seq<u8>,
    pub workspace_id: Option<u64>,
    pub is_focused: bool,
}

/// The model of a tracked window: its fields with the byte string abstracted.
pub open spec fn win_model(w: TrackedWindow) -> WinModel {
    WinModel { id: w.id, app_id: w.app_id@, workspace_id: w.workspace_id, is_focused: w.is_focused }
}

/// The model of a whole snapshot, element by element.
pub open spec fn snap_model(s: Seq<TrackedWindow>) -> Seq<WinModel> {
    s.map_values(|w: TrackedWindow| win_model(w))
}

/// The pairs that identify a snapshot for restoration purposes: which
/// application was open, and on which workspace.
pub open spec fn restore_pairs(s: Seq<WinModel>) -> Set<(Seq<u8>, Option<u64>)> {
    s.map_values(|m: WinModel| (m.app_id, m.workspace_id)).to_set()
}

/// The app id a live window is recorded under: its own, or empty when the
/// compositor reported none.
pub open spec fn recorded_app_id(l: LiveWindow) -> Seq<u8> {
    match l.app_id {
        Some(a) => a@,
        None => Seq::<u8>::empty(),
    }
}

/// How one live window is reduced to a tracked one.
pub open spec fn reduced_from(w: TrackedWindow, l: LiveWindow) -> bool {
    &&& w.id == l.id
    &&& w.app_id@ == recorded_app_id(l)
    &&& w.workspace_id == l.workspace_id
    &&& w.is_focused == l.is_focused
}

/// A byte-for-byte copy of a byte string.
pub fn clone_bytes(v: &Vec<u8>) -> (r: Vec<u8>)
    ensures
        r@ == v@,
{
    let mut r: Vec<u8> = Vec::new();
    let mut i: usize = 0;
    while i < v.len()
        invariant
            i <= v@.len(),
            r@ == v@.subrange(0, i as int),
        decreases v@.len() - i,
    {
        r.push(v[i]);
        i = i + 1;
        proof {
            assert(r@ =~= v@.subrange(0, i as int));
        }
    }
    proof {
        assert(r@ =~= v@);
    }
    r
}

/// The computing half of a save: reduce the live window list to the tracked
/// form, keeping only the fields a restore needs. A live window without an
/// app id is recorded under the empty identifier.
pub fn snapshot_from_live(live: &Vec<LiveWindow>) -> (snap: Vec<TrackedWindow>)
    ensures
        snap@.len() == live@.len(),
        forall|i: int| 0 <= i < live@.len() ==> reduced_from(snap@[i], live@[i]),
{
    let mut snap: Vec<TrackedWindow> = Vec::new();
    let mut i: usize = 0;
    while i < live.len()
        invariant
            i <= live@.len(),
            snap@.len() == i,
            forall|j: int| 0 <= j < i ==> reduced_from(snap@[j], live@[j]),
        decreases live@.len() - i,
    {
        let l = &live[i];
        let app_id: Vec<u8> = match &l.app_id {
            Some(a) => clone_bytes(a),
            None => Vec::new(),
        };
        snap.push(TrackedWindow {
            id: l.id,
            app_id,
            workspace_id: l.workspace_id,
            is_focused: l.is_focused,
        });
        i = i + 1;
    }
    snap
}

} // verus!
