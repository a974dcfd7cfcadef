use niri_session_manager::SessionError;
use niri_session_manager::config::AppMapping;
use niri_session_manager::config::AppResolutionTable;
use niri_session_manager::ipc::AckReply;
use niri_session_manager::ipc::WindowsReply;
use niri_session_manager::ipc::ack_ok;
use niri_session_manager::ipc::interpret_windows_reply;
use niri_session_manager::plan::plan_restore;
use niri_session_manager::snapshot::LiveWindow;
use niri_session_manager::snapshot::TrackedWindow;
use niri_session_manager::task::RelocateCmd;
use niri_session_manager::task::TaskState;
use niri_session_manager::task::find_match;
use niri_session_manager::task::on_poll;
use niri_session_manager::task::on_spawn_reply;
use niri_session_manager::task::poll_budget;

fn saved_win(app: &str, ws: Option<u64>) -> TrackedWindow {
    TrackedWindow { id: 1, app_id: app.as_bytes().to_vec(), workspace_id: ws, is_focused: false }
}

fn live(id: u64, app: Option<&str>) -> LiveWindow {
    LiveWindow {
        id,
        app_id: app.map(|a| a.as_bytes().to_vec()),
        workspace_id: None,
        is_focused: false,
    }
}

fn table(mappings: &[(&str, &[&str])], single: &[&str]) -> AppResolutionTable {
    AppResolutionTable {
        mappings: mappings
            .iter()
            .map(|(app, cmd)| AppMapping {
                app_id: app.as_bytes().to_vec(),
                command: cmd.iter().map(|w| w.as_bytes().to_vec()).collect(),
            })
            .collect(),
        single_instance: single.iter().map(|a| a.as_bytes().to_vec()).collect(),
    }
}

#[test]
fn already_present_app_is_not_spawned() {
    let saved = vec![saved_win("firefox", Some(1))];
    let current = vec![live(10, Some("firefox"))];
    let t = table(&[], &[]);
    let tasks = plan_restore(&saved, &current, &t);
    assert!(tasks.is_empty());
}

#[test]
fn single_instance_app_spawned_once() {
    let saved = vec![saved_win("zen", Some(1)), saved_win("zen", Some(2))];
    let current: Vec<LiveWindow> = Vec::new();
    let t = table(&[], &["zen"]);
    let tasks = plan_restore(&saved, &current, &t);
    assert_eq!(tasks.len(), 1);
    assert_eq!(tasks[0].app_id, b"zen".to_vec());
    assert_eq!(tasks[0].workspace_id, Some(1));
}

#[test]
fn multi_instance_app_spawned_per_window() {
    let saved = vec![saved_win("kitty", Some(1)), saved_win("kitty", Some(2))];
    let current: Vec<LiveWindow> = Vec::new();
    let t = table(&[], &[]);
    let tasks = plan_restore(&saved, &current, &t);
    assert_eq!(tasks.len(), 2);
}

#[test]
fn plan_resolves_commands() {
    let saved = vec![saved_win("vesktop", None), saved_win("plainapp", None)];
    let current: Vec<LiveWindow> = Vec::new();
    let t = table(&[("vesktop", &["flatpak", "run", "dev.vencord.Vesktop"])], &[]);
    let tasks = plan_restore(&saved, &current, &t);
    assert_eq!(tasks.len(), 2);
    assert_eq!(
        tasks[0].command,
        vec![b"flatpak".to_vec(), b"run".to_vec(), b"dev.vencord.Vesktop".to_vec()]
    );
    assert_eq!(tasks[1].command, vec![b"plainapp".to_vec()]);
}

#[test]
fn resolution_table_lookup() {
    let t = table(&[("obs", &["flatpak", "run", "com.obsproject.Studio"])], &["firefox"]);
    assert_eq!(
        t.resolve(&b"obs".to_vec()),
        vec![b"flatpak".to_vec(), b"run".to_vec(), b"com.obsproject.Studio".to_vec()]
    );
    assert_eq!(t.resolve(&b"nvim".to_vec()), vec![b"nvim".to_vec()]);
    assert!(t.is_single_instance(&b"firefox".to_vec()));
    assert!(!t.is_single_instance(&b"obs".to_vec()));
    let empty = AppResolutionTable::new();
    assert_eq!(empty.resolve(&b"x".to_vec()), vec![b"x".to_vec()]);
}

#[test]
fn unacknowledged_spawn_times_out_without_polling() {
    assert_eq!(on_spawn_reply(false, 10), TaskState::TimedOut);
    assert_eq!(on_spawn_reply(true, 0), TaskState::TimedOut);
    assert_eq!(on_spawn_reply(true, 10), TaskState::Spawned { attempts_left: 10 });
}

#[test]
fn unmatched_polls_time_out_without_relocation() {
    let budget = poll_budget(2);
    assert_eq!(budget, 4);
    let mut state = on_spawn_reply(true, budget);
    let mut polls = 0u64;
    loop {
        match state {
            TaskState::Spawned { attempts_left } => {
                assert!(attempts_left >= 1);
                let (next, cmd) = on_poll(&state, None, Some(3));
                assert_eq!(cmd, None);
                state = next;
                polls += 1;
            },
            other => {
                assert_eq!(other, TaskState::TimedOut);
                break;
            },
        }
    }
    assert_eq!(polls, budget);
}

#[test]
fn matching_poll_relocates_to_recorded_workspace() {
    let state = on_spawn_reply(true, 4);
    let (next, cmd) = on_poll(&state, Some(42), Some(7));
    assert_eq!(next, TaskState::Relocated);
    assert_eq!(cmd, Some(RelocateCmd { window_id: 42, workspace: 7 }));
}

#[test]
fn missing_workspace_defaults() {
    let state = on_spawn_reply(true, 4);
    let (next, cmd) = on_poll(&state, Some(42), None);
    assert_eq!(next, TaskState::Relocated);
    assert_eq!(cmd, Some(RelocateCmd { window_id: 42, workspace: 0 }));
}

#[test]
fn find_match_returns_first_matching_id() {
    let current = vec![
        live(1, None),
        live(2, Some("kitty")),
        live(3, Some("zen")),
        live(4, Some("zen")),
    ];
    assert_eq!(find_match(&current, &b"zen".to_vec()), Some(3));
    assert_eq!(find_match(&current, &b"kitty".to_vec()), Some(2));
    assert_eq!(find_match(&current, &b"emacs".to_vec()), None);
}

#[test]
fn windows_reply_interpretation() {
    let ws = vec![live(1, Some("a"))];
    match interpret_windows_reply(WindowsReply::WindowList(ws)) {
        Ok(out) => assert_eq!(out.len(), 1),
        Err(_) => panic!("window list must be accepted"),
    }
    assert_eq!(
        interpret_windows_reply(WindowsReply::ErrorPayload).err(),
        Some(SessionError::Transport)
    );
    assert_eq!(
        interpret_windows_reply(WindowsReply::UnexpectedShape).err(),
        Some(SessionError::Protocol)
    );
}

#[test]
fn ack_shapes() {
    assert!(ack_ok(&AckReply::Handled));
    assert!(!ack_ok(&AckReply::ErrorPayload));
    assert!(!ack_ok(&AckReply::UnexpectedShape));
}
