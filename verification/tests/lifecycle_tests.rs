use niri_session_manager::Settings;
use niri_session_manager::rotate::backup_file_name;
use niri_session_manager::rotate::is_backup_name;
use niri_session_manager::rotate::rotate_plan;
use niri_session_manager::rotate::timestamped_backup_name;
use niri_session_manager::sched::SchedEvent;
use niri_session_manager::sched::scheduler_step;
use niri_session_manager::sched::save_interval_secs;
use niri_session_manager::sched::should_retry;

#[test]
fn rotation_keeps_five_most_recent_of_eight() {
    // Eight backups with distinct modification times, newest having the
    // largest time; keeping five must delete exactly the three oldest.
    let mtimes: Vec<u64> = vec![50, 10, 80, 30, 70, 20, 60, 40];
    let del = rotate_plan(&mtimes, 5);
    assert_eq!(del, vec![1, 3, 5]);
}

#[test]
fn rotation_is_a_noop_at_or_below_keep_count() {
    let mtimes: Vec<u64> = vec![5, 4, 3, 2, 1];
    assert!(rotate_plan(&mtimes, 5).is_empty());
    assert!(rotate_plan(&mtimes, 9).is_empty());
    let none: Vec<u64> = Vec::new();
    assert!(rotate_plan(&none, 0).is_empty());
}

#[test]
fn rotation_breaks_ties_by_position() {
    // Equal times: earlier positions count as more recent, so the last two
    // of the four equal entries are deleted when keeping two.
    let mtimes: Vec<u64> = vec![9, 9, 9, 9];
    let del = rotate_plan(&mtimes, 2);
    assert_eq!(del, vec![2, 3]);
}

#[test]
fn rotation_keeps_zero() {
    let mtimes: Vec<u64> = vec![3, 1, 2];
    let del = rotate_plan(&mtimes, 0);
    assert_eq!(del, vec![0, 1, 2]);
}

#[test]
fn backup_names() {
    assert_eq!(
        backup_file_name("session", "2024-01-02T03:04:05Z"),
        "session-2024-01-02T03:04:05Z.bak"
    );
    assert!(is_backup_name(&b"session-2024-01-02T03:04:05Z.bak".to_vec()));
    assert!(is_backup_name(&b".bak".to_vec()));
    assert!(!is_backup_name(&b"session.json".to_vec()));
    assert!(!is_backup_name(&b"bak".to_vec()));
}

#[test]
fn timestamped_backup_name_has_shape() {
    let name = timestamped_backup_name("session");
    assert!(name.starts_with("session-"));
    assert!(name.ends_with(".bak"));
    assert!(name.len() > "session-".len() + ".bak".len());
}

#[test]
fn shutdown_causes_exactly_one_final_save() {
    // A tick, then a shutdown arriving during the sleep: the periodic pass
    // runs once, the final pass runs once, and the loop exits without
    // observing anything that follows.
    let events = [SchedEvent::Tick, SchedEvent::Shutdown, SchedEvent::Tick];
    let mut saves = 0u32;
    let mut exited = false;
    for ev in events.iter() {
        let d = scheduler_step(ev);
        if d.save_now {
            saves += 1;
        }
        if !d.keep_running {
            exited = true;
            break;
        }
    }
    assert!(exited);
    assert_eq!(saves, 2);
}

#[test]
fn every_wakeup_saves() {
    let tick = scheduler_step(&SchedEvent::Tick);
    assert!(tick.save_now);
    assert!(tick.keep_running);
    let down = scheduler_step(&SchedEvent::Shutdown);
    assert!(down.save_now);
    assert!(!down.keep_running);
}

#[test]
fn defaults_and_conversions() {
    let s = Settings::default();
    assert_eq!(s.save_interval, 15);
    assert_eq!(s.max_backup_count, 5);
    assert_eq!(s.spawn_timeout, 5);
    assert_eq!(s.retry_attempts, 3);
    assert_eq!(s.retry_delay, 2);
    assert_eq!(save_interval_secs(15), 900);
}

#[test]
fn retry_only_while_attempts_remain() {
    assert!(should_retry(1, 3));
    assert!(should_retry(2, 3));
    assert!(!should_retry(3, 3));
    assert!(!should_retry(1, 1));
}
