//! Persists and restores the set of open application windows of a compositor
//! session: periodic snapshots record which applications are open and on
//! which workspace; on the next start, missing applications are relaunched
//! and their windows moved back to the recorded workspaces.
//!
//! This crate holds the verified core: the snapshot codec, the backup
//! rotation rules, the restore planning and per-window restore protocol, and
//! the lifecycle scheduling decisions. The compositor transport, the
//! filesystem and the async runtime live outside, in the surrounding binary,
//! which hands plain values in and carries requested actions out.

pub mod codec;
pub mod config;
pub mod ipc;
pub mod plan;
pub mod rotate;
pub mod sched;
pub mod snapshot;
pub mod task;

use vstd::prelude::*;

verus! {

/// The error taxonomy of the whole system.
#[derive(Clone, Copy, Debug, PartialEq, Eq, Structural)]
pub enum SessionError {
    /// The compositor channel could not be reached, or it returned an error
    /// payload.
    Transport,
    /// The compositor replied with an unexpected shape.
    Protocol,
    /// The session file is non-empty but does not parse.
    CorruptSnapshot,
    /// The application configuration exists but does not parse.
    Config,
    /// A filesystem operation failed.
    Io,
}

/// Runtime settings, one field per tunable of the command line.
#[derive(Clone, Copy, Debug, PartialEq, Eq, Structural)]
pub struct Settings {
    /// Minutes between periodic saves.
    pub save_interval: u64,
    /// How many backup files rotation keeps.
    pub max_backup_count: usize,
    /// Seconds granted to a spawned application before its restore task
    /// gives up; the poll budget is twice this number of attempts.
    pub spawn_timeout: u64,
    /// How many times the whole restore cycle is attempted.
    pub retry_attempts: u32,
    /// Seconds between whole-cycle retry attempts.
    pub retry_delay: u64,
}

impl Default for Settings {
    /// The documented defaults of every tunable.
    fn default() -> (s: Settings)
        ensures
            s.save_interval == 15,
            s.max_backup_count == 5,
            s.spawn_timeout == 5,
            s.retry_attempts == 3,
            s.retry_delay == 2,
    {
        Settings {
            save_interval: 15,
            max_backup_count: 5,
            spawn_timeout: 5,
            retry_attempts: 3,
            retry_delay: 2,
        }
    }
}

} // verus!
