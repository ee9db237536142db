//! The records of the history: snapshots, commands, test runs, restores and
//! timeline events.

use vstd::prelude::*;

pub mod event_kind;
pub mod snapshot_kind;

verus! {

/// One file of a snapshot: its path, the hash and size of its content, and its
/// permission bits.
#[derive(Debug, PartialEq, Eq)]
pub struct SnapshotFile {
    pub path: String,
    pub hash: String,
    pub size: i64,
    pub mode: u32,
}

/// A snapshot file with its texts as sequences of characters.
pub struct FileView {
    pub path: Seq<char>,
    pub hash: Seq<char>,
    pub size: i64,
    pub mode: u32,
}

impl View for SnapshotFile {
    type V = FileView;

    open spec fn view(&self) -> FileView {
        FileView { path: self.path@, hash: self.hash@, size: self.size, mode: self.mode }
    }
}

impl Clone for SnapshotFile {
    fn clone(&self) -> (r: SnapshotFile)
        ensures
            r@ == self@,
    {
        SnapshotFile {
            path: self.path.clone(),
            hash: self.hash.clone(),
            size: self.size,
            mode: self.mode,
        }
    }
}

/// The header of a snapshot.
#[derive(Debug, PartialEq, Eq)]
pub struct Snapshot {
    pub id: i64,
    pub repo_id: i64,
    pub session_id: Option<i64>,
    pub parent_id: Option<i64>,
    pub kind: String,
    pub label: String,
    pub created_at: i64,
    pub git_branch: Option<String>,
    pub git_head: Option<String>,
    pub git_dirty: bool,
    pub file_count: i64,
    pub total_bytes: i64,
}

/// What a snapshot header is made of, before it has an id.
#[derive(Debug, PartialEq, Eq)]
pub struct NewSnapshot {
    pub repo_id: i64,
    pub session_id: Option<i64>,
    pub parent_id: Option<i64>,
    pub kind: String,
    pub label: String,
    pub created_at: i64,
    pub git_branch: Option<String>,
    pub git_head: Option<String>,
    pub git_dirty: bool,
    pub file_count: i64,
    pub total_bytes: i64,
}

/// A captured command.
#[derive(Debug, PartialEq, Eq)]
pub struct CommandRun {
    pub id: i64,
    pub kind: String,
    pub command: String,
    pub exit_code: Option<i64>,
    pub duration_ms: Option<i64>,
    pub started_at: i64,
    pub finished_at: Option<i64>,
    pub pre_snapshot_id: Option<i64>,
    pub post_snapshot_id: Option<i64>,
    pub output_object: Option<String>,
}

/// A run of the test command.
#[derive(Debug, PartialEq, Eq)]
pub struct TestRun {
    pub id: i64,
    pub repo_id: i64,
    pub command: String,
    pub exit_code: Option<i64>,
    pub passed: Option<bool>,
    pub cancelled: bool,
    pub duration_ms: Option<i64>,
    pub started_at: i64,
    pub finished_at: Option<i64>,
    pub pre_snapshot_id: Option<i64>,
    pub post_snapshot_id: Option<i64>,
    pub log_object: Option<String>,
}

/// A restore that was carried out.
#[derive(Debug, PartialEq, Eq)]
pub struct Restore {
    pub id: i64,
    pub source_snapshot_id: i64,
    pub safety_snapshot_id: i64,
    pub scope: String,
    pub files_written: i64,
    pub files_deleted: i64,
    pub undone: bool,
    pub created_at: i64,
}

/// An entry of the timeline.
#[derive(Debug, PartialEq, Eq)]
pub struct Event {
    pub id: i64,
    pub kind: String,
    pub ref_id: Option<i64>,
    pub summary: String,
    pub created_at: i64,
}

} // verus!
