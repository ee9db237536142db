//! What the subcommands decide and tell.

use rewind::cli::{
    cause_lines, checkpoint_line, ci_command_line, consent, detect_test_command, diff_lines,
    diff_sides, environment_lines, exit_from_code, init_lines, init_test_command, is_yes,
    no_consent, no_diff, no_repository_lines, no_snapshot_named, no_such_snapshot,
    nothing_to_restore, opening_failure, outcome_footer, plan_lines, project_file_list,
    recent_snapshot_lines, repository_lines, restored_line, run_command_line, storage_lines,
    test_command_line, undone_line, Consent, DiffSides,
};
use rewind::diff::{ChangeStatus, FileChange};
use rewind::error::RewindError;
use rewind::exec::CommandOutcome;
use rewind::investigate::{Investigation, LikelyCause};
use rewind::models::{Restore, Snapshot, TestRun};
use rewind::objects::Loaded;
use rewind::paths::StoragePaths;
use rewind::repo::GitState;
use rewind::restore::{PlanEntry, RestorePlan, RestoreStats};
use rewind::session::RestoreOutcome;
use rewind::text_map::TextSet;

fn set(names: &[&str]) -> TextSet {
    let mut s = TextSet::new();
    for n in names {
        s.insert(n.to_string(), ());
    }
    s
}

fn s(t: &str) -> String {
    t.to_string()
}

fn outcome(exit_code: Option<i32>, cancelled: bool, timed_out: bool) -> CommandOutcome {
    CommandOutcome {
        exit_code,
        duration_ms: 20,
        cancelled,
        timed_out,
        stdout: Vec::new(),
        stderr: Vec::new(),
        combined: Vec::new(),
    }
}

fn snapshot(id: i64) -> Snapshot {
    Snapshot {
        id,
        repo_id: 1,
        session_id: None,
        parent_id: None,
        kind: s("manual"),
        label: s("l"),
        created_at: 0,
        git_branch: None,
        git_head: None,
        git_dirty: false,
        file_count: 2,
        total_bytes: 3,
    }
}

#[test]
fn test_commands_by_project() {
    assert_eq!(project_file_list().len(), 8);
    for (file, command) in [
        ("Cargo.toml", "cargo test"),
        ("package.json", "npm test"),
        ("pyproject.toml", "pytest"),
        ("pytest.ini", "pytest"),
        ("tox.ini", "pytest"),
        ("go.mod", "go test ./..."),
        ("Gemfile", "bundle exec rake test"),
        ("Makefile", "make test"),
    ] {
        assert_eq!(detect_test_command(&set(&[file])), Some(s(command)));
    }
    assert_eq!(detect_test_command(&set(&["Makefile", "Cargo.toml"])), Some(s("cargo test")));
    assert_eq!(detect_test_command(&set(&["other"])), None);
}

#[test]
fn test_command_to_write_down() {
    let cargo = set(&["Cargo.toml"]);
    assert_eq!(init_test_command(Some(s("a")), Some(s("b")), &cargo), Some(s("a")));
    assert_eq!(init_test_command(None, Some(s("b")), &cargo), Some(s("b")));
    assert_eq!(init_test_command(None, None, &cargo), Some(s("cargo test")));
    assert_eq!(
        init_lines(false, "/r/.rewind.toml", Some("x")),
        vec![
            "Created /r/.rewind.toml",
            "  test_command = \"x\"",
            "Run `rewind` to open the interactive interface.",
        ]
    );
    assert!(init_lines(true, "f", None)[0].starts_with("Updated"));
}

#[test]
fn commands_have_to_be_given() {
    assert_eq!(run_command_line(&vec![s("echo"), s("hi")]), Ok(s("echo hi")));
    let err = run_command_line(&Vec::new()).unwrap_err();
    assert_eq!(err.message(), "no command given. Usage: rewind run -- <command>");
    assert_eq!(test_command_line(Some(s("a")), Some(s("b"))), Ok(s("a")));
    assert_eq!(test_command_line(None, Some(s("b"))), Ok(s("b")));
    assert!(test_command_line(None, None).is_err());
    assert_eq!(ci_command_line(&vec![s("x"), s("y")], false), Ok(Some(s("x y"))));
    assert_eq!(ci_command_line(&Vec::new(), true), Ok(None));
    assert!(ci_command_line(&Vec::new(), false).is_err());
}

#[test]
fn outside_git_repo_is_friendly() {
    let err = opening_failure(RewindError::NotAGitRepo);
    assert!(err.message().contains("not inside a Git repository"));
    assert!(err.message().contains("rewind init --git"));
    assert_eq!(opening_failure(RewindError::Cancelled), RewindError::Cancelled);
}

#[test]
fn endings_of_runs() {
    let line = |o| outcome_footer("c", &o);
    assert_eq!(line(outcome(Some(0), false, false)), "[rewind] `c` ok in 20ms");
    assert_eq!(line(outcome(Some(7), false, false)), "[rewind] `c` exit 7 in 20ms");
    assert_eq!(line(outcome(None, false, false)), "[rewind] `c` killed in 20ms");
    assert_eq!(line(outcome(None, true, true)), "[rewind] `c` cancelled in 20ms");
    assert_eq!(line(outcome(None, false, true)), "[rewind] `c` timed out in 20ms");
}

#[test]
fn test_command_pass_and_fail_exit_codes() {
    assert_eq!(exit_from_code(Some(0), true), 0);
    assert_eq!(exit_from_code(Some(3), false), 3);
    assert_eq!(exit_from_code(None, false), 1);
    assert_eq!(exit_from_code(Some(256), false), 255);
    assert_eq!(exit_from_code(Some(-1), false), 1);
    assert_eq!(exit_from_code(Some(0), false), 0);
}

#[test]
fn eight_causes_are_told() {
    let cause = |n: i32| LikelyCause {
        path: format!("f{n}"),
        score: n,
        status: ChangeStatus::Modified,
        evidence: vec![s("e")],
        changed_lines: Vec::new(),
        relevant_output: Vec::new(),
        dependency_changes: Vec::new(),
    };
    let mut inv = Investigation {
        failing_test_run_id: 1,
        passing_test_run_id: None,
        summary: s(""),
        causes: (0..9).map(cause).collect(),
        dependency_changes: Vec::new(),
        failing_output_excerpt: s(""),
        related_command: None,
    };
    let told = cause_lines(&inv);
    assert_eq!(told.len(), 16);
    assert_eq!(told[0], "  1. f0 — relevance 0");
    assert_eq!(told[1], "       - e");
    assert_eq!(told[14], "  8. f7 — relevance 7");
    inv.causes.clear();
    assert_eq!(cause_lines(&inv), vec!["  (no changed files to rank)"]);
}

#[test]
fn sides_of_a_comparison() {
    assert_eq!(diff_sides(&Vec::new(), Some(1), Some(2)), DiffSides::NoSnapshots);
    let ids = vec![9, 7, 3];
    assert_eq!(diff_sides(&ids, Some(3), Some(9)), DiffSides::Snapshots { old: 3, new: 9 });
    assert_eq!(diff_sides(&ids, Some(3), None), DiffSides::WorkingTree { old: 3 });
    assert_eq!(diff_sides(&ids, None, Some(5)), DiffSides::Snapshots { old: 7, new: 9 });
    assert_eq!(diff_sides(&vec![9], None, None), DiffSides::OneSnapshot);
    assert!(no_diff(&DiffSides::OneSnapshot).unwrap().starts_with("Only one"));
    assert!(no_diff(&DiffSides::NoSnapshots).unwrap().starts_with("No snapshots yet"));
    assert_eq!(no_diff(&DiffSides::WorkingTree { old: 1 }), None);
}

#[test]
fn checkpoint_then_diff() {
    assert_eq!(
        checkpoint_line(&snapshot(4)),
        "Created checkpoint #4 (2 files, 1970-01-01T00:00:00Z)"
    );
    let mut o = Loaded::new();
    o.insert(s("h1"), b"one\n".to_vec());
    o.insert(s("h2"), b"two\n".to_vec());
    let change = |path: &str, status, new: Option<&str>| FileChange {
        path: s(path),
        status,
        old_hash: Some(s("h1")),
        new_hash: new.map(s),
        old_size: 4,
        new_size: 4,
    };
    let changes =
        vec![change("a", ChangeStatus::Modified, Some("h2")), change("b", ChangeStatus::Deleted, None)];
    assert_eq!(
        diff_lines(&o, 1, 2, &changes, false),
        vec!["Diff snapshot #1 → #2: 2 change(s)", "  M a  (+1 -1)", "  D b  (+0 -1)"]
    );
    let with_patch = diff_lines(&o, 1, 2, &changes[..1].iter().map(|c| c.clone()).collect(), true);
    assert_eq!(
        with_patch[2..],
        ["    --- a/a", "    +++ b/a", "    @@ -1 +1 @@", "    -one", "    +two"]
    );
}

#[test]
fn recent_snapshots() {
    let many: Vec<Snapshot> = (0..20).map(snapshot).collect();
    let lines = recent_snapshot_lines(&many);
    assert_eq!(lines.len(), 16);
    assert_eq!(lines[0], "Recent snapshots:");
    let want = format!("  #{:<4} {:<14} {}  ({} files)", 3, "manual", "1970-01-01T00:00:00Z", 2);
    assert_eq!(lines[4], want);
}

#[test]
fn plan_of_a_restore() {
    let entry = |p: &str| PlanEntry { path: s(p), hash: s("h"), size: 1, mode: 0 };
    let plan = RestorePlan {
        snapshot_id: 5,
        create: vec![entry("a")],
        overwrite: vec![entry("b")],
        delete: vec![s("c")],
    };
    assert_eq!(
        plan_lines(5, &plan),
        vec![
            "Restore plan (snapshot #5):",
            "  create    a",
            "  overwrite b",
            "  delete    c",
            "  2 file(s) to write, 1 to delete",
        ]
    );
    assert!(nothing_to_restore(5).ends_with("matches snapshot #5."));
    assert_eq!(no_such_snapshot(6).message(), "no snapshot #6");
    assert!(no_snapshot_named().message().starts_with("specify a snapshot id"));
}

#[test]
fn restore_needs_consent() {
    assert_eq!(consent(true, false), Consent::Given);
    assert_eq!(consent(false, true), Consent::Ask);
    assert_eq!(consent(false, false), Consent::Refused);
    assert!(no_consent().message().contains("--yes"));
    for yes in ["y\n", " YES ", "Yes", "Y"] {
        assert!(is_yes(yes), "{yes:?}");
    }
    for no in ["", "\n", "n", "yess", "ok"] {
        assert!(!is_yes(no), "{no:?}");
    }
}

#[test]
fn restores_are_told() {
    let stats = RestoreStats { written: 2, deleted: 1 };
    let out = RestoreOutcome { restore_id: 3, safety_snapshot_id: 8, stats };
    assert_eq!(
        restored_line(&out),
        "Restored: 2 written, 1 deleted. Safety snapshot #8. Undo with `rewind undo`."
    );
    let record = Restore {
        id: 3,
        source_snapshot_id: 1,
        safety_snapshot_id: 8,
        scope: s("full"),
        files_written: 2,
        files_deleted: 1,
        undone: false,
        created_at: 0,
    };
    assert_eq!(
        undone_line(&record, &out.stats),
        "Undid restore #3: 2 written, 1 deleted (from safety snapshot #8)."
    );
}

#[test]
fn doctor_reports_repo() {
    let state =
        GitState { branch: Some(s("main")), head: Some(s("0123456789abcdef")), dirty: true };
    assert_eq!(
        repository_lines("/r", &state),
        vec!["  repository:   /r", "  git:          branch main, head 01234567, dirty"]
    );
    let none = GitState { branch: None, head: None, dirty: false };
    assert_eq!(repository_lines("/r", &none)[1], "  git:          branch (none), head (none)");
    let storage = StoragePaths::for_repo_in("/data", "/r");
    let mut run = TestRun {
        id: 1,
        repo_id: 1,
        command: s("t"),
        exit_code: None,
        passed: None,
        cancelled: false,
        duration_ms: None,
        started_at: 0,
        finished_at: None,
        pre_snapshot_id: None,
        post_snapshot_id: None,
        log_object: None,
    };
    let lines = storage_lines(&storage, false, None, 4, None);
    assert_eq!(lines.len(), 8);
    assert_eq!(lines[0], format!("  storage:      {}", storage.root));
    assert_eq!(lines[4], "  config:       using defaults (no .rewind.toml)");
    assert_eq!(lines[5], "  test command: (none configured)");
    assert_eq!(lines[6], "  snapshots:    4");
    assert_eq!(lines[7], "  last test:    none yet");
    assert_eq!(storage_lines(&storage, true, None, 4, Some(&run))[7], "  last test:    incomplete");
    run.passed = Some(true);
    assert_eq!(storage_lines(&storage, true, None, 4, Some(&run))[7], "  last test:    passed");
    assert_eq!(
        no_repository_lines("/d", &RewindError::NotAGitRepo)[0],
        "  repository:   NOT a Git repository (/d)"
    );
    assert_eq!(
        no_repository_lines("/d", &RewindError::Cancelled),
        vec!["  repository:   error: operation cancelled"]
    );
    assert_eq!(environment_lines("sh", None)[1], "  data dir env: (unset)");
}
