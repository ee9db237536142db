//! Reports of test runs.

use rewind::ci::{
    base_snapshot, changed_files, changes_patch, make_report, render_summary_md, resolve_out_dir,
    status_word, summary_line, ChangedFile, CiReport, REPORT_DIR,
};
use rewind::diff::{ChangeStatus, FileChange};
use rewind::exec::{CommandOutcome, DependencyChange};
use rewind::investigate::{Investigation, LikelyCause};
use rewind::objects::Loaded;
use rewind::session::TestResult;

fn report(passed: bool, exit_code: Option<i32>) -> CiReport {
    CiReport {
        rewind_version: "0.1.0".to_string(),
        generated_at: "now".to_string(),
        command: "make test".to_string(),
        passed,
        exit_code,
        timed_out: false,
        cancelled: false,
        duration_ms: 1500,
        changed_files: Vec::new(),
        dependency_changes: Vec::new(),
        likely_causes: Vec::new(),
        investigated: false,
        summary: "s".to_string(),
    }
}

fn change(path: &str, status: ChangeStatus, old: Option<&str>, new: Option<&str>) -> FileChange {
    FileChange {
        path: path.to_string(),
        status,
        old_hash: old.map(|s| s.to_string()),
        new_hash: new.map(|s| s.to_string()),
        old_size: 0,
        new_size: 0,
    }
}

fn cause(path: &str, score: i32, evidence: &[&str]) -> LikelyCause {
    LikelyCause {
        path: path.to_string(),
        score,
        status: ChangeStatus::Modified,
        evidence: evidence.iter().map(|s| s.to_string()).collect(),
        changed_lines: Vec::new(),
        relevant_output: Vec::new(),
        dependency_changes: Vec::new(),
    }
}

fn objects() -> Loaded {
    let mut o = Loaded::new();
    o.insert("h1".to_string(), b"one\n".to_vec());
    o.insert("h2".to_string(), b"two\n".to_vec());
    o.insert("bin".to_string(), b"\0".to_vec());
    o
}

#[test]
fn exit_code_tells_whether_tests_passed() {
    for (passed, code, want, status) in [
        (true, Some(0), 0, 0u8),
        (false, Some(3), 3, 3),
        (false, Some(0), 1, 1),
        (false, None, 1, 1),
        (false, Some(-1), -1, 1),
        (false, Some(300), 300, 255),
    ] {
        let r = report(passed, code);
        assert_eq!(r.exit_code_for_process(), want);
        assert_eq!(r.process_status(), status);
    }
}

#[test]
fn base_is_the_last_pass_if_there_is_one() {
    assert_eq!(base_snapshot(true, Some(4), 9), 4);
    assert_eq!(base_snapshot(true, None, 9), 9);
    assert_eq!(base_snapshot(false, Some(4), 9), 9);
}

#[test]
fn changed_files_with_their_line_counts() {
    let changes = vec![
        change("a", ChangeStatus::Modified, Some("h1"), Some("h2")),
        change("b", ChangeStatus::Renamed { from: "c".to_string() }, Some("bin"), Some("bin")),
    ];
    let files = changed_files(&objects(), &changes);
    assert_eq!(
        files[0],
        ChangedFile { path: "a".to_string(), status: "modified".to_string(), added: 1, removed: 1 }
    );
    assert_eq!(files[1].status, "renamed");
    assert_eq!((files[1].added, files[1].removed), (0, 0));
    assert_eq!(status_word(&ChangeStatus::Added), "added");
    assert_eq!(status_word(&ChangeStatus::Deleted), "deleted");
}

#[test]
fn summary_in_one_line() {
    assert_eq!(summary_line(true, 1500, 2), "test passed in 1.50s; 2 changed file(s)");
    assert_eq!(summary_line(false, 20, 0), "test failed in 20ms; 0 changed file(s)");
}

#[test]
fn patch_of_all_changes() {
    let changes = vec![
        change("gone", ChangeStatus::Deleted, Some("h1"), None),
        change("mod", ChangeStatus::Modified, Some("h1"), Some("h2")),
        change("pic", ChangeStatus::Modified, Some("bin"), Some("h2")),
    ];
    assert_eq!(
        changes_patch(&objects(), &changes),
        "--- a/gone\n+++ /dev/null\n\
         --- a/mod\n+++ b/mod\n@@ -1 +1 @@\n-one\n+two\n\
         Binary file pic changed\n"
    );
    assert_eq!(changes_patch(&objects(), &Vec::new()), "");
}

#[test]
fn summary_of_a_passing_run() {
    assert_eq!(
        render_summary_md(&report(true, Some(0))),
        "# Rewind CI Report — ✅ PASSED\n\n- **Command:** `make test`\n- **Exit code:** 0\n\
         - **Duration:** 1.50s\n- **Generated:** now\n- **Rewind:** v0.1.0\n\n\
         ## Changed files (0)\n\n_No tracked file changes._\n\n"
    );
}

#[test]
fn summary_of_a_failing_run() {
    let mut r = report(false, None);
    r.timed_out = true;
    r.cancelled = true;
    r.changed_files.push(ChangedFile {
        path: "a".to_string(),
        status: "modified".to_string(),
        added: 2,
        removed: 1,
    });
    r.dependency_changes.push(DependencyChange {
        file: "Cargo.toml".to_string(),
        name: "serde".to_string(),
        old: None,
        new: Some("2".to_string()),
    });
    assert_eq!(
        render_summary_md(&r),
        "# Rewind CI Report — ❌ FAILED\n\n- **Command:** `make test`\n- **Exit code:** killed\n\
         - **Duration:** 1.50s\n- **Timed out:** yes\n- **Cancelled:** yes\n\
         - **Generated:** now\n- **Rewind:** v0.1.0\n\n\
         ## Changed files (1)\n\n| Status | File | +/- |\n|---|---|---|\n\
         | modified | `a` | +2 / -1 |\n\n\
         ## Dependency changes\n\n- `serde` in `Cargo.toml`: — → 2\n\n\
         ## Likely causes\n\n_No prior passing run to compare against, so no ranking was \
         produced._\n\n"
    );
}

#[test]
fn summary_tells_ten_causes() {
    let mut r = report(false, Some(1));
    r.investigated = true;
    for i in 0..12 {
        r.likely_causes.push(cause(&format!("f{i}"), 3 - i, &["changed"]));
    }
    let md = render_summary_md(&r);
    assert!(md.contains("1. `f0` — relevance 3\n   - changed\n2. `f1` — relevance 2\n"));
    assert!(md.contains("10. `f9` — relevance -6\n"));
    assert!(!md.contains("`f10`"));
}

#[test]
fn report_of_a_result() {
    let result = TestResult {
        test_run_id: 1,
        outcome: CommandOutcome {
            exit_code: Some(1),
            duration_ms: 20,
            cancelled: false,
            timed_out: true,
            stdout: Vec::new(),
            stderr: Vec::new(),
            combined: Vec::new(),
        },
        pre_snapshot: 1,
        post_snapshot: 2,
        passed: false,
        investigation: Some(Investigation {
            failing_test_run_id: 1,
            passing_test_run_id: Some(0),
            summary: "s".to_string(),
            causes: vec![cause("a", 3, &[])],
            dependency_changes: Vec::new(),
            failing_output_excerpt: "x".to_string(),
            related_command: None,
        }),
    };
    let r = make_report("0.1.0", 0, Some("t"), result, Vec::new());
    assert_eq!(r.generated_at, "1970-01-01T00:00:00Z");
    assert_eq!(r.command, "t");
    assert!(r.investigated && r.timed_out && !r.passed);
    assert_eq!(r.likely_causes.len(), 1);
    assert_eq!(r.summary, "test failed in 20ms; 0 changed file(s)");
}

#[test]
fn report_directory() {
    assert_eq!(resolve_out_dir("/repo", None), format!("/repo/{REPORT_DIR}"));
    assert_eq!(resolve_out_dir("/repo", Some("out")), "/repo/out");
    assert_eq!(resolve_out_dir("/repo", Some("/out")), "/out");
}
