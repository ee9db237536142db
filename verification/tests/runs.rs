//! Runs of commands and tests, the repository, and the configuration.

use rewind::config::{
    default_ignored_dir_list, secret_pattern_list, Config, ConfigFile, DEFAULT_MAX_FILE_SIZE,
};
use rewind::error::RewindError;
use rewind::exec::{
    resolve_shell, Arrival, CommandOutcome, OutputChunk, RunSpec, RunState, StreamKind, Wait,
};
use rewind::investigate::Investigation;
use rewind::models::TestRun;
use rewind::repo::{discovered_root, git_text, GitOutput, GitState, Repo};
use rewind::session::{
    checkpoint_event, checkpoint_label, checkpoint_snapshot, describe_status, last_run_failed,
    session_ended, session_snapshot, session_started, snapshot_event, RunPlan,
};

fn chunk(kind: StreamKind, s: &str) -> Arrival {
    Arrival::Chunk(OutputChunk { kind, data: s.as_bytes().to_vec() })
}

fn outcome(exit_code: Option<i32>, cancelled: bool, timed_out: bool) -> CommandOutcome {
    CommandOutcome {
        exit_code,
        duration_ms: 1500,
        cancelled,
        timed_out,
        stdout: Vec::new(),
        stderr: Vec::new(),
        combined: b"log\n".to_vec(),
    }
}

fn investigation() -> Investigation {
    Investigation {
        failing_test_run_id: 1,
        passing_test_run_id: None,
        summary: "s".to_string(),
        causes: Vec::new(),
        dependency_changes: Vec::new(),
        failing_output_excerpt: String::new(),
        related_command: None,
    }
}

fn said(success: bool, stdout: &str, stderr: &str) -> GitOutput {
    GitOutput {
        success,
        stdout: stdout.as_bytes().to_vec(),
        stderr: stderr.as_bytes().to_vec(),
    }
}

#[test]
fn defaults_are_sane() {
    let c = Config::default();
    assert_eq!(c.max_file_size, DEFAULT_MAX_FILE_SIZE);
    assert!(c.test_command.is_none());
    assert!(!c.track_secrets);
    assert_eq!(c.warning(), None);
}

#[test]
fn configuration_files() {
    assert_eq!(Config::load(ConfigFile::Absent), Ok(Config::default()));
    let io = Config::load(ConfigFile::Unreadable("denied".to_string())).unwrap_err();
    assert_eq!(io, RewindError::Io("denied".to_string()));
    let toml = Config::load(ConfigFile::Malformed("line 1".to_string())).unwrap_err();
    assert_eq!(toml.message(), "failed to parse TOML: line 1");
    let zero = Config { max_file_size: 0, ..Config::default() };
    let err = Config::load(ConfigFile::Parsed(zero)).unwrap_err();
    assert_eq!(err.message(), "configuration error: max_file_size must be greater than zero");
    let one = Config { max_file_size: 1, ..Config::default() };
    assert!(one.validate().is_ok());
}

#[test]
fn built_in_patterns() {
    assert!(secret_pattern_list().contains(&".env"));
    assert!(secret_pattern_list().contains(&"*.pem"));
    assert!(default_ignored_dir_list().contains(&"node_modules"));
}

#[test]
fn captures_stdout_and_exit_zero() {
    let state = RunState::start().arrived(&chunk(StreamKind::Stdout, "hello\n"));
    let out = state.arrived(&Arrival::Closed).finish(Some(0), 5);
    assert!(out.passed());
    assert_eq!(out.exit_code, Some(0));
    assert!(String::from_utf8_lossy(&out.stdout).contains("hello"));
    assert_eq!(out.log_string(), "hello\n");
}

#[test]
fn nonzero_exit_is_failure() {
    let out = RunState::start().arrived(&Arrival::Closed).finish(Some(3), 5);
    assert_eq!(out.exit_code, Some(3));
    assert!(!out.passed());
}

#[test]
fn captures_stderr() {
    let out = RunState::start()
        .arrived(&chunk(StreamKind::Stdout, "a"))
        .arrived(&chunk(StreamKind::Stderr, "oops"))
        .arrived(&chunk(StreamKind::Stdout, "b"))
        .arrived(&Arrival::Closed)
        .finish(Some(0), 5);
    assert!(String::from_utf8_lossy(&out.stderr).contains("oops"));
    assert_eq!(out.stdout, b"ab");
    assert_eq!(out.combined, b"aoopsb");
}

#[test]
fn timeout_is_enforced() {
    let mut spec = RunSpec::new("sleep 10", "/tmp", "/bin/sh".to_string());
    spec.timeout = Some(300);
    let (state, kill) = RunState::start().check(false, 299, spec.timeout);
    assert!(!kill);
    let (state, kill) = state.check(false, 301, spec.timeout);
    assert!(kill);
    // It is killed once.
    let (state, kill) = state.check(false, 400, spec.timeout);
    assert!(!kill);
    let out = state.finish(None, 310);
    assert!(out.timed_out);
    assert!(!out.passed());
}

#[test]
fn cancellation_stops_the_command() {
    let (state, kill) = RunState::start().check(true, 200, None);
    assert!(kill);
    let out = state.finish(None, 210);
    assert!(out.cancelled);
    assert!(!out.passed());
}

#[test]
fn run_is_over_when_it_exited_and_said_all() {
    let state = RunState::start();
    assert_eq!(state.wait(), Wait::Output(40));
    assert!(!state.is_over(true));
    let state = state.arrived(&Arrival::Nothing).arrived(&Arrival::Closed);
    assert!(matches!(state.wait(), Wait::Sleep(_)));
    assert!(state.is_over(true));
    assert!(!state.is_over(false));
}

#[test]
fn output_that_is_not_utf8_is_logged() {
    let mut out = outcome(Some(0), false, false);
    out.combined = vec![b'a', 0xff, b'b'];
    assert_eq!(out.log_string(), "a\u{fffd}b");
}

#[test]
fn arguments_of_the_shell() {
    let spec = RunSpec::new("echo hi", "/tmp", "/bin/sh".to_string()).with_timeout_secs(2);
    assert_eq!(spec.timeout, Some(2000));
    assert_eq!(spec.arguments(false), vec!["/bin/sh", "-c", "echo hi"]);
    assert_eq!(spec.arguments(true)[1], "/C");
    let none = RunSpec::new("x", "/", "sh".to_string()).with_timeout_secs(0);
    assert_eq!(none.timeout, None);
    assert_eq!(resolve_shell(false, None), "/bin/sh");
    assert_eq!(resolve_shell(true, None), "cmd");
    assert_eq!(resolve_shell(false, Some("/bin/zsh")), "/bin/zsh");
}

#[test]
fn statuses_in_words() {
    assert_eq!(describe_status(&outcome(Some(0), false, false)), "passed");
    assert_eq!(describe_status(&outcome(Some(2), false, false)), "failed (exit 2)");
    assert_eq!(describe_status(&outcome(None, false, false)), "failed (killed)");
    assert_eq!(describe_status(&outcome(None, true, false)), "cancelled");
    assert_eq!(describe_status(&outcome(None, false, true)), "timed out");
}

#[test]
fn run_command_records_snapshots() {
    let run = RunPlan::for_command("echo hello > out.txt", "/repo", "/bin/sh".to_string());
    assert_eq!(run.command(), "echo hello > out.txt");
    assert_eq!(run.snapshot_before().kind, "pre_command");
    let started = run.started(1);
    assert_eq!(started.spec().cwd, "/repo");
    let ended = started.ended(outcome(Some(0), false, false));
    assert_eq!(ended.snapshot_after().kind, "post_command");
    assert_eq!(ended.log(), b"log\n");
    let completed = ended.completed(2, "h".to_string());
    assert!(!completed.wants_investigation());
    assert_eq!(completed.event().kind, "command");
    assert_eq!(completed.event().summary, "$ echo hello > out.txt — passed");
    assert_eq!(completed.record().exit_code, Some(0));
    let res = completed.command_result(9);
    assert!(res.outcome.passed());
    assert_ne!(res.pre_snapshot, res.post_snapshot);
    assert_eq!(res.command_id, 9);
}

#[test]
fn failed_test_is_investigated() {
    let cfg = Config { test_command: Some("t".to_string()), ..Config::default() };
    let run = match RunPlan::for_test(&cfg, "/repo", "sh".to_string()) {
        Ok(r) => r,
        Err(_) => panic!("refused"),
    };
    assert_eq!(run.snapshot_before().kind, "pre_test");
    let done = run.started(1).ended(outcome(Some(1), false, false)).completed(2, "h".to_string());
    assert!(done.wants_investigation());
    assert_eq!(done.record().passed, Some(false));
    assert_eq!(done.record().post_snapshot_id, 2);
    assert_eq!(done.event().kind, "test");
    assert_eq!(done.event().summary, "test failed (exit 1) (1.50s)");
    let res = done.test_result(4, Some(investigation()));
    assert!(!res.passed);
    assert_eq!(res.test_run_id, 4);
    assert_eq!(res.investigation.unwrap().summary, "s");
}

#[test]
fn only_a_failure_keeps_its_investigation() {
    for (code, cancelled) in [(Some(0), false), (None, true)] {
        let cfg = Config { test_command: Some("t".to_string()), ..Config::default() };
        let run = match RunPlan::for_test(&cfg, "/repo", "sh".to_string()) {
            Ok(r) => r,
            Err(_) => panic!("refused"),
        };
        let done = run.started(1).ended(outcome(code, cancelled, false));
        let res = done.completed(2, "h".to_string()).test_result(4, Some(investigation()));
        assert!(res.investigation.is_none());
    }
}

#[test]
fn cancelled_test_has_no_verdict() {
    let cfg = Config { test_command: Some("t".to_string()), ..Config::default() };
    let run = match RunPlan::for_test(&cfg, "/repo", "sh".to_string()) {
        Ok(r) => r,
        Err(_) => panic!("refused"),
    };
    let done = run.started(1).ended(outcome(None, true, false)).completed(2, "h".to_string());
    assert!(!done.wants_investigation());
    assert_eq!(done.record().passed, None);
    assert!(done.record().cancelled);
}

#[test]
fn test_needs_a_command() {
    let err = match RunPlan::for_test(&Config::default(), "/repo", "sh".to_string()) {
        Ok(_) => panic!("not refused"),
        Err(e) => e,
    };
    assert!(matches!(err, RewindError::Config(_)));
}

#[test]
fn checkpoint_and_snapshot_flow() {
    assert!(checkpoint_label(Some("first"), 0).contains("first"));
    assert_eq!(checkpoint_label(Some(" first "), 0), "checkpoint: first");
    assert_eq!(checkpoint_label(Some("  "), 3_661_000), "checkpoint 01:01:01");
    assert_eq!(checkpoint_label(None, 0), "checkpoint 00:00:00");
    let request = checkpoint_snapshot(Some("first"), 0);
    assert_eq!((request.kind.as_str(), request.label.as_str()), ("checkpoint", "checkpoint: first"));
    assert_eq!(checkpoint_event("l").kind, "checkpoint");
    assert_eq!(snapshot_event("l", 2).summary, "snapshot l (2 files)");
    assert_eq!(session_started().kind, "session_start");
    assert_eq!(session_snapshot().label, "session start");
    assert_eq!(session_ended().summary, "session ended");
}

#[test]
fn verdict_of_the_last_run() {
    assert!(!last_run_failed(None));
    let mut run = TestRun {
        id: 1,
        repo_id: 1,
        command: "t".to_string(),
        exit_code: Some(1),
        passed: Some(false),
        cancelled: false,
        duration_ms: None,
        started_at: 0,
        finished_at: None,
        pre_snapshot_id: None,
        post_snapshot_id: None,
        log_object: None,
    };
    assert!(last_run_failed(Some(&run)));
    run.passed = None;
    assert!(!last_run_failed(Some(&run)));
}

#[test]
fn discover_finds_root() {
    assert_eq!(discovered_root(&said(true, "/work/repo\n", "")), Ok("/work/repo".to_string()));
}

#[test]
fn discover_errors_outside_repo() {
    let err = discovered_root(&said(false, "", "fatal: not a git repository\n")).unwrap_err();
    assert_eq!(err, RewindError::NotAGitRepo);
    assert_eq!(discovered_root(&said(true, " \n", "")), Err(RewindError::NotAGitRepo));
    let err = discovered_root(&said(false, "", "fatal: broken\n")).unwrap_err();
    assert_eq!(err, RewindError::Git("fatal: broken".to_string()));
}

#[test]
fn state_of_a_repository() {
    assert_eq!(git_text(&said(true, " main\n", "")), Ok("main".to_string()));
    let s = GitState::from_output(
        &Some(said(true, "main\n", "")),
        &Some(said(true, "0123abcd\n", "")),
        &Some(said(true, " M a\n", "")),
    );
    assert_eq!(s.branch, Some("main".to_string()));
    assert_eq!(s.head, Some("0123abcd".to_string()));
    assert!(s.dirty);
    let s = GitState::from_output(&None, &Some(said(false, "", "x")), &Some(said(true, "", "")));
    assert_eq!((s.branch, s.head, s.dirty), (None, None, false));
    assert_eq!(Repo { root: "/work/repo".to_string() }.name(), "repo");
}

#[test]
fn messages_of_errors() {
    let s = || "x".to_string();
    assert_eq!(RewindError::Io(s()).message(), "I/O error: x");
    assert_eq!(RewindError::Db(s()).message(), "database error: x");
    assert_eq!(RewindError::Json(s()).message(), "JSON error: x");
    assert_eq!(RewindError::Git(s()).message(), "git command failed: x");
    assert_eq!(RewindError::Corrupt(s()).message(), "data corruption: x");
    assert_eq!(RewindError::Cancelled.message(), "operation cancelled");
    assert_eq!(RewindError::other("x").message(), "x");
    assert_eq!(
        RewindError::NotAGitRepo.message(),
        "not inside a Git repository (run `git init` or `rewind init`)"
    );
}
