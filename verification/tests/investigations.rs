//! The search for likely causes.

use rewind::diff::{ChangeStatus, FileChange};
use rewind::exec::{is_dependency_manifest, DependencyChange};
use rewind::investigate::{
    build_summary, comparison, dependency_diff, evidence, in_stack_trace, investigate,
    is_generated_or_unrelated, is_stack_frame_line, objects_needed, output_mentions,
    parse_versions, rank_causes, relevant_output_lines, score, tail_excerpt, version_diff,
    CauseSignals,
};
use rewind::models::{SnapshotFile, TestRun};
use rewind::objects::Loaded;
use rewind::text_map::TextSet;

fn sf(path: &str, hash: &str) -> SnapshotFile {
    SnapshotFile { path: path.to_string(), hash: hash.to_string(), size: 1, mode: 0o644 }
}

fn change(path: &str, old: &str, new: &str) -> FileChange {
    FileChange {
        path: path.to_string(),
        status: ChangeStatus::Modified,
        old_hash: Some(old.to_string()),
        new_hash: Some(new.to_string()),
        old_size: 1,
        new_size: 1,
    }
}

fn loaded(items: &[(&str, &str)]) -> Loaded {
    let mut m = Loaded::new();
    for (h, b) in items {
        m.insert(h.to_string(), b.as_bytes().to_vec());
    }
    m
}

fn lines(s: &[&str]) -> Vec<String> {
    s.iter().map(|l| l.to_string()).collect()
}

fn run(id: i64, passed: bool, pre: i64, post: i64) -> TestRun {
    TestRun {
        id,
        repo_id: 1,
        command: "t".to_string(),
        exit_code: Some(if passed { 0 } else { 1 }),
        passed: Some(passed),
        cancelled: false,
        duration_ms: Some(1),
        started_at: id,
        finished_at: Some(id),
        pre_snapshot_id: Some(pre),
        post_snapshot_id: Some(post),
        log_object: Some("log".to_string()),
    }
}

#[test]
fn scoring_matches_spec_weights() {
    let all = CauseSignals {
        changed_between_pass_and_fail: true,
        changed_before_failure: true,
        in_stack_trace: true,
        in_failing_output: true,
        dependency_changed: true,
        generated_or_unrelated: true,
    };
    // 5 + 4 + 3 + 3 + 2 - 3 = 14
    assert_eq!(score(&all), 14);

    let just_changed =
        CauseSignals { changed_between_pass_and_fail: true, ..Default::default() };
    assert_eq!(score(&just_changed), 3);

    let generated_only = CauseSignals { generated_or_unrelated: true, ..Default::default() };
    assert_eq!(score(&generated_only), -3);
}

#[test]
fn each_signal_has_its_weight() {
    let none = CauseSignals::default();
    assert_eq!(score(&none), 0);
    assert_eq!(score(&CauseSignals { in_stack_trace: true, ..Default::default() }), 5);
    assert_eq!(score(&CauseSignals { dependency_changed: true, ..Default::default() }), 4);
    assert_eq!(score(&CauseSignals { in_failing_output: true, ..Default::default() }), 3);
    assert_eq!(score(&CauseSignals { changed_before_failure: true, ..Default::default() }), 2);
    assert!(evidence(&none).is_empty());
    let all = CauseSignals {
        changed_between_pass_and_fail: true,
        changed_before_failure: true,
        in_stack_trace: true,
        in_failing_output: true,
        dependency_changed: true,
        generated_or_unrelated: true,
    };
    assert_eq!(
        evidence(&all),
        vec![
            "appears in a stack-trace line (+5)",
            "dependency version changed (+4)",
            "changed between the last pass and the failure (+3)",
            "path appears in failing output (+3)",
            "changed immediately before the failing run (+2)",
            "looks generated or unrelated (-3)",
        ]
    );
}

#[test]
fn stack_frame_detection() {
    assert!(is_stack_frame_line("    at src/foo.js:12:5"));
    assert!(is_stack_frame_line("  File \"app/main.py\", line 3"));
    assert!(is_stack_frame_line("thread 'main' panicked at src/lib.rs:9:1"));
    assert!(is_stack_frame_line("Traceback (most recent call last):"));
    assert!(!is_stack_frame_line("all tests passed"));
}

#[test]
fn output_mention_by_basename() {
    assert!(output_mentions("error in src/calc.rs at line 4", "src/calc.rs"));
    assert!(output_mentions("ReferenceError in calc.js", "lib/calc.js"));
    assert!(!output_mentions("nothing here", "src/calc.rs"));
}

#[test]
fn generated_detection() {
    assert!(is_generated_or_unrelated("dist/app.min.js"));
    assert!(is_generated_or_unrelated("src/generated/api.rs"));
    assert!(is_generated_or_unrelated("proto/user_pb2.py"));
    assert!(!is_generated_or_unrelated("src/main.rs"));
}

#[test]
fn parse_versions_across_formats() {
    let toml = "serde = \"1.0.2\"\nother = 2";
    let m = parse_versions(toml);
    assert_eq!(m.get("serde").map(String::as_str), Some("1.0.2"));

    let json = "  \"left-pad\": \"^1.3.0\",";
    let m = parse_versions(json);
    assert_eq!(m.get("left-pad").map(String::as_str), Some("^1.3.0"));

    let req = "requests==2.31.0";
    let m = parse_versions(req);
    assert_eq!(m.get("requests").map(String::as_str), Some("2.31.0"));
}

#[test]
fn lines_that_give_no_version() {
    for line in [
        "",
        "# serde = \"1\"",
        "// \"a\": \"1\"",
        "name = \"app\"",
        "two words = \"1\"",
        "a == ",
        "[dependencies]",
        "\"private\": true,",
    ] {
        assert!(parse_versions(line).is_empty(), "{line:?}");
    }
    let m = parse_versions("a = \"1\"\na = '2'\n@scope/pkg: >=3.1,\nx==y");
    assert_eq!(m.get("a").map(String::as_str), Some("2"));
    assert_eq!(m.get("@scope/pkg").map(String::as_str), Some(">=3.1"));
    assert_eq!(m.get("x").map(String::as_str), Some("y"));
    assert_eq!(m.len(), 3);
}

#[test]
fn short_names_are_looked_for_in_full_only() {
    assert!(!output_mentions("see a.c", "src/c"));
    assert!(output_mentions("see src/c", "src/c"));
    assert!(output_mentions("see abc", "src/abc"));
}

#[test]
fn dependency_manifest_detection() {
    assert!(is_dependency_manifest("package.json"));
    assert!(is_dependency_manifest("sub/dir/Cargo.lock"));
    assert!(!is_dependency_manifest("src/main.rs"));
}

#[test]
fn stack_trace_names_a_file() {
    let out = lines(&["running", "    at lib/calc.js:3:1", "calc.py is fine"]);
    assert!(in_stack_trace(&out, "lib/calc.js"));
    assert!(!in_stack_trace(&out, "lib/calc.py"));
    assert_eq!(
        relevant_output_lines(&out, "x/calc.py", 5),
        vec!["calc.py is fine".to_string()]
    );
    let many = lines(&["a.rs 1", "b", "a.rs 2", "a.rs 3"]);
    assert_eq!(
        relevant_output_lines(&many, "a.rs", 2),
        vec!["a.rs 1".to_string(), "a.rs 2".to_string()]
    );
}

#[test]
fn excerpt_is_the_end_of_the_output() {
    let out = lines(&["1", "2", "3"]);
    assert_eq!(tail_excerpt(&out, 2), "2\n3");
    assert_eq!(tail_excerpt(&out, 9), "1\n2\n3");
    assert_eq!(tail_excerpt(&Vec::new(), 9), "");
}

#[test]
fn version_changes_come_in_the_order_of_names() {
    let old = parse_versions("b = \"1\"\na = \"1\"\nsame = \"5\"");
    let new = parse_versions("b = \"2\"\nc = \"1\"\nsame = \"5\"");
    let d = version_diff("Cargo.toml", &old, &new);
    let want = |name: &str, old: Option<&str>, new: Option<&str>| DependencyChange {
        file: "Cargo.toml".to_string(),
        name: name.to_string(),
        old: old.map(|s| s.to_string()),
        new: new.map(|s| s.to_string()),
    };
    assert_eq!(
        d,
        vec![
            want("a", Some("1"), None),
            want("b", Some("1"), Some("2")),
            want("c", None, Some("1")),
        ]
    );
}

#[test]
fn dependency_changes_of_stored_manifests() {
    let o = loaded(&[("h1", "serde = \"1\"\n"), ("h2", "serde = \"2\"\n")]);
    let d = dependency_diff(&o, &change("Cargo.toml", "h1", "h2"));
    assert_eq!(d.len(), 1);
    assert_eq!(d[0].old, Some("1".to_string()));
    assert_eq!(d[0].new, Some("2".to_string()));
}

#[test]
fn causes_are_ranked() {
    let o = loaded(&[
        ("a1", "x\n"),
        ("a2", "y\n"),
        ("d1", "serde = \"1\"\n"),
        ("d2", "serde = \"2\"\n"),
        ("g1", "x\n"),
        ("g2", "y\n"),
    ]);
    let changes = vec![
        change("Cargo.toml", "d1", "d2"),
        change("generated/out.js", "g1", "g2"),
        change("src/calc.rs", "a1", "a2"),
    ];
    let mut before = TextSet::new();
    before.insert("src/calc.rs".to_string(), ());
    let (causes, deps) =
        rank_causes(&o, &changes, &before, "thread 'main' panicked at src/calc.rs:9:1\n");
    let told: Vec<(&str, i32)> = causes.iter().map(|c| (c.path.as_str(), c.score)).collect();
    assert_eq!(told, vec![("src/calc.rs", 13), ("Cargo.toml", 7), ("generated/out.js", 0)]);
    assert_eq!(causes[0].changed_lines, vec![1]);
    assert_eq!(deps.len(), 1);
}

#[test]
fn equal_scores_are_ranked_by_path() {
    let o = loaded(&[("1", "x\n"), ("2", "y\n")]);
    let changes = vec![change("a.rs", "1", "2"), change("b.rs", "1", "2")];
    let (causes, _) = rank_causes(&o, &changes, &TextSet::new(), "");
    assert_eq!(causes[0].path, "a.rs");
    assert_eq!(causes[1].path, "b.rs");
}

#[test]
fn failure_is_compared_with_the_last_pass() {
    let o = loaded(&[("1", "x\n"), ("2", "y\n"), ("log", "    at src/a.js:1:1\n")]);
    let passing = run(1, true, 10, 11);
    let failing = run(2, false, 12, 13);
    let cmp = comparison(&failing, Some(&passing)).unwrap();
    assert_eq!(cmp.passing_post, 11);
    assert_eq!(cmp.failing_post, 13);
    assert!(comparison(&failing, None).is_none());
    let inv = investigate(
        &failing,
        Some(&passing),
        &vec![sf("src/a.js", "1")],
        &vec![sf("src/a.js", "2")],
        &vec![sf("src/a.js", "2")],
        &o,
    )
    .unwrap()
    .unwrap();
    assert_eq!(inv.failing_test_run_id, 2);
    assert_eq!(inv.passing_test_run_id, Some(1));
    assert_eq!(inv.causes.len(), 1);
    assert_eq!(inv.causes[0].path, "src/a.js");
    assert_eq!(inv.causes[0].score, 3 + 2 + 5 + 3);
    assert_eq!(inv.failing_output_excerpt, "    at src/a.js:1:1");
    assert_eq!(inv.summary, build_summary(&inv.causes, 1));
}

#[test]
fn summaries_of_investigations() {
    assert_eq!(
        build_summary(&Vec::new(), 0),
        "No tracked file changes between the last passing and failing runs."
    );
    let o = loaded(&[("1", "x\n"), ("2", "y\n")]);
    let (causes, _) = rank_causes(&o, &vec![change("a.rs", "1", "2")], &TextSet::new(), "");
    assert_eq!(
        build_summary(&causes, 4),
        "4 changed file(s); most relevant: a.rs (relevance 3)"
    );
}

#[test]
fn missing_log_is_an_error() {
    let passing = run(1, true, 10, 11);
    let failing = run(2, false, 12, 13);
    let none: Vec<SnapshotFile> = Vec::new();
    let err =
        investigate(&failing, Some(&passing), &none, &none, &none, &Loaded::new()).unwrap_err();
    assert_eq!(err.message(), "object log not found in the content store");
}

#[test]
fn no_pass_no_investigation() {
    let o = Loaded::new();
    let failing = run(2, false, 12, 13);
    let none: Vec<SnapshotFile> = Vec::new();
    assert_eq!(investigate(&failing, None, &none, &none, &none, &o), Ok(None));
}

#[test]
fn objects_of_the_changes_and_the_log_are_needed() {
    let needed = objects_needed(&vec![change("a", "1", "2")], &Some("log".to_string()));
    assert!(needed.contains_key("1") && needed.contains_key("2") && needed.contains_key("log"));
    assert_eq!(needed.len(), 3);
}
