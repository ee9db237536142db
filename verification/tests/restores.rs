//! Plans of restores and how they are carried out, on a tree in memory.

use std::collections::BTreeMap;

use rewind::error::RewindError;
use rewind::models::{Restore, SnapshotFile};
use rewind::restore::{
    apply, current_manifest, mode_to_set, plan, safe_join, validate_rel_path, PlanEntry, RestoreOp,
    RestorePlan, Selection,
};
use rewind::session::{safety_snapshot, scope, undo_event, undo_target, SafeRestore};
use rewind::snapshot::manifest_map;

type Tree = BTreeMap<String, String>;

fn sf(path: &str, hash: &str) -> SnapshotFile {
    SnapshotFile { path: path.to_string(), hash: hash.to_string(), size: 1, mode: 0o644 }
}

/// The files of a tree whose contents stand for their own hashes.
fn files(tree: &Tree) -> Vec<SnapshotFile> {
    tree.iter().map(|(p, h)| sf(p.strip_prefix("/repo/").unwrap(), h)).collect()
}

fn tree(items: &[(&str, &str)]) -> Tree {
    items.iter().map(|(p, h)| (format!("/repo/{p}"), h.to_string())).collect()
}

fn carry_out(t: &mut Tree, p: &RestorePlan) -> (usize, usize) {
    let mut run = apply("/repo", p).unwrap();
    loop {
        let was_there = match run.next_op() {
            None => break,
            Some(RestoreOp::Write { at, hash, .. }) => {
                t.insert(at.clone(), hash.clone());
                true
            }
            Some(RestoreOp::Delete { at }) => t.remove(at).is_some(),
        };
        run = run.op_done(was_there);
    }
    let stats = run.stats();
    (stats.written, stats.deleted)
}

fn plan_for(target: &Tree, now: &Tree, selection: &Selection) -> RestorePlan {
    let target = manifest_map(&files(target));
    plan(1, Some(&target), &current_manifest(&files(now)), "/repo", selection).unwrap()
}

#[test]
fn rejects_path_traversal_and_git() {
    let root = "/repo";
    assert!(validate_rel_path(root, "src/main.rs").is_ok());
    assert!(validate_rel_path(root, "../escape").is_err());
    assert!(validate_rel_path(root, "/etc/passwd").is_err());
    assert!(validate_rel_path(root, ".git/config").is_err());
    assert!(validate_rel_path(root, "a/../../b").is_err());
    assert!(validate_rel_path(root, "").is_err());
}

#[test]
fn restore_refuses_path_escapes() {
    let root = "/repo";
    assert!(validate_rel_path(root, "src/main.rs").is_ok());
    assert!(validate_rel_path(root, "../../etc/passwd").is_err());
    assert!(validate_rel_path(root, ".git/hooks/pre-commit").is_err());
}

#[test]
fn refusal_names_path_and_root() {
    let err = validate_rel_path("/repo", "../x").unwrap_err();
    assert_eq!(
        err,
        RewindError::PathEscapesRoot { path: "../x".to_string(), root: "/repo".to_string() }
    );
    assert_eq!(err.message(), "path ../x escapes the repository root /repo");
}

#[test]
fn safe_paths_lie_below_the_root() {
    assert_eq!(safe_join("/repo", "a/b.txt").unwrap(), "/repo/a/b.txt");
    assert!(safe_join("/repo", "a/../b").is_err());
    assert!(safe_join("/repo", "a/.git/b").is_err());
}

#[test]
fn plan_and_apply_roundtrip() {
    // State A: two files.
    let a = tree(&[("keep.txt", "original"), ("gone.txt", "temporary")]);
    // Mutate: change keep, delete gone, add extra.
    let mut now = tree(&[("keep.txt", "modified"), ("extra.txt", "new")]);

    let p = plan_for(&a, &now, &Selection::All);
    assert_eq!(p.overwrite.len(), 1, "keep.txt overwritten");
    assert_eq!(p.create.len(), 1, "gone.txt re-created");
    assert_eq!(p.delete.len(), 1, "extra.txt deleted");
    assert_eq!(p.total_changes(), 3);

    let (written, deleted) = carry_out(&mut now, &p);
    assert_eq!(written, 2);
    assert_eq!(deleted, 1);

    assert_eq!(now["/repo/keep.txt"], "original");
    assert_eq!(now["/repo/gone.txt"], "temporary");
    assert!(!now.contains_key("/repo/extra.txt"));
}

#[test]
fn selected_file_restore_only_touches_that_file() {
    let then = tree(&[("a.txt", "a1"), ("b.txt", "b1")]);
    let mut now = tree(&[("a.txt", "a2"), ("b.txt", "b2")]);
    let sel = Selection::from_paths(vec!["a.txt".to_string()]);
    let p = plan_for(&then, &now, &sel);
    carry_out(&mut now, &p);
    assert_eq!(now["/repo/a.txt"], "a1", "a restored");
    assert_eq!(now["/repo/b.txt"], "b2", "b untouched");
}

#[test]
fn undoing_brings_the_tree_back() {
    let then = tree(&[("a", "1"), ("b", "2")]);
    let before = tree(&[("b", "3"), ("c", "4")]);
    let mut now = before.clone();
    carry_out(&mut now, &plan_for(&then, &before, &Selection::All));
    assert_eq!(now, then);
    let back = plan_for(&before, &now, &Selection::All);
    carry_out(&mut now, &back);
    assert_eq!(now, before);
}

#[test]
fn undoing_a_selected_restore_brings_the_tree_back() {
    let then = tree(&[("a", "1"), ("b", "2"), ("d", "5")]);
    let before = tree(&[("b", "3"), ("c", "4"), ("d", "6")]);
    let mut now = before.clone();
    let sel = Selection::from_paths(vec!["a".to_string(), "b".to_string(), "c".to_string()]);
    carry_out(&mut now, &plan_for(&then, &before, &sel));
    assert_eq!(now, tree(&[("a", "1"), ("b", "2"), ("d", "6")]));
    let back = plan_for(&before, &now, &Selection::All);
    carry_out(&mut now, &back);
    assert_eq!(now, before);
}

#[test]
fn undoing_over_an_unsafe_path_is_refused() {
    let then = tree(&[("a", "1"), ("sub/.git", "2")]);
    let before = tree(&[("a", "3"), ("sub/.git", "2")]);
    let mut now = before.clone();
    let sel = Selection::from_paths(vec!["a".to_string()]);
    carry_out(&mut now, &plan_for(&then, &before, &sel));
    let safety = manifest_map(&files(&before));
    let err = plan(2, Some(&safety), &current_manifest(&files(&now)), "/repo", &Selection::All)
        .unwrap_err();
    assert_eq!(err.message(), "path sub/.git escapes the repository root /repo");
}

#[test]
fn nothing_to_restore_in_an_equal_tree() {
    let t = tree(&[("a", "1")]);
    let p = plan_for(&t, &t, &Selection::All);
    assert!(p.is_empty());
    assert_eq!(p.total_changes(), 0);
}

#[test]
fn file_already_gone_is_not_counted() {
    let then = tree(&[]);
    let now = tree(&[("a", "1"), ("b", "2")]);
    let p = plan_for(&then, &now, &Selection::All);
    let mut other = tree(&[("a", "1")]);
    assert_eq!(carry_out(&mut other, &p), (0, 1));
}

#[test]
fn missing_snapshot_cannot_be_restored() {
    let err = plan(9, None, &manifest_map(&Vec::new()), "/repo", &Selection::All).unwrap_err();
    assert_eq!(err.message(), "snapshot 9 not found");
}

#[test]
fn plan_refuses_unsafe_paths() {
    let target = manifest_map(&vec![sf("../evil", "1")]);
    let none = manifest_map(&Vec::new());
    let err = plan(1, Some(&target), &none, "/repo", &Selection::All).unwrap_err();
    assert!(matches!(err, RewindError::PathEscapesRoot { .. }));
}

#[test]
fn tampered_plan_is_refused_before_anything_is_written() {
    let good = PlanEntry { path: "a".to_string(), hash: "1".to_string(), size: 1, mode: 0 };
    let p = RestorePlan {
        snapshot_id: 1,
        create: vec![good],
        overwrite: Vec::new(),
        delete: vec![".git/HEAD".to_string()],
    };
    let err = match apply("/repo", &p) {
        Ok(_) => panic!("not refused"),
        Err(e) => e,
    };
    assert!(matches!(err, RewindError::PathEscapesRoot { .. }));
}

#[test]
fn modes_are_set_unless_unknown() {
    assert_eq!(mode_to_set(0), None);
    assert_eq!(mode_to_set(0o755), Some(0o755));
}

#[test]
fn selections_and_their_scopes() {
    assert_eq!(scope(&Selection::All), "full");
    assert_eq!(scope(&Selection::from_paths(Vec::new())), "full");
    assert_eq!(scope(&Selection::from_paths(vec!["a".to_string()])), "single");
    let two = vec!["a".to_string(), "b".to_string()];
    assert_eq!(scope(&Selection::from_paths(two)), "selected");
}

#[test]
fn restore_is_recorded_with_its_safety_snapshot() {
    let request = safety_snapshot();
    assert_eq!(request.kind, "safety");
    assert_eq!(request.label, "safety before restore");
    let then = tree(&[("a", "1")]);
    let now = tree(&[("b", "2")]);
    let p = plan_for(&then, &now, &Selection::All);
    let mut restore = match SafeRestore::begin("/repo", 1, &p, 77) {
        Ok(r) => r,
        Err(_) => panic!("refused"),
    };
    while restore.next_op().is_some() {
        restore = restore.op_done(true);
    }
    let record = restore.record(&Selection::All);
    assert_eq!(record.source_snapshot_id, 1);
    assert_eq!(record.safety_snapshot_id, 77);
    assert_eq!(record.scope, "full");
    assert_eq!((record.stats.written, record.stats.deleted), (1, 1));
    let event = record.event();
    assert_eq!(event.kind, "restore");
    assert_eq!(event.summary, "restore snapshot #1: 1 written, 1 deleted");
    let outcome = record.outcome(5);
    assert_eq!(outcome.restore_id, 5);
    assert_eq!(outcome.safety_snapshot_id, 77);
}

#[test]
fn only_a_restore_that_stands_can_be_undone() {
    let mut record = Restore {
        id: 3,
        source_snapshot_id: 1,
        safety_snapshot_id: 2,
        scope: "full".to_string(),
        files_written: 0,
        files_deleted: 0,
        undone: false,
        created_at: 0,
    };
    assert_eq!(undo_target(Some(&record), 3), Ok(2));
    record.undone = true;
    let err = undo_target(Some(&record), 3).unwrap_err();
    assert_eq!(err.message(), "restore #3 was already undone");
    assert_eq!(undo_target(None, 4).unwrap_err().message(), "no restore #4");
    assert_eq!(undo_event(3).summary, "undo restore #3");
}
