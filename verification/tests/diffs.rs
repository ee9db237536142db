//! Manifests, their differences, and differences of texts.

use std::collections::BTreeMap;

use rewind::diff::{
    change_stat, changed_new_lines, count_changes, diff_manifests, diff_snapshots, line_stat,
    line_stat_text, load_text, number_inserted, unified_diff, unified_diff_text, ChangeStatus,
    FileChange, LineChange, LineStat, LineTag,
};
use rewind::models::SnapshotFile;
use rewind::objects::Loaded;
use rewind::repo::GitState;
use rewind::snapshot::{event_summary, manifest_map, Manifest, SnapshotBuilder};

fn sf(path: &str, hash: &str, size: i64) -> SnapshotFile {
    SnapshotFile { path: path.to_string(), hash: hash.to_string(), size, mode: 0o644 }
}

fn map(items: &[SnapshotFile]) -> Manifest {
    manifest_map(&items.to_vec())
}

fn loaded(items: &[(&str, &[u8])]) -> Loaded {
    let mut m = Loaded::new();
    for (h, b) in items {
        m.insert(h.to_string(), b.to_vec());
    }
    m
}

fn letters(changes: &[FileChange]) -> Vec<(char, String)> {
    changes.iter().map(|c| (c.letter(), c.path.clone())).collect()
}

#[test]
fn detects_add_modify_delete() {
    let old = map(&[sf("keep.txt", "h1", 1), sf("gone.txt", "h2", 2)]);
    let new = map(&[sf("keep.txt", "h1b", 3), sf("added.txt", "h3", 4)]);
    let changes = diff_manifests(&old, &new);
    let by_path: BTreeMap<_, _> = changes.iter().map(|c| (c.path.as_str(), c)).collect();
    assert_eq!(by_path["added.txt"].status, ChangeStatus::Added);
    assert_eq!(by_path["keep.txt"].status, ChangeStatus::Modified);
    assert_eq!(by_path["gone.txt"].status, ChangeStatus::Deleted);
}

#[test]
fn detects_rename() {
    let old = map(&[sf("old/name.rs", "same", 10)]);
    let new = map(&[sf("new/name.rs", "same", 10)]);
    let changes = diff_manifests(&old, &new);
    assert_eq!(changes.len(), 1);
    assert_eq!(changes[0].status, ChangeStatus::Renamed { from: "old/name.rs".to_string() });
    assert_eq!(changes[0].path, "new/name.rs");
}

#[test]
fn swapped_sides_give_the_reversed_diff() {
    let old = map(&[
        sf("gone", "1", 1),
        sf("here", "2", 1),
        sf("from/a", "3", 1),
        sf("from/b", "3", 1),
        sf("from/c", "3", 1),
    ]);
    let new = map(&[sf("here", "4", 1), sf("new", "5", 1), sf("to/a", "3", 1), sf("to/b", "3", 1)]);
    let paths = |changes: &[FileChange], letter: char| -> Vec<String> {
        changes.iter().filter(|c| c.letter() == letter).map(|c| c.path.clone()).collect()
    };
    let fwd = diff_manifests(&old, &new);
    let bwd = diff_manifests(&new, &old);
    assert_eq!(paths(&fwd, 'M'), ["here"]);
    assert_eq!(paths(&bwd, 'M'), ["here"]);
    assert_eq!(paths(&fwd, 'A'), ["new"]);
    assert_eq!(paths(&bwd, 'D'), ["new"]);
    assert_eq!(paths(&fwd, 'D'), ["from/c", "gone"]);
    assert_eq!(paths(&bwd, 'A'), ["from/c", "gone"]);
    assert_eq!(paths(&fwd, 'R'), ["to/a", "to/b"]);
    assert_eq!(paths(&bwd, 'R'), ["from/a", "from/b"]);
    for c in &fwd {
        if let ChangeStatus::Renamed { from } = &c.status {
            let back = bwd.iter().find(|b| b.path == *from).unwrap();
            assert_eq!(back.status, ChangeStatus::Renamed { from: c.path.clone() });
        }
    }
}

#[test]
fn changes_come_in_the_order_of_paths() {
    let old = vec![sf("z", "1", 1), sf("m", "2", 1)];
    let new = vec![sf("m", "3", 1), sf("a", "4", 1)];
    let changes = diff_snapshots(&old, &new);
    assert_eq!(
        letters(&changes),
        vec![('A', "a".to_string()), ('M', "m".to_string()), ('D', "z".to_string())]
    );
    assert_eq!(changes[0].old_hash, None);
    assert_eq!(changes[0].new_hash, Some("4".to_string()));
    assert_eq!(changes[1].old_hash, Some("2".to_string()));
    assert_eq!(changes[2].new_hash, None);
}

#[test]
fn equal_manifests_do_not_differ() {
    let a = vec![sf("a", "1", 1), sf("b", "2", 2)];
    assert!(diff_snapshots(&a, &a).is_empty());
    // Only the content tells whether a file was modified.
    let mut b = a.clone();
    b[0].mode = 0o755;
    b[1].size = 9;
    assert!(diff_snapshots(&a, &b).is_empty());
}

#[test]
fn renames_pair_files_of_the_same_content_in_order() {
    let old = vec![sf("a1", "h", 1), sf("a2", "h", 1), sf("a3", "g", 1)];
    let new = vec![sf("b1", "h", 1), sf("b2", "h", 1), sf("b3", "h", 1)];
    let changes = diff_snapshots(&old, &new);
    let told: Vec<(String, ChangeStatus)> =
        changes.into_iter().map(|c| (c.path, c.status)).collect();
    assert_eq!(
        told,
        vec![
            ("a3".to_string(), ChangeStatus::Deleted),
            ("b1".to_string(), ChangeStatus::Renamed { from: "a1".to_string() }),
            ("b2".to_string(), ChangeStatus::Renamed { from: "a2".to_string() }),
            ("b3".to_string(), ChangeStatus::Added),
        ]
    );
}

#[test]
fn replayed_changes_give_the_new_manifest() {
    let old = vec![sf("a", "1", 1), sf("b", "2", 1), sf("c", "3", 1)];
    let new = vec![sf("b", "9", 1), sf("d", "3", 1), sf("e", "5", 1)];
    let mut tree: BTreeMap<String, String> =
        old.iter().map(|f| (f.path.clone(), f.hash.clone())).collect();
    for c in diff_snapshots(&old, &new) {
        match c.status {
            ChangeStatus::Deleted => {
                tree.remove(&c.path);
            }
            ChangeStatus::Renamed { from } => {
                tree.remove(&from);
                tree.insert(c.path, c.new_hash.unwrap());
            }
            _ => {
                tree.insert(c.path, c.new_hash.unwrap());
            }
        }
    }
    let want: BTreeMap<String, String> =
        new.iter().map(|f| (f.path.clone(), f.hash.clone())).collect();
    assert_eq!(tree, want);
}

#[test]
fn manifest_keeps_the_last_file_of_a_path() {
    let m = map(&[sf("b", "1", 1), sf("a", "2", 2), sf("b", "3", 3)]);
    assert_eq!(m.len(), 2);
    assert_eq!(m.file_at(0).path, "a");
    assert_eq!(m.get("b").unwrap().hash, "3");
    assert!(m.contains("a"));
    assert!(m.get("c").is_none());
}

#[test]
fn line_stats_count_changes() {
    let stat = line_stat_text("a\nb\nc\n", "a\nB\nc\nd\n");
    assert_eq!(stat.added, 2); // "B" and "d"
    assert_eq!(stat.removed, 1); // "b"
}

#[test]
fn unified_diff_has_headers() {
    let d = unified_diff_text("x.txt", "one\n", "two\n");
    assert!(d.contains("a/x.txt"));
    assert!(d.contains("b/x.txt"));
    assert!(d.contains("-one"));
    assert!(d.contains("+two"));
}

#[test]
fn unified_diff_is_exact() {
    let d = unified_diff_text("x.txt", "one\n", "two\n");
    assert_eq!(d, "--- a/x.txt\n+++ b/x.txt\n@@ -1 +1 @@\n-one\n+two\n");
    assert_eq!(unified_diff_text("x.txt", "same\n", "same\n"), "");
}

#[test]
fn counts_and_numbers_of_line_changes() {
    let changes = vec![
        LineChange { tag: LineTag::Equal, new_index: Some(0) },
        LineChange { tag: LineTag::Delete, new_index: None },
        LineChange { tag: LineTag::Insert, new_index: Some(1) },
        LineChange { tag: LineTag::Insert, new_index: Some(4) },
        LineChange { tag: LineTag::Insert, new_index: None },
    ];
    assert_eq!(count_changes(&changes), LineStat { added: 3, removed: 1 });
    assert_eq!(number_inserted(&changes), vec![2, 5]);
}

#[test]
fn line_stat_of_stored_versions() {
    let o = loaded(&[("h1", b"a\nb\n"), ("h2", b"a\nc\nd\n"), ("bin", b"a\0b"), ("e", b"")]);
    assert_eq!(line_stat(&o, Some("h1"), Some("h2")), Some(LineStat { added: 2, removed: 1 }));
    assert_eq!(line_stat(&o, None, Some("h1")), Some(LineStat { added: 2, removed: 0 }));
    assert_eq!(line_stat(&o, Some("h1"), None), Some(LineStat { added: 0, removed: 2 }));
    assert_eq!(line_stat(&o, Some("h1"), Some("bin")), None);
    assert_eq!(line_stat(&o, Some("h1"), Some("missing")), None);
    assert_eq!(line_stat(&o, None, None), None);
    assert_eq!(line_stat(&o, Some("e"), None), None);
    let change = FileChange {
        path: "p".to_string(),
        status: ChangeStatus::Modified,
        old_hash: Some("h1".to_string()),
        new_hash: Some("bin".to_string()),
        old_size: 4,
        new_size: 3,
    };
    assert_eq!(change_stat(&o, &change), LineStat { added: 0, removed: 0 });
}

#[test]
fn changed_lines_of_stored_versions() {
    let o = loaded(&[("h1", b"a\nb\nc\n"), ("h2", b"a\nB\nc\nd\n"), ("bin", &[0xff, 0xfe])]);
    assert_eq!(changed_new_lines(&o, Some("h1"), Some("h2")), vec![2, 4]);
    assert_eq!(changed_new_lines(&o, None, Some("h1")), vec![1, 2, 3]);
    assert!(changed_new_lines(&o, Some("h1"), Some("bin")).is_empty());
    assert!(changed_new_lines(&o, Some("h1"), Some("missing")).is_empty());
    let ends = loaded(&[("cr", b"a\rb\r\nc\n\nd"), ("lf", b"c\n")]);
    assert_eq!(changed_new_lines(&ends, None, Some("cr")), vec![1, 2, 3, 4, 5]);
    assert_eq!(changed_new_lines(&ends, Some("lf"), Some("cr")), vec![1, 2, 4, 5]);
}

#[test]
fn diff_of_stored_versions() {
    let o = loaded(&[("h1", b"one\n"), ("h2", b"two\n"), ("bin", b"\0")]);
    assert_eq!(
        unified_diff(&o, "x.txt", Some("h1"), Some("h2")),
        Some(unified_diff_text("x.txt", "one\n", "two\n"))
    );
    assert_eq!(
        unified_diff(&o, "x.txt", None, Some("h2")),
        Some(unified_diff_text("x.txt", "", "two\n"))
    );
    assert_eq!(unified_diff(&o, "x.txt", Some("bin"), Some("h2")), None);
}

#[test]
fn text_of_an_object() {
    let o = loaded(&[("t", "héllo".as_bytes()), ("nul", b"a\0"), ("bad", &[0xc3, 0x28])]);
    assert_eq!(load_text(&o, "t"), Some("héllo".to_string()));
    assert_eq!(load_text(&o, "nul"), None);
    assert_eq!(load_text(&o, "bad"), None);
    assert_eq!(load_text(&o, "missing"), None);
}

#[test]
fn snapshot_records_manifest_and_dedups() {
    let hash = rewind::objects::hash_bytes(b"same");
    let b = SnapshotBuilder::new()
        .stored("a.txt", hash.clone(), 4, 0o644)
        .stored("b.txt", hash, 4, 0o644);
    let git = GitState { branch: Some("main".to_string()), head: None, dirty: true };
    let header = b.header(1, None, None, rewind::models::snapshot_kind::MANUAL, "first", 5, &git);
    assert_eq!(header.file_count, 2);
    assert_eq!(header.total_bytes, 8);
    assert_eq!(header.kind, "manual");
    assert_eq!(header.label, "first");
    assert_eq!(header.git_branch, Some("main".to_string()));
    assert!(header.git_dirty);
    let manifest = manifest_map(&b.into_files());
    // Identical content => identical hash => single object.
    assert_eq!(manifest.get("a.txt").unwrap().hash, manifest.get("b.txt").unwrap().hash);
}

#[test]
fn second_snapshot_links_parent_and_reuses_objects() {
    let git = GitState { branch: None, head: None, dirty: false };
    let b2 = SnapshotBuilder::new().stored(
        "a.txt",
        rewind::objects::hash_bytes(b"two"),
        3,
        0o644,
    );
    let s2 = b2.header(1, None, Some(17), rewind::models::snapshot_kind::MANUAL, "s2", 5, &git);
    assert_eq!(s2.parent_id, Some(17));
    let m1 = map(&[sf("a.txt", &rewind::objects::hash_bytes(b"one"), 3)]);
    let m2 = manifest_map(&b2.into_files());
    assert_ne!(m1.get("a.txt").unwrap().hash, m2.get("a.txt").unwrap().hash);
}

#[test]
fn summary_of_a_snapshot_event() {
    assert_eq!(event_summary("first", 2), "snapshot first (2 files)");
}
