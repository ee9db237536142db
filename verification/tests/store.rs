//! The object store and atomic writes, on a disk in memory.

use std::collections::BTreeMap;

use rewind::error::RewindError;
use rewind::objects::{hash_bytes, unique_suffix, HashStream, ObjectStore, ReadOutcome};
use rewind::paths::{parts, repo_hash, PathPart, StoragePaths};
use rewind::restore::{safe_join, write_file};
use rewind::write_job::{Outcome, Step, WriteJob};

/// A disk on which every step works, but for the steps named in `failing`.
struct Disk {
    files: BTreeMap<String, Vec<u8>>,
    failing: Vec<&'static str>,
    appears_on_failed_rename: bool,
}

impl Disk {
    fn new() -> Disk {
        Disk { files: BTreeMap::new(), failing: Vec::new(), appears_on_failed_rename: false }
    }

    fn step(&mut self, job: &WriteJob, data: &[u8]) -> Outcome {
        let name = match &job.step {
            Step::Probe => "probe",
            Step::MakeDir => "mkdir",
            Step::WriteTemp => "write",
            Step::Rename => "rename",
            Step::ProbeAgain(_) => "probe again",
            Step::Discard(_) => "discard",
            _ => "over",
        };
        let fails = self.failing.contains(&name);
        match &job.step {
            Step::Probe | Step::ProbeAgain(_) => {
                Outcome::Present(self.files.contains_key(&job.target))
            }
            Step::WriteTemp => {
                self.files.insert(job.temp.clone(), data.to_vec());
                if fails {
                    return Outcome::Failed("no space".to_string());
                }
                Outcome::Finished
            }
            Step::Rename if fails => {
                if self.appears_on_failed_rename {
                    self.files.insert(job.target.clone(), data.to_vec());
                }
                Outcome::Failed("busy".to_string())
            }
            Step::Rename => {
                let bytes = self.files.remove(&job.temp).unwrap();
                self.files.insert(job.target.clone(), bytes);
                Outcome::Finished
            }
            Step::Discard(_) => {
                self.files.remove(&job.temp);
                Outcome::Finished
            }
            _ if fails => Outcome::Failed("denied".to_string()),
            _ => Outcome::Finished,
        }
    }

    fn run(&mut self, mut job: WriteJob, data: &[u8]) -> Result<(), RewindError> {
        loop {
            if let Some(r) = job.result() {
                return r;
            }
            let outcome = self.step(&job, data);
            job = job.advance(outcome);
        }
    }

    fn read(&self, path: &str) -> ReadOutcome {
        match self.files.get(path) {
            Some(b) => ReadOutcome::Bytes(b.clone()),
            None => ReadOutcome::NotFound,
        }
    }
}

fn put(disk: &mut Disk, store: &ObjectStore, data: &[u8], unique: &str) -> String {
    let (hash, job) = store.write_bytes(data, unique);
    disk.run(job, data).unwrap();
    hash
}

#[test]
fn same_content_same_hash() {
    assert_eq!(hash_bytes(b"hello"), hash_bytes(b"hello"));
    assert_ne!(hash_bytes(b"hello"), hash_bytes(b"world"));
}

#[test]
fn hash_is_the_blake3_of_the_content() {
    assert_eq!(
        hash_bytes(b""),
        "af1349b9f5f9a1a6a0404dea36dcc9499bcb25c9adc112b7cc9a93cae41f3262"
    );
    assert_eq!(hash_bytes(b"abc"), blake3::hash(b"abc").to_hex().to_string());
}

#[test]
fn write_then_read_roundtrips() {
    let mut disk = Disk::new();
    let store = ObjectStore::new("/data/objects");
    let h = put(&mut disk, &store, b"content", "u");
    let at = store.path_for(&h);
    assert!(disk.files.contains_key(&at));
    assert_eq!(store.read(&h, disk.read(&at)).unwrap(), b"content");
}

#[test]
fn dedup_does_not_duplicate() {
    let mut disk = Disk::new();
    let store = ObjectStore::new("/data/objects");
    let h1 = put(&mut disk, &store, b"dup", "u1");
    let h2 = put(&mut disk, &store, b"dup", "u2");
    assert_eq!(h1, h2);
    // Only one object file for identical content.
    let path = store.path_for(&h1);
    assert!(disk.files.contains_key(&path));
    assert_eq!(disk.files.len(), 1);
}

#[test]
fn hash_file_matches_hash_bytes() {
    let stream = HashStream::new().absorb(b"streamed ").absorb(b"content").absorb(b" here");
    let (fh, len) = stream.finish();
    assert_eq!(fh, hash_bytes(b"streamed content here"));
    assert_eq!(len, 21);
}

#[test]
fn hash_of_no_chunks() {
    let (h, len) = HashStream::new().finish();
    assert_eq!(h, hash_bytes(b""));
    assert_eq!(len, 0);
}

#[test]
fn missing_object_errors() {
    let store = ObjectStore::new("/data/objects");
    let err = store.read("00deadbeef", ReadOutcome::NotFound).unwrap_err();
    assert!(matches!(err, RewindError::ObjectMissing(_)));
    assert_eq!(err.message(), "object 00deadbeef not found in the content store");
}

#[test]
fn unreadable_object_errors() {
    let store = ObjectStore::new("/data/objects");
    let err = store.read("00deadbeef", ReadOutcome::Failed("denied".to_string())).unwrap_err();
    assert_eq!(err, RewindError::Io("denied".to_string()));
}

#[test]
fn failed_write_leaves_no_object() {
    let store = ObjectStore::new("/data/objects");
    for what in ["mkdir", "write", "rename"] {
        let mut disk = Disk::new();
        disk.failing.push(what);
        let (h, job) = store.write_bytes(b"x", "u");
        let temp = job.temp.clone();
        assert!(matches!(disk.run(job, b"x"), Err(RewindError::Io(_))), "{what}");
        assert!(!disk.files.contains_key(&store.path_for(&h)), "{what}");
        // What could not be written whole stays where no object lies.
        assert_eq!(disk.files.contains_key(&temp), what == "write", "{what}");
    }
}

#[test]
fn object_of_another_process_is_kept() {
    let store = ObjectStore::new("/data/objects");
    let mut disk = Disk::new();
    disk.failing.push("rename");
    disk.appears_on_failed_rename = true;
    let (h, job) = store.write_bytes(b"x", "u");
    assert!(disk.run(job, b"x").is_ok());
    assert_eq!(disk.files.len(), 1);
    assert!(disk.files.contains_key(&store.path_for(&h)));
}

#[test]
fn objects_lie_in_shards() {
    let store = ObjectStore::new("/data/objects");
    assert_eq!(store.root(), "/data/objects");
    assert_eq!(store.path_for("abcdef0123"), "/data/objects/ab/cdef0123");
    let (h, job) = store.write_bytes(b"abc", "7f");
    assert_eq!(job.target, format!("/data/objects/{}/{}", &h[..2], &h[2..]));
    assert_eq!(job.dir, format!("/data/objects/{}", &h[..2]));
    assert!(job.temp.starts_with(&job.dir));
    assert_ne!(job.temp, job.target);
}

#[test]
fn suffixes_hold_process_time_and_count() {
    assert_eq!(unique_suffix(77, 0x1234, 0xab), "77-1234ab");
    assert_eq!(unique_suffix(0, 0, 0), "0-00");
}

#[test]
fn restored_file_replaces_the_old_one() {
    let mut disk = Disk::new();
    disk.files.insert("/repo/a.txt".to_string(), b"old".to_vec());
    let job = write_file("/repo/a.txt", 42).unwrap();
    assert_eq!(job.temp, "/repo/.rewind-tmp-42");
    disk.run(job, b"new").unwrap();
    assert_eq!(disk.files["/repo/a.txt"], b"new");
    assert_eq!(disk.files.len(), 1);
}

#[test]
fn writes_of_a_restore_stay_below_the_root() {
    for (root, rel, dir) in [
        ("/repo", "a.txt", "/repo"),
        ("/repo/", "d/e/f", "/repo/d/e"),
        ("/", "d//f/", "/d"),
        ("./work", "d/f", "./work/d"),
        ("../work", "f", "../work"),
        ("", "d/f", "d"),
    ] {
        let at = safe_join(root, rel).unwrap();
        let job = write_file(&at, 7).unwrap();
        assert_eq!(job.dir, dir);
        for path in [&job.target, &job.dir, &job.temp] {
            let above = parts(root);
            let all = parts(path);
            assert!(above.len() <= all.len());
            assert!(all.iter().zip(&above).all(|(a, b)| a == b));
            let safe = |p: &PathPart| matches!(p, PathPart::Normal(n) if n != ".git");
            assert!(all[above.len()..].iter().all(safe));
        }
    }
}

#[test]
fn restored_file_needs_a_directory() {
    let err = write_file("", 1).unwrap_err();
    assert_eq!(err, RewindError::Other("restore path has no parent".to_string()));
}

#[test]
fn repo_hash_is_stable_and_hex() {
    let p = b"/tmp/example/repo";
    let a = repo_hash(p);
    let b = repo_hash(p);
    assert_eq!(a, b);
    assert_eq!(a.len(), 32);
    assert!(a.chars().all(|c| c.is_ascii_hexdigit()));
}

#[test]
fn repo_hash_differs_by_path() {
    assert_ne!(repo_hash(b"/a"), repo_hash(b"/b"));
}

#[test]
fn object_path_is_sharded() {
    let sp = StoragePaths {
        repo_root: "/x".to_string(),
        repo_hash: "deadbeef".to_string(),
        root: "/data/rewind/deadbeef".to_string(),
        db: "/data/rewind/deadbeef/rewind.db".to_string(),
        objects: "/data/rewind/deadbeef/objects".to_string(),
        logs: "/data/rewind/deadbeef/logs".to_string(),
    };
    let op = sp.object_path("abcdef0123");
    assert_eq!(op, "/data/rewind/deadbeef/objects/ab/cdef0123");
}

#[test]
fn storage_lies_under_the_data_directory() {
    let sp = StoragePaths::for_repo(None, Some("/home/u/.local/share"), "/src/p").unwrap();
    let hash = repo_hash(b"/src/p");
    assert_eq!(sp.repo_root, "/src/p");
    assert_eq!(sp.repo_hash, hash);
    assert_eq!(sp.root, format!("/home/u/.local/share/rewind/{hash}"));
    assert_eq!(sp.db, format!("/home/u/.local/share/rewind/{hash}/rewind.db"));
    assert_eq!(sp.objects, format!("/home/u/.local/share/rewind/{hash}/objects"));
    assert_eq!(sp.logs, format!("/home/u/.local/share/rewind/{hash}/logs"));
}

#[test]
fn data_directory_can_be_overridden() {
    let a = StoragePaths::for_repo(Some("/over"), Some("/platform"), "/src/p").unwrap();
    let b = StoragePaths::for_repo_in("/over", "/src/p");
    assert_eq!(a, b);
    assert!(StoragePaths::for_repo(None, None, "/src/p").is_err());
}
