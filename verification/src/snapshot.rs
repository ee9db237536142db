//! Snapshots: manifests that map every tracked path to the content it had.

use vstd::prelude::*;

use crate::models::FileView;
use crate::models::NewSnapshot;
use crate::models::SnapshotFile;
use crate::repo::GitState;
use crate::text;
use crate::text_map;
use crate::text_map::TextMap;

verus! {

/// The files of a snapshot by path.
#[derive(Debug)]
pub struct Manifest {
    files: TextMap<SnapshotFile>,
}

spec fn paths_match(files: Map<Seq<char>, SnapshotFile>) -> bool {
    forall|p: Seq<char>| #[trigger] files.contains_key(p) ==> files[p].path@ == p
}

impl View for Manifest {
    type V = Map<Seq<char>, FileView>;

    closed spec fn view(&self) -> Map<Seq<char>, FileView> {
        self.files@.map_values(|f: SnapshotFile| f@)
    }
}

/// Every path of the map is the path of its file.
pub open spec fn keyed_by_path(files: Map<Seq<char>, FileView>) -> bool {
    forall|p: Seq<char>| #[trigger] files.contains_key(p) ==> files[p].path == p
}

/// The files by path. Where a path occurs more than once, its last file counts.
pub open spec fn by_path(files: Seq<FileView>) -> Map<Seq<char>, FileView>
    decreases files.len(),
{
    if files.len() == 0 {
        Map::empty()
    } else {
        by_path(files.drop_last()).insert(files.last().path, files.last())
    }
}

/// The views of a list of files.
pub open spec fn file_views(files: Seq<SnapshotFile>) -> Seq<FileView> {
    Seq::new(files.len(), |i: int| files[i]@)
}

impl Manifest {
    /// The paths in order.
    pub closed spec fn paths(self) -> Seq<Seq<char>> {
        self.files.keys()
    }

    #[verifier::type_invariant]
    spec fn inv(self) -> bool {
        paths_match(self.files@)
    }

    /// How many files there are. The paths are in order, they are the keys of
    /// the manifest, and each is the path of its file.
    pub fn len(&self) -> (n: usize)
        ensures
            n == self.paths().len(),
            n == self@.dom().len(),
            self@.dom().finite(),
            text_map::ordered(self.paths()),
            forall|p: Seq<char>| #[trigger] self@.contains_key(p) == self.paths().contains(p),
            keyed_by_path(self@),
    {
        proof {
            use_type_invariant(self);
            assert(self@.dom() =~= self.files@.dom());
        }
        self.files.len()
    }

    /// The file at position `i` of the order.
    pub fn file_at(&self, i: usize) -> (r: &SnapshotFile)
        requires
            i < self.paths().len(),
        ensures
            self@.contains_key(self.paths()[i as int]),
            r@ == self@[self.paths()[i as int]],
            r.path@ == self.paths()[i as int],
    {
        proof {
            use_type_invariant(self);
        }
        self.files.value_at(i)
    }

    /// The file at `path`, if there is one.
    pub fn get(&self, path: &str) -> (r: Option<&SnapshotFile>)
        ensures
            match r {
                Some(f) => self@.contains_key(path@) && f@ == self@[path@] && f.path@ == path@,
                None => !self@.contains_key(path@),
            },
    {
        proof {
            use_type_invariant(self);
        }
        self.files.get(path)
    }

    /// Whether there is a file at `path`.
    pub fn contains(&self, path: &str) -> (r: bool)
        ensures
            r == self@.contains_key(path@),
    {
        self.files.contains_key(path)
    }
}

/// The manifest of the stored `files` of a snapshot.
pub fn manifest_map(files: &Vec<SnapshotFile>) -> (r: Manifest)
    ensures
        r@ == by_path(file_views(files@)),
{
    let mut map: TextMap<SnapshotFile> = TextMap::new();
    let mut i: usize = 0;
    proof {
        assert(file_views(files@).take(0) =~= Seq::<FileView>::empty());
        assert(map@.map_values(|f: SnapshotFile| f@) =~= Map::<Seq<char>, FileView>::empty());
    }
    while i < files.len()
        invariant
            i <= files@.len(),
            paths_match(map@),
            map@.map_values(|f: SnapshotFile| f@) == by_path(file_views(files@).take(i as int)),
        decreases files@.len() - i,
    {
        let ghost before = map@;
        let f = files[i].clone();
        let key = f.path.clone();
        map.insert(key, f);
        proof {
            let views = file_views(files@);
            assert(views.take(i + 1).drop_last() =~= views.take(i as int));
            assert(views.take(i + 1).last() == files@[i as int]@);
            assert(map@.map_values(|f: SnapshotFile| f@) =~= before.map_values(
                |f: SnapshotFile| f@,
            ).insert(f@.path, f@));
        }
        i += 1;
    }
    proof {
        assert(file_views(files@).take(i as int) =~= file_views(files@));
    }
    Manifest { files: map }
}

// ---------------------------------------------------------------------------
// Taking a snapshot
// ---------------------------------------------------------------------------

/// The sum of the sizes of files.
pub open spec fn total_size(files: Seq<FileView>) -> int
    decreases files.len(),
{
    if files.len() == 0 {
        0
    } else {
        total_size(files.drop_last()) + files.last().size
    }
}

/// A snapshot in the making: the files stored so far.
pub struct SnapshotBuilder {
    files: Vec<SnapshotFile>,
    total_bytes: i64,
}

impl SnapshotBuilder {
    /// The files stored so far, in order.
    pub closed spec fn files(self) -> Seq<FileView> {
        file_views(self.files@)
    }

    #[verifier::type_invariant]
    spec fn inv(self) -> bool {
        &&& self.total_bytes == total_size(file_views(self.files@))
        &&& 0 <= self.total_bytes
    }

    /// No files yet.
    pub fn new() -> (r: SnapshotBuilder)
        ensures
            r.files() == Seq::<FileView>::empty(),
    {
        let r = SnapshotBuilder { files: Vec::new(), total_bytes: 0 };
        proof {
            assert(file_views(r.files@) =~= Seq::<FileView>::empty());
        }
        r
    }

    /// The snapshot with one more file, whose content has been stored.
    pub fn stored(self, path: &str, hash: String, size: u64, mode: u32) -> (r: SnapshotBuilder)
        requires
            total_size(self.files()) + size <= i64::MAX,
        ensures
            r.files() == self.files().push(
                FileView { path: path@, hash: hash@, size: size as i64, mode },
            ),
            total_size(r.files()) == total_size(self.files()) + size,
    {
        proof {
            use_type_invariant(&self);
        }
        let SnapshotBuilder { mut files, total_bytes } = self;
        let ghost before = file_views(files@);
        files.push(SnapshotFile { path: path.to_string(), hash, size: size as i64, mode });
        proof {
            let f = FileView { path: path@, hash: hash@, size: size as i64, mode };
            assert(file_views(files@) =~= before.push(f));
            assert(before.push(f).drop_last() =~= before);
        }
        SnapshotBuilder { files, total_bytes: total_bytes + size as i64 }
    }

    /// The header of the snapshot. Its parent is the snapshot before it, and
    /// it counts the files and their bytes.
    pub fn header(
        &self,
        repo_id: i64,
        session_id: Option<i64>,
        parent_id: Option<i64>,
        kind: &str,
        label: &str,
        created_at: i64,
        git: &GitState,
    ) -> (r: NewSnapshot)
        requires
            self.files().len() <= i64::MAX,
        ensures
            r.repo_id == repo_id,
            r.session_id == session_id,
            r.parent_id == parent_id,
            r.kind@ == kind@,
            r.label@ == label@,
            r.created_at == created_at,
            text::opt_text(r.git_branch) == text::opt_text(git.branch),
            text::opt_text(r.git_head) == text::opt_text(git.head),
            r.git_dirty == git.dirty,
            r.file_count == self.files().len(),
            r.total_bytes == total_size(self.files()),
    {
        proof {
            use_type_invariant(self);
        }
        NewSnapshot {
            repo_id,
            session_id,
            parent_id,
            kind: kind.to_string(),
            label: label.to_string(),
            created_at,
            git_branch: text::copy_opt(&git.branch),
            git_head: text::copy_opt(&git.head),
            git_dirty: git.dirty,
            file_count: self.files.len() as i64,
            total_bytes: self.total_bytes,
        }
    }

    /// The files to be recorded with the header.
    pub fn into_files(self) -> (r: Vec<SnapshotFile>)
        ensures
            file_views(r@) == self.files(),
    {
        self.files
    }
}

/// How a snapshot is told in the timeline.
pub fn event_summary(label: &str, file_count: i64) -> (r: String)
    ensures
        r@ == "snapshot "@ + label@ + " ("@ + text::dec_signed(file_count as int) + " files)"@,
{
    let mut r = "snapshot ".to_string();
    r.append(label);
    r.append(" (");
    let n = text::show_signed(file_count);
    r.append(n.as_str());
    r.append(" files)");
    r
}

proof fn lemma_by_path_has(files: Seq<FileView>, i: int)
    requires
        0 <= i < files.len(),
        forall|j: int| i < j < files.len() ==> (#[trigger] files[j]).path != files[i].path,
    ensures
        by_path(files).contains_key(files[i].path),
        by_path(files)[files[i].path] == files[i],
    decreases files.len(),
{
    if i < files.len() - 1 {
        let front = files.drop_last();
        assert forall|j: int| i < j < front.len() implies (#[trigger] front[j]).path
            != front[i].path by {
            assert(files[j].path != files[i].path);
        }
        lemma_by_path_has(front, i);
        assert(files[files.len() - 1].path != files[i].path);
    }
}

/// A snapshot of files with different paths records each of them as it was.
pub proof fn lemma_snapshot_keeps_files(files: Seq<FileView>, i: int)
    requires
        0 <= i < files.len(),
        forall|a: int, b: int|
            0 <= a < b < files.len() ==> (#[trigger] files[a]).path != (#[trigger] files[b]).path,
    ensures
        by_path(files).contains_key(files[i].path),
        by_path(files)[files[i].path] == files[i],
{
    assert forall|j: int| i < j < files.len() implies (#[trigger] files[j]).path
        != files[i].path by {
        assert(files[i].path != files[j].path);
    }
    lemma_by_path_has(files, i);
}

/// A snapshot records nothing but the files that were stored, and of two files
/// with one path the later.
pub proof fn lemma_snapshot_holds_only_files(files: Seq<FileView>, p: Seq<char>) -> (i: int)
    requires
        by_path(files).contains_key(p),
    ensures
        0 <= i < files.len(),
        files[i].path == p,
        by_path(files)[p] == files[i],
        forall|j: int| i < j < files.len() ==> (#[trigger] files[j]).path != p,
    decreases files.len(),
{
    if files.last().path == p {
        files.len() - 1
    } else {
        let i = lemma_snapshot_holds_only_files(files.drop_last(), p);
        assert forall|j: int| i < j < files.len() implies (#[trigger] files[j]).path != p by {
            if j < files.len() - 1 {
                assert(files.drop_last()[j].path != p);
            }
        }
        i
    }
}

/// The bytes of files add up, file by file.
pub proof fn lemma_sizes_add_up(a: Seq<FileView>, b: Seq<FileView>)
    ensures
        total_size(a + b) == total_size(a) + total_size(b),
        a.len() == 0 ==> total_size(a) == 0,
        a.len() == 1 ==> total_size(a) == a[0].size,
    decreases b.len(),
{
    if a.len() == 1 {
        assert(a.drop_last() =~= Seq::<FileView>::empty());
        assert(total_size(a.drop_last()) == 0);
    }
    if b.len() == 0 {
        assert(a + b =~= a);
    } else {
        assert((a + b).drop_last() =~= a + b.drop_last());
        assert((a + b).last() == b.last());
        lemma_sizes_add_up(a, b.drop_last());
    }
}

} // verus!
