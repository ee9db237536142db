//! Differences between snapshots.
//!
//! A manifest diff says which paths were added, modified, deleted or renamed
//! between two snapshots, where a rename is a deletion and an addition that
//! share their content. A text diff tells what changed inside one file, when
//! both of its versions are text.

use vstd::prelude::*;
use vstd::utf8::*;

use crate::models::FileView;
use crate::models::SnapshotFile;
use crate::objects;
use crate::objects::Loaded;
use crate::paths;
use crate::snapshot;
use crate::snapshot::Manifest;
use crate::text;
use crate::text_map;
use crate::text_map::TextMap;

pub mod laws;
pub mod patch;

verus! {

/// How a path changed between two snapshots.
#[derive(Debug, PartialEq, Eq)]
pub enum ChangeStatus {
    Added,
    Modified,
    Deleted,
    Renamed { from: String },
}

/// A status with its text as a sequence of characters.
pub enum StatusView {
    Added,
    Modified,
    Deleted,
    Renamed { from: Seq<char> },
}

impl View for ChangeStatus {
    type V = StatusView;

    open spec fn view(&self) -> StatusView {
        match self {
            ChangeStatus::Added => StatusView::Added,
            ChangeStatus::Modified => StatusView::Modified,
            ChangeStatus::Deleted => StatusView::Deleted,
            ChangeStatus::Renamed { from } => StatusView::Renamed { from: from@ },
        }
    }
}

impl Clone for ChangeStatus {
    fn clone(&self) -> (r: ChangeStatus)
        ensures
            r@ == self@,
    {
        match self {
            ChangeStatus::Added => ChangeStatus::Added,
            ChangeStatus::Modified => ChangeStatus::Modified,
            ChangeStatus::Deleted => ChangeStatus::Deleted,
            ChangeStatus::Renamed { from } => ChangeStatus::Renamed { from: from.clone() },
        }
    }
}

/// A change of one path.
#[derive(Debug, PartialEq, Eq)]
pub struct FileChange {
    pub path: String,
    pub status: ChangeStatus,
    pub old_hash: Option<String>,
    pub new_hash: Option<String>,
    pub old_size: i64,
    pub new_size: i64,
}

/// A change with its texts as sequences of characters.
pub struct ChangeView {
    pub path: Seq<char>,
    pub status: StatusView,
    pub old_hash: Option<Seq<char>>,
    pub new_hash: Option<Seq<char>>,
    pub old_size: i64,
    pub new_size: i64,
}

impl View for FileChange {
    type V = ChangeView;

    open spec fn view(&self) -> ChangeView {
        ChangeView {
            path: self.path@,
            status: self.status@,
            old_hash: text::opt_text(self.old_hash),
            new_hash: text::opt_text(self.new_hash),
            old_size: self.old_size,
            new_size: self.new_size,
        }
    }
}

/// The views of a list of changes.
pub open spec fn change_views(changes: Seq<FileChange>) -> Seq<ChangeView> {
    Seq::new(changes.len(), |i: int| changes[i]@)
}

/// The letter that stands for a status in compact lists.
pub open spec fn status_letter(s: StatusView) -> char {
    match s {
        StatusView::Added => 'A',
        StatusView::Modified => 'M',
        StatusView::Deleted => 'D',
        StatusView::Renamed { .. } => 'R',
    }
}

impl FileChange {
    /// The letter that stands for the status in compact lists.
    pub fn letter(&self) -> (c: char)
        ensures
            c == status_letter(self@.status),
    {
        match self.status {
            ChangeStatus::Added => 'A',
            ChangeStatus::Modified => 'M',
            ChangeStatus::Deleted => 'D',
            ChangeStatus::Renamed { .. } => 'R',
        }
    }
}

impl Clone for FileChange {
    fn clone(&self) -> (r: FileChange)
        ensures
            r@ == self@,
    {
        FileChange {
            path: self.path.clone(),
            status: self.status.clone(),
            old_hash: text::copy_opt(&self.old_hash),
            new_hash: text::copy_opt(&self.new_hash),
            old_size: self.old_size,
            new_size: self.new_size,
        }
    }
}

// ---------------------------------------------------------------------------
// What a manifest diff is
// ---------------------------------------------------------------------------

/// A manifest as a map.
pub type Files = Map<Seq<char>, FileView>;

/// The paths of `a` that `b` lacks and whose content has the hash `h`.
pub open spec fn only_in(a: Files, b: Files, h: Seq<char>) -> Set<Seq<char>> {
    a.dom().filter(|p: Seq<char>| !b.contains_key(p) && a[p].hash == h)
}

/// How many members of `s` come before `p`.
pub open spec fn rank(s: Set<Seq<char>>, p: Seq<char>) -> nat {
    s.filter(|q: Seq<char>| text::lt(q, p)).len()
}

/// The deletion of `from` and the addition of `to` are one rename: they share
/// their content, and among the deletions and the additions of that content
/// they stand at the same place of the path order.
pub open spec fn is_rename(old: Files, new: Files, from: Seq<char>, to: Seq<char>) -> bool {
    &&& old.contains_key(from)
    &&& !new.contains_key(from)
    &&& new.contains_key(to)
    &&& !old.contains_key(to)
    &&& old[from].hash == new[to].hash
    &&& rank(only_in(old, new, old[from].hash), from) == rank(
        only_in(new, old, old[from].hash),
        to,
    )
}

/// What happened to the path `p`, if anything. A rename is told of its new path.
pub open spec fn change_of(old: Files, new: Files, p: Seq<char>) -> Option<ChangeView> {
    if old.contains_key(p) && new.contains_key(p) {
        if old[p].hash == new[p].hash {
            None
        } else {
            Some(
                ChangeView {
                    path: p,
                    status: StatusView::Modified,
                    old_hash: Some(old[p].hash),
                    new_hash: Some(new[p].hash),
                    old_size: old[p].size,
                    new_size: new[p].size,
                },
            )
        }
    } else if new.contains_key(p) {
        if exists|from: Seq<char>| is_rename(old, new, from, p) {
            let from = choose|from: Seq<char>| is_rename(old, new, from, p);
            Some(
                ChangeView {
                    path: p,
                    status: StatusView::Renamed { from },
                    old_hash: Some(old[from].hash),
                    new_hash: Some(new[p].hash),
                    old_size: old[from].size,
                    new_size: new[p].size,
                },
            )
        } else {
            Some(
                ChangeView {
                    path: p,
                    status: StatusView::Added,
                    old_hash: None,
                    new_hash: Some(new[p].hash),
                    old_size: 0,
                    new_size: new[p].size,
                },
            )
        }
    } else if old.contains_key(p) {
        if exists|to: Seq<char>| is_rename(old, new, p, to) {
            None
        } else {
            Some(
                ChangeView {
                    path: p,
                    status: StatusView::Deleted,
                    old_hash: Some(old[p].hash),
                    new_hash: None,
                    old_size: old[p].size,
                    new_size: 0,
                },
            )
        }
    } else {
        None
    }
}

/// The paths of the changes.
pub open spec fn change_paths(changes: Seq<ChangeView>) -> Seq<Seq<char>> {
    Seq::new(changes.len(), |i: int| changes[i].path)
}

/// `changes` are the changes from `old` to `new`, each once, in path order.
pub open spec fn is_diff(changes: Seq<ChangeView>, old: Files, new: Files) -> bool {
    &&& text_map::ordered(change_paths(changes))
    &&& forall|i: int|
        0 <= i < changes.len() ==> change_of(old, new, (#[trigger] changes[i]).path) == Some(
            changes[i],
        )
    &&& forall|p: Seq<char>| #[trigger]
        change_of(old, new, p) is Some ==> change_paths(changes).contains(p)
}

// ---------------------------------------------------------------------------
// Renames pair one deletion with one addition
// ---------------------------------------------------------------------------

proof fn lemma_rank_grows(s: Set<Seq<char>>, p: Seq<char>, q: Seq<char>)
    requires
        s.finite(),
        s.contains(p),
        text::lt(p, q),
    ensures
        rank(s, p) < rank(s, q),
{
    let a = s.filter(|r: Seq<char>| text::lt(r, p));
    let b = s.filter(|r: Seq<char>| text::lt(r, q));
    text::lemma_lt_irreflexive(p);
    assert forall|r: Seq<char>| a.insert(p).contains(r) implies b.contains(r) by {
        if a.contains(r) {
            text::lemma_lt_transitive(r, p, q);
        }
    }
    vstd::set_lib::lemma_len_subset(a.insert(p), b);
}

proof fn lemma_rank_injective(s: Set<Seq<char>>, p: Seq<char>, q: Seq<char>)
    requires
        s.finite(),
        s.contains(p),
        s.contains(q),
        rank(s, p) == rank(s, q),
    ensures
        p == q,
{
    text::lemma_lt_total(p, q);
    if text::lt(p, q) {
        lemma_rank_grows(s, p, q);
    } else if text::lt(q, p) {
        lemma_rank_grows(s, q, p);
    }
}

/// Two renames that share their source or their target are the same rename:
/// a deletion is paired with at most one addition, and the other way round.
pub proof fn lemma_rename_pairs(
    old: Files,
    new: Files,
    from: Seq<char>,
    to: Seq<char>,
    from2: Seq<char>,
    to2: Seq<char>,
)
    requires
        old.dom().finite(),
        new.dom().finite(),
        is_rename(old, new, from, to),
        is_rename(old, new, from2, to2),
    ensures
        from == from2 <==> to == to2,
{
    let h = old[from].hash;
    if from == from2 {
        lemma_rank_injective(only_in(new, old, h), to, to2);
    }
    if to == to2 {
        lemma_rank_injective(only_in(old, new, h), from, from2);
    }
}

// ---------------------------------------------------------------------------
// Counting
// ---------------------------------------------------------------------------

/// How many of the first `n` files have the hash `h`.
spec fn count(files: Seq<FileView>, h: Seq<char>, n: int) -> nat
    decreases n,
{
    if n <= 0 {
        0
    } else {
        count(files, h, n - 1) + if files[n - 1].hash == h { 1nat } else { 0nat }
    }
}

proof fn lemma_count_mono(files: Seq<FileView>, h: Seq<char>, m: int, n: int)
    requires
        0 <= m <= n,
    ensures
        count(files, h, m) <= count(files, h, n),
        m < n && files[m].hash == h ==> count(files, h, m) < count(files, h, n),
    decreases n,
{
    if m < n {
        lemma_count_mono(files, h, m, n - 1);
    }
}

/// Below `n`, every count up to the last one is reached at a file with that hash.
proof fn lemma_count_reached(files: Seq<FileView>, h: Seq<char>, n: int, c: nat) -> (i: int)
    requires
        0 <= n <= files.len(),
        c < count(files, h, n),
    ensures
        0 <= i < n,
        files[i].hash == h,
        count(files, h, i) == c,
    decreases n,
{
    if c < count(files, h, n - 1) {
        lemma_count_reached(files, h, n - 1, c)
    } else {
        n - 1
    }
}

/// `files` are the files of `a` whose paths `b` lacks, in path order.
#[verifier::opaque]
spec fn lists_only_in(files: Seq<FileView>, a: Files, b: Files) -> bool {
    &&& text_map::ordered(Seq::new(files.len(), |i: int| files[i].path))
    &&& forall|i: int|
        0 <= i < files.len() ==> {
            &&& a.contains_key((#[trigger] files[i]).path)
            &&& !b.contains_key(files[i].path)
            &&& a[files[i].path] == files[i]
        }
    &&& forall|p: Seq<char>|
        #![trigger a.contains_key(p)]
        a.contains_key(p) && !b.contains_key(p) ==> exists|i: int|
            0 <= i < files.len() && (#[trigger] files[i]).path == p
}

proof fn lemma_listed(files: Seq<FileView>, a: Files, b: Files, i: int)
    requires
        lists_only_in(files, a, b),
        0 <= i < files.len(),
    ensures
        a.contains_key(files[i].path),
        !b.contains_key(files[i].path),
        a[files[i].path] == files[i],
{
    reveal(lists_only_in);
}

proof fn lemma_lists(files: Seq<FileView>, a: Files, b: Files, p: Seq<char>) -> (i: int)
    requires
        lists_only_in(files, a, b),
        a.contains_key(p),
        !b.contains_key(p),
    ensures
        0 <= i < files.len(),
        files[i].path == p,
        a[p] == files[i],
{
    reveal(lists_only_in);
    choose|i: int| 0 <= i < files.len() && (#[trigger] files[i]).path == p
}

proof fn lemma_paths_ordered(files: Seq<FileView>, a: Files, b: Files, i: int, j: int)
    requires
        lists_only_in(files, a, b),
        0 <= i < j < files.len(),
    ensures
        text::lt(files[i].path, files[j].path),
{
    reveal(lists_only_in);
    let paths = Seq::new(files.len(), |i: int| files[i].path);
    assert(text::lt(paths[i], paths[j]));
}

proof fn lemma_count_is_set(files: Seq<FileView>, a: Files, b: Files, h: Seq<char>, n: int) -> (s: Set<
    Seq<char>,
>)
    requires
        lists_only_in(files, a, b),
        0 <= n <= files.len(),
    ensures
        s.finite(),
        s.len() == count(files, h, n),
        forall|p: Seq<char>| #[trigger]
            s.contains(p) <==> exists|i: int|
                0 <= i < n && (#[trigger] files[i]).path == p && files[i].hash == h,
    decreases n,
{
    if n == 0 {
        Set::<Seq<char>>::empty()
    } else {
        let s = lemma_count_is_set(files, a, b, h, n - 1);
        if files[n - 1].hash == h {
            let p = files[n - 1].path;
            if s.contains(p) {
                let i = choose|i: int| 0 <= i < n - 1 && (#[trigger] files[i]).path == p;
                lemma_paths_ordered(files, a, b, i, n - 1);
                text::lemma_lt_irreflexive(p);
            }
            let t = s.insert(p);
            assert forall|q: Seq<char>| #[trigger] t.contains(q) <==> exists|i: int|
                0 <= i < n && (#[trigger] files[i]).path == q && files[i].hash == h by {
                if s.contains(q) {
                    let i = choose|i: int|
                        0 <= i < n - 1 && (#[trigger] files[i]).path == q && files[i].hash == h;
                    assert(files[i].path == q && files[i].hash == h);
                } else if q == p {
                    assert(files[n - 1].path == q);
                }
            }
            t
        } else {
            assert forall|q: Seq<char>| #[trigger] s.contains(q) <==> exists|i: int|
                0 <= i < n && (#[trigger] files[i]).path == q && files[i].hash == h by {
                if s.contains(q) {
                    let i = choose|i: int|
                        0 <= i < n - 1 && (#[trigger] files[i]).path == q && files[i].hash == h;
                    assert(files[i].path == q && files[i].hash == h);
                }
            }
            s
        }
    }
}

/// The rank of a listed path is the number of files before it with that hash.
proof fn lemma_rank_is_count(files: Seq<FileView>, a: Files, b: Files, h: Seq<char>, m: int)
    requires
        lists_only_in(files, a, b),
        0 <= m < files.len(),
    ensures
        rank(only_in(a, b, h), files[m].path) == count(files, h, m),
{
    let s = lemma_count_is_set(files, a, b, h, m);
    let p = files[m].path;
    let t = only_in(a, b, h).filter(|q: Seq<char>| text::lt(q, p));
    assert(s =~= t) by {
        assert forall|q: Seq<char>| s.contains(q) implies t.contains(q) by {
            let i = choose|i: int| 0 <= i < m && (#[trigger] files[i]).path == q && files[i].hash == h;
            lemma_paths_ordered(files, a, b, i, m);
            lemma_listed(files, a, b, i);
        }
        assert forall|q: Seq<char>| t.contains(q) implies s.contains(q) by {
            let i = lemma_lists(files, a, b, q);
            if i >= m {
                text::lemma_lt_irreflexive(p);
                if i > m {
                    lemma_paths_ordered(files, a, b, m, i);
                    text::lemma_lt_transitive(p, q, p);
                }
            }
            assert(files[i].path == q && files[i].hash == h);
        }
    }
}

// ---------------------------------------------------------------------------
// Computing it
// ---------------------------------------------------------------------------

spec fn ref_views(files: Seq<&SnapshotFile>) -> Seq<FileView> {
    Seq::new(files.len(), |i: int| files[i]@)
}

/// The files of `a` whose paths `b` lacks, in path order.
fn files_only_in<'a>(a: &'a Manifest, b: &Manifest) -> (r: Vec<&'a SnapshotFile>)
    ensures
        lists_only_in(ref_views(r@), a@, b@),
{
    let n: usize = a.len();
    let mut r: Vec<&'a SnapshotFile> = Vec::new();
    let ghost mut at: Seq<int> = Seq::empty();
    let mut i: usize = 0;
    while i < n
        invariant
            i <= n,
            n == a.paths().len(),
            r@.len() == at.len(),
            forall|k: int|
                0 <= k < at.len() ==> {
                    &&& 0 <= #[trigger] at[k] < i
                    &&& r@[k].path@ == a.paths()[at[k]]
                    &&& a@.contains_key(r@[k].path@)
                    &&& r@[k]@ == a@[r@[k].path@]
                    &&& !b@.contains_key(r@[k].path@)
                },
            forall|x: int, y: int| 0 <= x < y < at.len() ==> #[trigger] at[x] < #[trigger] at[y],
            forall|j: int|
                0 <= j < i && !b@.contains_key(#[trigger] a.paths()[j]) ==> at.contains(j),
        decreases n - i,
    {
        let f = a.file_at(i);
        if !b.contains(f.path.as_str()) {
            r.push(f);
            proof {
                let before = at;
                at = at.push(i as int);
                assert forall|j: int|
                    0 <= j < i + 1 && !b@.contains_key(#[trigger] a.paths()[j]) implies at.contains(
                    j,
                ) by {
                    if j < i {
                        let k = choose|k: int| 0 <= k < before.len() && before[k] == j;
                        assert(at[k] == j);
                    } else {
                        assert(at[before.len() as int] == j);
                    }
                }
            }
        }
        i += 1;
    }
    proof {
        reveal(lists_only_in);
        let files = ref_views(r@);
        let paths = Seq::new(files.len(), |k: int| files[k].path);
        assert forall|x: int, y: int| 0 <= x < y < paths.len() implies text::lt(
            #[trigger] paths[x],
            #[trigger] paths[y],
        ) by {
            assert(at[x] < at[y]);
            assert(text::lt(a.paths()[at[x]], a.paths()[at[y]]));
        }
        assert forall|k: int| 0 <= k < files.len() implies {
            &&& a@.contains_key((#[trigger] files[k]).path)
            &&& !b@.contains_key(files[k].path)
            &&& a@[files[k].path] == files[k]
        } by {
            assert(0 <= at[k] < i);
        }
        assert forall|p: Seq<char>|
            #![trigger a@.contains_key(p)]
            a@.contains_key(p) && !b@.contains_key(p) implies exists|k: int|
            0 <= k < files.len() && (#[trigger] files[k]).path == p by {
            assert(a.paths().contains(p));
            let j = choose|j: int| 0 <= j < a.paths().len() && a.paths()[j] == p;
            let k = choose|k: int| 0 <= k < at.len() && at[k] == j;
            assert(files[k].path == p);
        }
    }
    r
}

/// The first addition not yet taken whose content has the hash `hash`.
fn first_free(added: &Vec<&SnapshotFile>, taken: &Vec<bool>, hash: &str) -> (r: Option<usize>)
    requires
        added@.len() == taken@.len(),
    ensures
        match r {
            Some(i) => {
                &&& i < added@.len()
                &&& !taken@[i as int]
                &&& added@[i as int].hash@ == hash@
                &&& forall|j: int| 0 <= j < i && !taken@[j] ==> (#[trigger] added@[j]).hash@ != hash@
            },
            None => forall|j: int|
                0 <= j < added@.len() && !taken@[j] ==> (#[trigger] added@[j]).hash@ != hash@,
        },
{
    let mut i: usize = 0;
    while i < added.len()
        invariant
            i <= added@.len(),
            added@.len() == taken@.len(),
            forall|j: int| 0 <= j < i && !taken@[j] ==> (#[trigger] added@[j]).hash@ != hash@,
        decreases added@.len() - i,
    {
        if !taken[i] && text::same(added[i].hash.as_str(), hash) {
            return Some(i);
        }
        i += 1;
    }
    None
}

/// Deletion `m` and addition `i` at the same count of their hash are a rename.
proof fn lemma_counts_rename(
    old: Files,
    new: Files,
    deleted: Seq<FileView>,
    added: Seq<FileView>,
    m: int,
    i: int,
)
    requires
        lists_only_in(deleted, old, new),
        lists_only_in(added, new, old),
        0 <= m < deleted.len(),
        0 <= i < added.len(),
        deleted[m].hash == added[i].hash,
    ensures
        is_rename(old, new, deleted[m].path, added[i].path) <==> count(
            deleted,
            deleted[m].hash,
            m,
        ) == count(added, deleted[m].hash, i),
{
    lemma_listed(deleted, old, new, m);
    lemma_listed(added, new, old, i);
    lemma_rank_is_count(deleted, old, new, deleted[m].hash, m);
    lemma_rank_is_count(added, new, old, deleted[m].hash, i);
}

/// Which additions are taken once the first `m` deletions have been paired.
spec fn taken_after(taken: Seq<bool>, deleted: Seq<FileView>, added: Seq<FileView>, m: int) -> bool {
    &&& taken.len() == added.len()
    &&& forall|i: int|
        0 <= i < added.len() ==> (#[trigger] taken[i] <==> count(added, added[i].hash, i) < count(
            deleted,
            added[i].hash,
            m,
        ))
}

/// The first free addition with the hash of deletion `m` is its rename target.
proof fn lemma_pair(
    old: Files,
    new: Files,
    deleted: Seq<FileView>,
    added: Seq<FileView>,
    taken: Seq<bool>,
    m: int,
    i: int,
)
    requires
        old.dom().finite(),
        new.dom().finite(),
        lists_only_in(deleted, old, new),
        lists_only_in(added, new, old),
        taken_after(taken, deleted, added, m),
        0 <= m < deleted.len(),
        0 <= i < added.len(),
        !taken[i],
        added[i].hash == deleted[m].hash,
        forall|j: int| 0 <= j < i && !taken[j] ==> (#[trigger] added[j]).hash != deleted[m].hash,
    ensures
        is_rename(old, new, deleted[m].path, added[i].path),
        change_of(old, new, deleted[m].path) is None,
        change_of(old, new, added[i].path) == Some(
            ChangeView {
                path: added[i].path,
                status: StatusView::Renamed { from: deleted[m].path },
                old_hash: Some(deleted[m].hash),
                new_hash: Some(added[i].hash),
                old_size: deleted[m].size,
                new_size: added[i].size,
            },
        ),
        taken_after(taken.update(i, true), deleted, added, m + 1),
{
    let h = deleted[m].hash;
    let c = count(deleted, h, m);
    lemma_listed(deleted, old, new, m);
    lemma_listed(added, new, old, i);
    if count(added, h, i) > c {
        let j = lemma_count_reached(added, h, i, c);
        assert(!taken[j]);
        assert(added[j].hash != h);
    }
    lemma_counts_rename(old, new, deleted, added, m, i);
    let from = deleted[m].path;
    let to = added[i].path;
    let chosen = choose|f: Seq<char>| is_rename(old, new, f, to);
    assert(is_rename(old, new, chosen, to));
    lemma_rename_pairs(old, new, from, to, chosen, to);
    let after = taken.update(i, true);
    assert forall|k: int| 0 <= k < added.len() implies (#[trigger] after[k] <==> count(
        added,
        added[k].hash,
        k,
    ) < count(deleted, added[k].hash, m + 1)) by {
        if k != i && added[k].hash == h {
            if k < i {
                lemma_count_mono(added, h, k, i);
            } else {
                lemma_count_mono(added, h, i, k);
            }
        }
        assert(k != i ==> after[k] == taken[k]);
    }
}

/// A deletion without a free addition of its content has no rename target.
proof fn lemma_no_pair(
    old: Files,
    new: Files,
    deleted: Seq<FileView>,
    added: Seq<FileView>,
    taken: Seq<bool>,
    m: int,
)
    requires
        lists_only_in(deleted, old, new),
        lists_only_in(added, new, old),
        taken_after(taken, deleted, added, m),
        0 <= m < deleted.len(),
        forall|j: int|
            0 <= j < added.len() && !taken[j] ==> (#[trigger] added[j]).hash != deleted[m].hash,
    ensures
        change_of(old, new, deleted[m].path) == Some(
            ChangeView {
                path: deleted[m].path,
                status: StatusView::Deleted,
                old_hash: Some(deleted[m].hash),
                new_hash: None,
                old_size: deleted[m].size,
                new_size: 0,
            },
        ),
        taken_after(taken, deleted, added, m + 1),
{
    let h = deleted[m].hash;
    lemma_listed(deleted, old, new, m);
    assert forall|to: Seq<char>| !is_rename(old, new, deleted[m].path, to) by {
        if is_rename(old, new, deleted[m].path, to) {
            lemma_listed(deleted, old, new, m);
            let i = lemma_lists(added, new, old, to);
            lemma_counts_rename(old, new, deleted, added, m, i);
            assert(!taken[i]);
        }
    }
    assert forall|k: int| 0 <= k < added.len() implies (#[trigger] taken[k] <==> count(
        added,
        added[k].hash,
        k,
    ) < count(deleted, added[k].hash, m + 1)) by {
        if added[k].hash == h {
            assert(taken[k]);
        }
    }
}

/// An addition that stays free is no rename.
proof fn lemma_free_is_added(
    old: Files,
    new: Files,
    deleted: Seq<FileView>,
    added: Seq<FileView>,
    taken: Seq<bool>,
    i: int,
)
    requires
        lists_only_in(deleted, old, new),
        lists_only_in(added, new, old),
        taken_after(taken, deleted, added, deleted.len() as int),
        0 <= i < added.len(),
        !taken[i],
    ensures
        change_of(old, new, added[i].path) == Some(
            ChangeView {
                path: added[i].path,
                status: StatusView::Added,
                old_hash: None,
                new_hash: Some(added[i].hash),
                old_size: 0,
                new_size: added[i].size,
            },
        ),
{
    lemma_listed(added, new, old, i);
    assert forall|from: Seq<char>| !is_rename(old, new, from, added[i].path) by {
        if is_rename(old, new, from, added[i].path) {
            lemma_listed(added, new, old, i);
            let m = lemma_lists(deleted, old, new, from);
            lemma_counts_rename(old, new, deleted, added, m, i);
            lemma_count_mono(deleted, deleted[m].hash, m, deleted.len() as int);
        }
    }
}

/// Every entry of `out` is the change of its path.
spec fn sound(out: Map<Seq<char>, FileChange>, old: Files, new: Files) -> bool {
    forall|p: Seq<char>| #[trigger]
        out.contains_key(p) ==> change_of(old, new, p) == Some(out[p]@) && out[p]@.path == p
}

/// Enters the paths that both manifests hold with different content.
fn enter_modified(old: &Manifest, new: &Manifest) -> (out: TextMap<FileChange>)
    ensures
        sound(out@, old@, new@),
        modified_entered(out@, old@, new@),
{
    let mut out: TextMap<FileChange> = TextMap::new();
    let n: usize = new.len();
    let mut i: usize = 0;
    while i < n
        invariant
            i <= n,
            n == new.paths().len(),
            sound(out@, old@, new@),
            forall|j: int|
                0 <= j < i && old@.contains_key(#[trigger] new.paths()[j]) && change_of(
                    old@,
                    new@,
                    new.paths()[j],
                ) is Some ==> out@.contains_key(new.paths()[j]),
        decreases n - i,
    {
        let nf = new.file_at(i);
        if let Some(of) = old.get(nf.path.as_str()) {
            if !text::same(of.hash.as_str(), nf.hash.as_str()) {
                let change = FileChange {
                    path: nf.path.clone(),
                    status: ChangeStatus::Modified,
                    old_hash: Some(of.hash.clone()),
                    new_hash: Some(nf.hash.clone()),
                    old_size: of.size,
                    new_size: nf.size,
                };
                out.insert(nf.path.clone(), change);
            }
        }
        i += 1;
    }
    proof {
        assert forall|p: Seq<char>|
            old@.contains_key(p) && new@.contains_key(p) && #[trigger] change_of(
                old@,
                new@,
                p,
            ) is Some implies out@.contains_key(p) by {
            let j = choose|j: int| 0 <= j < new.paths().len() && new.paths()[j] == p;
            assert(out@.contains_key(new.paths()[j]));
        }
    }
    out
}

/// The changed paths that both manifests hold are entered.
spec fn modified_entered(out: Map<Seq<char>, FileChange>, old: Files, new: Files) -> bool {
    forall|p: Seq<char>|
        old.contains_key(p) && new.contains_key(p) && #[trigger] change_of(old, new, p) is Some
            ==> out.contains_key(p)
}

/// The changed paths among the first `n` of `files` are entered.
spec fn files_entered(
    out: Map<Seq<char>, FileChange>,
    old: Files,
    new: Files,
    files: Seq<FileView>,
    n: int,
) -> bool {
    forall|j: int|
        0 <= j < n && change_of(old, new, (#[trigger] files[j]).path) is Some ==> out.contains_key(
            files[j].path,
        )
}

/// The additions already taken by a rename are entered.
spec fn taken_entered(
    out: Map<Seq<char>, FileChange>,
    taken: Seq<bool>,
    added: Seq<FileView>,
) -> bool {
    forall|i: int| 0 <= i < added.len() && taken[i] ==> out.contains_key((#[trigger] added[i]).path)
}

proof fn lemma_all_entered(
    out: Map<Seq<char>, FileChange>,
    old: Files,
    new: Files,
    deleted: Seq<FileView>,
    added: Seq<FileView>,
)
    requires
        lists_only_in(deleted, old, new),
        lists_only_in(added, new, old),
        modified_entered(out, old, new),
        files_entered(out, old, new, deleted, deleted.len() as int),
        files_entered(out, old, new, added, added.len() as int),
    ensures
        forall|p: Seq<char>| #[trigger] change_of(old, new, p) is Some ==> out.contains_key(p),
{
    assert forall|p: Seq<char>| #[trigger] change_of(old, new, p) is Some implies out.contains_key(
        p,
    ) by {
        if old.contains_key(p) && !new.contains_key(p) {
            let j = lemma_lists(deleted, old, new, p);
            assert(out.contains_key(deleted[j].path));
        } else if !old.contains_key(p) {
            let j = lemma_lists(added, new, old, p);
            assert(out.contains_key(added[j].path));
        }
    }
}

/// Pairs each deletion with the first free addition of its content, and enters
/// the renames and the remaining deletions. Says which additions were taken.
fn enter_renamed_and_deleted(
    out: &mut TextMap<FileChange>,
    added: &Vec<&SnapshotFile>,
    deleted: &Vec<&SnapshotFile>,
    Ghost(was): Ghost<Files>,
    Ghost(now): Ghost<Files>,
) -> (taken: Vec<bool>)
    requires
        was.dom().finite(),
        now.dom().finite(),
        lists_only_in(ref_views(deleted@), was, now),
        lists_only_in(ref_views(added@), now, was),
        sound(old(out)@, was, now),
        modified_entered(old(out)@, was, now),
    ensures
        sound(final(out)@, was, now),
        modified_entered(final(out)@, was, now),
        files_entered(final(out)@, was, now, ref_views(deleted@), deleted@.len() as int),
        taken_after(taken@, ref_views(deleted@), ref_views(added@), deleted@.len() as int),
        taken_entered(final(out)@, taken@, ref_views(added@)),
{
    let ghost av = ref_views(added@);
    let ghost dv = ref_views(deleted@);
    let mut taken: Vec<bool> = Vec::new();
    let mut k: usize = 0;
    while k < added.len()
        invariant
            k <= added@.len(),
            taken@.len() == k,
            forall|j: int| 0 <= j < k ==> !(#[trigger] taken@[j]),
        decreases added@.len() - k,
    {
        taken.push(false);
        k += 1;
    }
    let mut m: usize = 0;
    while m < deleted.len()
        invariant
            m <= deleted@.len(),
            was.dom().finite(),
            now.dom().finite(),
            av == ref_views(added@),
            dv == ref_views(deleted@),
            lists_only_in(dv, was, now),
            lists_only_in(av, now, was),
            taken_after(taken@, dv, av, m as int),
            sound(out@, was, now),
            modified_entered(out@, was, now),
            files_entered(out@, was, now, dv, m as int),
            taken_entered(out@, taken@, av),
        decreases deleted@.len() - m,
    {
        let df = deleted[m];
        match first_free(added, &taken, df.hash.as_str()) {
            Some(i) => {
                let af = added[i];
                proof {
                    assert forall|j: int| 0 <= j < i && !taken@[j] implies (#[trigger] av[j]).hash
                        != dv[m as int].hash by {
                        assert(added@[j].hash@ == av[j].hash);
                    }
                    lemma_pair(was, now, dv, av, taken@, m as int, i as int);
                }
                taken.set(i, true);
                let change = FileChange {
                    path: af.path.clone(),
                    status: ChangeStatus::Renamed { from: df.path.clone() },
                    old_hash: Some(df.hash.clone()),
                    new_hash: Some(af.hash.clone()),
                    old_size: df.size,
                    new_size: af.size,
                };
                proof {
                    assert(change@.path == av[i as int].path);
                    assert(Some(change@) == change_of(was, now, av[i as int].path));
                }
                out.insert(af.path.clone(), change);
            },
            None => {
                proof {
                    assert forall|j: int| 0 <= j < av.len() && !taken@[j] implies (
                    #[trigger] av[j]).hash != dv[m as int].hash by {
                        assert(added@[j].hash@ == av[j].hash);
                    }
                    lemma_no_pair(was, now, dv, av, taken@, m as int);
                }
                let change = FileChange {
                    path: df.path.clone(),
                    status: ChangeStatus::Deleted,
                    old_hash: Some(df.hash.clone()),
                    new_hash: None,
                    old_size: df.size,
                    new_size: 0,
                };
                proof {
                    assert(change@.path == dv[m as int].path);
                    assert(Some(change@) == change_of(was, now, dv[m as int].path));
                }
                out.insert(df.path.clone(), change);
            },
        }
        m += 1;
    }
    taken
}

/// Enters the additions that no rename took.
fn enter_added(
    out: &mut TextMap<FileChange>,
    added: &Vec<&SnapshotFile>,
    taken: &Vec<bool>,
    Ghost(deleted): Ghost<Seq<FileView>>,
    Ghost(was): Ghost<Files>,
    Ghost(now): Ghost<Files>,
)
    requires
        lists_only_in(deleted, was, now),
        lists_only_in(ref_views(added@), now, was),
        taken_after(taken@, deleted, ref_views(added@), deleted.len() as int),
        sound(old(out)@, was, now),
        modified_entered(old(out)@, was, now),
        files_entered(old(out)@, was, now, deleted, deleted.len() as int),
        taken_entered(old(out)@, taken@, ref_views(added@)),
    ensures
        sound(final(out)@, was, now),
        modified_entered(final(out)@, was, now),
        files_entered(final(out)@, was, now, deleted, deleted.len() as int),
        files_entered(final(out)@, was, now, ref_views(added@), added@.len() as int),
{
    let ghost av = ref_views(added@);
    let mut i: usize = 0;
    while i < added.len()
        invariant
            i <= added@.len(),
            av == ref_views(added@),
            lists_only_in(deleted, was, now),
            lists_only_in(av, now, was),
            taken_after(taken@, deleted, av, deleted.len() as int),
            sound(out@, was, now),
            modified_entered(out@, was, now),
            files_entered(out@, was, now, deleted, deleted.len() as int),
            taken_entered(out@, taken@, av),
            files_entered(out@, was, now, av, i as int),
        decreases added@.len() - i,
    {
        if !taken[i] {
            let af = added[i];
            proof {
                lemma_free_is_added(was, now, deleted, av, taken@, i as int);
            }
            let change = FileChange {
                path: af.path.clone(),
                status: ChangeStatus::Added,
                old_hash: None,
                new_hash: Some(af.hash.clone()),
                old_size: 0,
                new_size: af.size,
            };
            proof {
                assert(change@.path == av[i as int].path);
                assert(Some(change@) == change_of(was, now, av[i as int].path));
            }
            out.insert(af.path.clone(), change);
        }
        i += 1;
    }
}

/// The changes from `old` to `new` in path order, where a deletion and an
/// addition of the same content count as one rename, told of its new path.
pub fn diff_manifests(old: &Manifest, new: &Manifest) -> (r: Vec<FileChange>)
    ensures
        is_diff(change_views(r@), old@, new@),
{
    let _ = old.len();
    let _ = new.len();
    let added = files_only_in(new, old);
    let deleted = files_only_in(old, new);
    let mut out = enter_modified(old, new);
    let taken = enter_renamed_and_deleted(&mut out, &added, &deleted, Ghost(old@), Ghost(new@));
    enter_added(
        &mut out,
        &added,
        &taken,
        Ghost(ref_views(deleted@)),
        Ghost(old@),
        Ghost(new@),
    );
    proof {
        lemma_all_entered(out@, old@, new@, ref_views(deleted@), ref_views(added@));
    }
    in_path_order(&out, Ghost(old@), Ghost(new@))
}

/// The entries of `out` in path order.
fn in_path_order(
    out: &TextMap<FileChange>,
    Ghost(old): Ghost<Files>,
    Ghost(new): Ghost<Files>,
) -> (r: Vec<FileChange>)
    requires
        sound(out@, old, new),
        forall|p: Seq<char>| #[trigger]
            change_of(old, new, p) is Some ==> out@.contains_key(p),
    ensures
        is_diff(change_views(r@), old, new),
{
    let n: usize = out.len();
    let mut r: Vec<FileChange> = Vec::new();
    let mut i: usize = 0;
    while i < n
        invariant
            i <= n,
            n == out.keys().len(),
            r@.len() == i,
            sound(out@, old, new),
            forall|j: int| 0 <= j < i ==> (#[trigger] r@[j])@ == out@[out.keys()[j]]@,
        decreases n - i,
    {
        let ghost before = r@;
        let change = out.value_at(i).clone();
        r.push(change);
        proof {
            assert forall|j: int| 0 <= j < i + 1 implies (#[trigger] r@[j])@ == out@[out.keys()[j]]@ by {
                if j < i {
                    assert(r@[j] == before[j]);
                }
            }
        }
        i += 1;
    }
    proof {
        let changes = change_views(r@);
        assert(change_paths(changes) =~= out.keys()) by {
            assert forall|j: int| 0 <= j < n implies change_paths(changes)[j] == out.keys()[j] by {
                assert(r@[j]@ == out@[out.keys()[j]]@);
                assert(out@.contains_key(out.keys()[j]));
            }
        }
        assert forall|j: int| 0 <= j < changes.len() implies change_of(
            old,
            new,
            (#[trigger] changes[j]).path,
        ) == Some(changes[j]) by {
            assert(r@[j]@ == out@[out.keys()[j]]@);
            assert(out@.contains_key(out.keys()[j]));
        }
    }
    r
}

// ---------------------------------------------------------------------------
// Laws
// ---------------------------------------------------------------------------

/// What a list of changes makes of a tree of `path -> hash`: the deleted paths
/// and the sources of renames go, every other changed path gets its new hash.
pub open spec fn replay(tree: Map<Seq<char>, Seq<char>>, changes: Seq<ChangeView>) -> Map<
    Seq<char>,
    Seq<char>,
> {
    Map::new(
        |p: Seq<char>|
            if change_paths(changes).contains(p) {
                changes[change_paths(changes).index_of(p)].new_hash is Some
            } else {
                tree.contains_key(p) && !moved_away(changes, p)
            },
        |p: Seq<char>|
            if change_paths(changes).contains(p) {
                changes[change_paths(changes).index_of(p)].new_hash->0
            } else {
                tree[p]
            },
    )
}

/// Some change is a rename of `p` to another path.
pub open spec fn moved_away(changes: Seq<ChangeView>, p: Seq<char>) -> bool {
    exists|i: int|
        0 <= i < changes.len() && (#[trigger] changes[i]).status == (StatusView::Renamed { from: p })
}

/// The content of a manifest: which hash each path has.
pub open spec fn tree_of(files: Files) -> Map<Seq<char>, Seq<char>> {
    files.map_values(|f: FileView| f.hash)
}

/// Replaying the diff from `old` to `new` on `old` gives `new`.
pub proof fn lemma_diff_replays(changes: Seq<ChangeView>, old: Files, new: Files)
    requires
        old.dom().finite(),
        new.dom().finite(),
        is_diff(changes, old, new),
    ensures
        replay(tree_of(old), changes) == tree_of(new),
{
    let paths = change_paths(changes);
    let got = replay(tree_of(old), changes);
    let want = tree_of(new);
    assert forall|p: Seq<char>| #[trigger]
        got.dom().contains(p) == want.dom().contains(p) && (want.dom().contains(p) ==> got[p]
            == want[p]) by {
        if paths.contains(p) {
            let i = paths.index_of(p);
            assert(changes[i].path == p);
        } else {
            assert(change_of(old, new, p) is None);
            if old.contains_key(p) && !new.contains_key(p) {
                let to = choose|to: Seq<char>| is_rename(old, new, p, to);
                assert(is_rename(old, new, p, to));
                assert(change_of(old, new, to) is Some);
                let i = choose|i: int| 0 <= i < paths.len() && paths[i] == to;
                assert(changes[i].path == to);
                let from = choose|from: Seq<char>| is_rename(old, new, from, to);
                assert(is_rename(old, new, from, to));
                lemma_rename_pairs(old, new, p, to, from, to);
                assert(moved_away(changes, p));
            }
            if moved_away(changes, p) {
                let i = choose|i: int|
                    0 <= i < changes.len() && (#[trigger] changes[i]).status == (
                    StatusView::Renamed { from: p });
                let to = changes[i].path;
                assert(change_of(old, new, to) == Some(changes[i]));
                assert(is_rename(old, new, p, to));
            }
        }
    }
    assert(got.dom() =~= want.dom());
    assert(got =~= want);
}

/// Two manifests differ in nothing exactly when every path has the same hash
/// in both.
pub proof fn lemma_diff_empty(changes: Seq<ChangeView>, old: Files, new: Files)
    requires
        old.dom().finite(),
        new.dom().finite(),
        is_diff(changes, old, new),
    ensures
        changes.len() == 0 <==> tree_of(old) == tree_of(new),
{
    if changes.len() == 0 {
        lemma_diff_replays(changes, old, new);
        assert(replay(tree_of(old), changes) =~= tree_of(old));
    }
    if tree_of(old) == tree_of(new) && changes.len() > 0 {
        let p = changes[0].path;
        assert(change_of(old, new, p) is Some);
        assert(tree_of(old).contains_key(p) == old.contains_key(p));
        assert(tree_of(new).contains_key(p) == new.contains_key(p));
        assert(tree_of(old)[p] == tree_of(new)[p]);
        if old.contains_key(p) {
            assert(tree_of(old)[p] == old[p].hash);
            assert(tree_of(new)[p] == new[p].hash);
        }
    }
}

/// Manifests determine their diff: there is only one list of changes.
pub proof fn lemma_diff_unique(a: Seq<ChangeView>, b: Seq<ChangeView>, old: Files, new: Files)
    requires
        is_diff(a, old, new),
        is_diff(b, old, new),
    ensures
        a == b,
{
    let pa = change_paths(a);
    let pb = change_paths(b);
    assert forall|p: Seq<char>| pa.contains(p) == pb.contains(p) by {
        if pa.contains(p) {
            let i = choose|i: int| 0 <= i < pa.len() && pa[i] == p;
            assert(change_of(old, new, a[i].path) is Some);
        }
        if pb.contains(p) {
            let i = choose|i: int| 0 <= i < pb.len() && pb[i] == p;
            assert(change_of(old, new, b[i].path) is Some);
        }
    }
    text_map::lemma_ordered_unique(pa, pb);
    assert forall|i: int| 0 <= i < a.len() implies a[i] == b[i] by {
        assert(pa[i] == pb[i]);
        assert(change_of(old, new, a[i].path) == Some(a[i]));
        assert(change_of(old, new, b[i].path) == Some(b[i]));
    }
    assert(a =~= b);
}

/// The paths of the changes whose status has that letter.
pub open spec fn paths_marked(changes: Seq<ChangeView>, letter: char) -> Seq<Seq<char>>
    decreases changes.len(),
{
    if changes.len() == 0 {
        Seq::empty()
    } else {
        let before = paths_marked(changes.drop_last(), letter);
        if status_letter(changes.last().status) == letter {
            before.push(changes.last().path)
        } else {
            before
        }
    }
}

proof fn lemma_marked_from(changes: Seq<ChangeView>, letter: char, i: int) -> (j: int)
    requires
        0 <= i < paths_marked(changes, letter).len(),
    ensures
        0 <= j < changes.len(),
        changes[j].path == paths_marked(changes, letter)[i],
        status_letter(changes[j].status) == letter,
    decreases changes.len(),
{
    let front = changes.drop_last();
    if i < paths_marked(front, letter).len() {
        let j = lemma_marked_from(front, letter, i);
        assert(front[j] == changes[j]);
        j
    } else {
        changes.len() - 1
    }
}

proof fn lemma_marked_has(changes: Seq<ChangeView>, letter: char, j: int)
    requires
        0 <= j < changes.len(),
        status_letter(changes[j].status) == letter,
    ensures
        paths_marked(changes, letter).contains(changes[j].path),
    decreases changes.len(),
{
    let front = changes.drop_last();
    let marked = paths_marked(changes, letter);
    if j < front.len() {
        assert(front[j] == changes[j]);
        lemma_marked_has(front, letter, j);
        let i = paths_marked(front, letter).index_of(changes[j].path);
        assert(marked[i] == changes[j].path);
    } else {
        assert(marked[marked.len() - 1] == changes[j].path);
    }
}

proof fn lemma_marked_ordered(changes: Seq<ChangeView>, letter: char)
    requires
        text_map::ordered(change_paths(changes)),
    ensures
        text_map::ordered(paths_marked(changes, letter)),
    decreases changes.len(),
{
    if changes.len() > 0 {
        let front = changes.drop_last();
        let all = change_paths(changes);
        let marked = paths_marked(changes, letter);
        let before = paths_marked(front, letter);
        assert(change_paths(front) =~= all.drop_last());
        lemma_marked_ordered(front, letter);
        assert forall|a: int, b: int| 0 <= a < b < marked.len() implies text::lt(
            #[trigger] marked[a],
            #[trigger] marked[b],
        ) by {
            assert(marked[a] == before[a]);
            if b < before.len() {
                assert(marked[b] == before[b]);
            } else {
                let j = lemma_marked_from(front, letter, a);
                assert(all[j] == marked[a]);
                assert(all[all.len() - 1] == marked[b]);
            }
        }
    }
}

/// A path is marked with a letter in a diff exactly when its change has it.
proof fn lemma_marked(
    changes: Seq<ChangeView>,
    old: Files,
    new: Files,
    letter: char,
    p: Seq<char>,
)
    requires
        is_diff(changes, old, new),
    ensures
        paths_marked(changes, letter).contains(p) <==> (change_of(old, new, p) matches Some(c)
            && status_letter(c.status) == letter),
{
    let marked = paths_marked(changes, letter);
    if marked.contains(p) {
        let j = lemma_marked_from(changes, letter, marked.index_of(p));
        assert(change_of(old, new, changes[j].path) == Some(changes[j]));
    }
    if change_of(old, new, p) is Some {
        let j = change_paths(changes).index_of(p);
        assert(changes[j].path == p);
        if status_letter(changes[j].status) == letter {
            lemma_marked_has(changes, letter, j);
        }
    }
}

proof fn lemma_rename_reversed(old: Files, new: Files)
    ensures
        forall|from: Seq<char>, to: Seq<char>|
            #![trigger is_rename(old, new, from, to)]
            #![trigger is_rename(new, old, to, from)]
            is_rename(old, new, from, to) == is_rename(new, old, to, from),
{
}

/// There are no more renames one way than the other.
proof fn lemma_no_more_renames(
    fwd: Seq<ChangeView>,
    bwd: Seq<ChangeView>,
    old: Files,
    new: Files,
)
    requires
        old.dom().finite(),
        new.dom().finite(),
        is_diff(fwd, old, new),
        is_diff(bwd, new, old),
    ensures
        paths_marked(fwd, 'R').len() <= paths_marked(bwd, 'R').len(),
{
    lemma_rename_reversed(old, new);
    let there = paths_marked(fwd, 'R');
    let back = paths_marked(bwd, 'R');
    let source = |to: Seq<char>| choose|from: Seq<char>| is_rename(old, new, from, to);
    let sources = Seq::new(there.len(), |i: int| source(there[i]));
    assert forall|i: int| 0 <= i < there.len() implies is_rename(
        old,
        new,
        #[trigger] sources[i],
        there[i],
    ) by {
        lemma_marked(fwd, old, new, 'R', there[i]);
        let c = change_of(old, new, there[i])->0;
        assert(c.status is Renamed);
        assert(exists|from: Seq<char>| is_rename(old, new, from, there[i]));
    }
    lemma_marked_ordered(fwd, 'R');
    text_map::lemma_ordered_distinct(there);
    assert forall|i: int, j: int| 0 <= i < j < sources.len() implies sources[i] != sources[j] by {
        lemma_rename_pairs(old, new, sources[i], there[i], sources[j], there[j]);
    }
    assert(sources.no_duplicates());
    assert forall|p: Seq<char>| sources.to_set().contains(p) implies back.to_set().contains(p) by {
        let i = sources.index_of(p);
        assert(is_rename(new, old, there[i], p));
        lemma_marked(bwd, new, old, 'R', p);
    }
    lemma_marked_ordered(bwd, 'R');
    text_map::lemma_ordered_distinct(back);
    sources.unique_seq_to_set();
    back.unique_seq_to_set();
    vstd::set_lib::lemma_len_subset(sources.to_set(), back.to_set());
}

/// The diff with both sides swapped is the diff reversed: the same paths are
/// modified, what was added is deleted and what was deleted is added, and there
/// are as many renames, each from its new path to its old one.
pub proof fn lemma_diff_reversed(
    fwd: Seq<ChangeView>,
    bwd: Seq<ChangeView>,
    old: Files,
    new: Files,
)
    requires
        old.dom().finite(),
        new.dom().finite(),
        is_diff(fwd, old, new),
        is_diff(bwd, new, old),
    ensures
        paths_marked(fwd, 'M') == paths_marked(bwd, 'M'),
        paths_marked(fwd, 'A') == paths_marked(bwd, 'D'),
        paths_marked(fwd, 'D') == paths_marked(bwd, 'A'),
        paths_marked(fwd, 'R').len() == paths_marked(bwd, 'R').len(),
        forall|i: int|
            0 <= i < fwd.len() && (#[trigger] fwd[i]).status is Renamed ==> moved(
                bwd,
                fwd[i].path,
                fwd[i].status->from,
            ),
{
    lemma_rename_reversed(old, new);
    lemma_same_marked(fwd, bwd, old, new, 'M', 'M');
    lemma_same_marked(fwd, bwd, old, new, 'A', 'D');
    lemma_same_marked(fwd, bwd, old, new, 'D', 'A');
    lemma_no_more_renames(fwd, bwd, old, new);
    lemma_no_more_renames(bwd, fwd, new, old);
    assert forall|i: int| 0 <= i < fwd.len() && (#[trigger] fwd[i]).status is Renamed implies moved(
        bwd,
        fwd[i].path,
        fwd[i].status->from,
    ) by {
        let to = fwd[i].path;
        let from = fwd[i].status->from;
        assert(change_of(old, new, to) == Some(fwd[i]));
        assert(is_rename(old, new, from, to));
        assert(is_rename(new, old, to, from));
        assert(change_of(new, old, from) is Some);
        let j = change_paths(bwd).index_of(from);
        assert(bwd[j].path == from);
        let back = choose|q: Seq<char>| is_rename(new, old, q, from);
        assert(is_rename(new, old, back, from));
        lemma_rename_pairs(new, old, back, from, to, from);
    }
}

/// Some change is a rename from `from` to `to`.
pub open spec fn moved(changes: Seq<ChangeView>, from: Seq<char>, to: Seq<char>) -> bool {
    exists|j: int|
        0 <= j < changes.len() && (#[trigger] changes[j]).path == to && changes[j].status == (
        StatusView::Renamed { from })
}

/// What has one letter one way has another the other way.
proof fn lemma_same_marked(
    fwd: Seq<ChangeView>,
    bwd: Seq<ChangeView>,
    old: Files,
    new: Files,
    letter: char,
    reversed: char,
)
    requires
        is_diff(fwd, old, new),
        is_diff(bwd, new, old),
        (letter, reversed) == ('M', 'M') || (letter, reversed) == ('A', 'D') || (letter, reversed)
            == ('D', 'A'),
    ensures
        paths_marked(fwd, letter) == paths_marked(bwd, reversed),
{
    lemma_rename_reversed(old, new);
    let there = paths_marked(fwd, letter);
    let back = paths_marked(bwd, reversed);
    assert forall|p: Seq<char>| there.contains(p) == back.contains(p) by {
        lemma_marked(fwd, old, new, letter, p);
        lemma_marked(bwd, new, old, reversed, p);
        if exists|from: Seq<char>| is_rename(old, new, from, p) {
            let from = choose|from: Seq<char>| is_rename(old, new, from, p);
            assert(is_rename(new, old, p, from));
        }
        if exists|to: Seq<char>| is_rename(old, new, p, to) {
            let to = choose|to: Seq<char>| is_rename(old, new, p, to);
            assert(is_rename(new, old, to, p));
        }
    }
    lemma_marked_ordered(fwd, letter);
    lemma_marked_ordered(bwd, reversed);
    text_map::lemma_ordered_unique(there, back);
}

/// Every rename of a diff keeps its content: the old and the new hash agree,
/// and two renames never share their source.
pub proof fn lemma_renames_keep_content(
    changes: Seq<ChangeView>,
    old: Files,
    new: Files,
    i: int,
    j: int,
)
    requires
        old.dom().finite(),
        new.dom().finite(),
        is_diff(changes, old, new),
        0 <= i < changes.len(),
        0 <= j < changes.len(),
        changes[i].status is Renamed,
    ensures
        changes[i].old_hash == changes[i].new_hash,
        changes[j].status == changes[i].status ==> i == j,
{
    let to = changes[i].path;
    assert(change_of(old, new, to) == Some(changes[i]));
    let from = changes[i].status->from;
    assert(is_rename(old, new, from, to));
    if changes[j].status == changes[i].status {
        let to2 = changes[j].path;
        assert(change_of(old, new, to2) == Some(changes[j]));
        assert(is_rename(old, new, from, to2));
        lemma_rename_pairs(old, new, from, to, from, to2);
        text_map::lemma_ordered_distinct(change_paths(changes));
        assert(change_paths(changes)[i] == to);
        assert(change_paths(changes)[j] == to2);
    }
}

// ---------------------------------------------------------------------------
// Text diffs
// ---------------------------------------------------------------------------

/// How many lines a text diff adds and removes.
#[derive(Debug, Clone, Copy, PartialEq, Eq)]
pub struct LineStat {
    pub added: usize,
    pub removed: usize,
}

impl Default for LineStat {
    fn default() -> (r: LineStat)
        ensures
            r.added == 0,
            r.removed == 0,
    {
        LineStat { added: 0, removed: 0 }
    }
}

/// What a line diff does with a line.
#[derive(Debug, Clone, Copy, PartialEq, Eq)]
pub enum LineTag {
    Equal,
    Delete,
    Insert,
}

/// One line of a line diff, with its place among the new lines if it is one.
#[derive(Debug, Clone, Copy, PartialEq, Eq)]
pub struct LineChange {
    pub tag: LineTag,
    pub new_index: Option<usize>,
}

/// The line diff of two texts, as the crate `similar` computes it.
pub uninterp spec fn line_diff(old: Seq<char>, new: Seq<char>) -> Seq<LineChange>;

/// Whether a line ends with the character at `i`: with a line feed, or with a
/// carriage return that no line feed follows.
pub open spec fn ends_line(s: Seq<char>, i: int) -> bool {
    s[i] == '\n' || s[i] == '\r' && !(i + 1 < s.len() && s[i + 1] == '\n')
}

/// How many lines end among the first `n` characters.
pub open spec fn lines_ended(s: Seq<char>, n: nat) -> nat
    decreases n,
{
    if n == 0 {
        0
    } else {
        lines_ended(s, (n - 1) as nat) + if ends_line(s, n - 1) { 1nat } else { 0nat }
    }
}

/// How many lines a text has. The last one need not be ended.
pub open spec fn line_count(s: Seq<char>) -> nat {
    lines_ended(s, s.len()) + if s.len() > 0 && !ends_line(s, s.len() - 1) { 1nat } else { 0nat }
}

proof fn lemma_lines_ended(s: Seq<char>, n: nat)
    ensures
        lines_ended(s, n) <= n,
    decreases n,
{
    if n > 0 {
        lemma_lines_ended(s, (n - 1) as nat);
    }
}

proof fn lemma_line_count(s: Seq<char>)
    ensures
        line_count(s) <= s.len(),
{
    if s.len() > 0 {
        lemma_lines_ended(s, (s.len() - 1) as nat);
    }
}

/// Where the first line of a text ends, or its length if it does not end.
pub open spec fn first_end(s: Seq<char>) -> int
    decreases s.len(),
{
    if s.len() == 0 || ends_line(s, 0) {
        0
    } else {
        1 + first_end(s.drop_first())
    }
}

/// The lines of a text, each with the characters that end it.
pub open spec fn split_lines(s: Seq<char>) -> Seq<Seq<char>>
    decreases s.len(),
{
    if s.len() == 0 {
        Seq::empty()
    } else {
        let k = first_end(s);
        if 0 <= k && k + 1 < s.len() {
            seq![s.take(k + 1)] + split_lines(s.skip(k + 1))
        } else {
            seq![s]
        }
    }
}

proof fn lemma_first_end(s: Seq<char>)
    ensures
        0 <= first_end(s) <= s.len(),
        forall|i: int| 0 <= i < first_end(s) ==> !#[trigger] ends_line(s, i),
        first_end(s) < s.len() ==> ends_line(s, first_end(s)),
    decreases s.len(),
{
    if s.len() > 0 && !ends_line(s, 0) {
        let t = s.drop_first();
        lemma_first_end(t);
        assert forall|i: int| 0 <= i < first_end(s) implies !#[trigger] ends_line(s, i) by {
            if i > 0 {
                assert(!ends_line(t, i - 1));
            }
        }
        if first_end(s) < s.len() {
            assert(ends_line(t, first_end(t)));
        }
    }
}

/// The lines of a text one after the other are the text.
pub proof fn lemma_split_lines_whole(s: Seq<char>)
    ensures
        split_lines(s).flatten() == s,
    decreases s.len(),
{
    let lines = split_lines(s);
    if s.len() > 0 {
        lemma_first_end(s);
        let k = first_end(s);
        if k + 1 < s.len() {
            let rest = s.skip(k + 1);
            lemma_split_lines_whole(rest);
            assert(lines.drop_first() =~= split_lines(rest));
            assert(s.take(k + 1) + rest =~= s);
        } else {
            lines.lemma_flatten_one_element();
        }
    }
}

/// Texts with the same lines are the same.
pub proof fn lemma_lines_tell_text(a: Seq<char>, b: Seq<char>)
    ensures
        a == b <==> split_lines(a) == split_lines(b),
{
    lemma_split_lines_whole(a);
    lemma_split_lines_whole(b);
}

proof fn lemma_lines_ended_skip(s: Seq<char>, k: nat, m: nat)
    requires
        k + m <= s.len(),
    ensures
        lines_ended(s, k + m) == lines_ended(s, k) + lines_ended(s.skip(k as int), m),
    decreases m,
{
    if m > 0 {
        lemma_lines_ended_skip(s, k, (m - 1) as nat);
        assert(ends_line(s, k + m - 1) == ends_line(s.skip(k as int), m - 1));
    }
}

proof fn lemma_none_ended(s: Seq<char>, n: nat)
    requires
        forall|i: int| 0 <= i < n ==> !#[trigger] ends_line(s, i),
    ensures
        lines_ended(s, n) == 0,
    decreases n,
{
    if n > 0 {
        lemma_none_ended(s, (n - 1) as nat);
    }
}

/// A text has as many lines as it says.
pub proof fn lemma_line_count_is_lines(s: Seq<char>)
    ensures
        split_lines(s).len() == line_count(s),
    decreases s.len(),
{
    if s.len() > 0 {
        lemma_first_end(s);
        let k = first_end(s);
        if k < s.len() {
            lemma_none_ended(s, k as nat);
            assert(lines_ended(s, (k + 1) as nat) == 1);
            let m = (s.len() - k - 1) as nat;
            lemma_lines_ended_skip(s, (k + 1) as nat, m);
            if m > 0 {
                let rest = s.skip(k + 1);
                assert(ends_line(s, s.len() - 1) == ends_line(rest, rest.len() - 1));
                lemma_line_count_is_lines(rest);
            }
        } else {
            lemma_none_ended(s, s.len());
        }
    }
}

/// `changes` lead from the lines `old` to the lines `new`: in order, they keep
/// lines that both have, delete the other lines of `old`, and insert the other
/// lines of `new`, told of their places there.
pub open spec fn edits(changes: Seq<LineChange>, old: Seq<Seq<char>>, new: Seq<Seq<char>>) -> bool
    decreases changes.len(),
{
    if changes.len() == 0 {
        old.len() == 0 && new.len() == 0
    } else {
        let before = changes.drop_last();
        match changes.last().tag {
            LineTag::Equal => {
                &&& old.len() > 0 && new.len() > 0
                &&& old.last() == new.last()
                &&& edits(before, old.drop_last(), new.drop_last())
            },
            LineTag::Delete => old.len() > 0 && edits(before, old.drop_last(), new),
            LineTag::Insert => {
                &&& new.len() > 0
                &&& changes.last().new_index matches Some(k) && k == new.len() - 1
                &&& edits(before, old, new.drop_last())
            },
        }
    }
}

/// Whether every inserted line has a place among `n` lines, each after those of
/// the lines inserted before it.
pub open spec fn inserts_ascend(changes: Seq<LineChange>, n: nat) -> bool {
    &&& forall|i: int|
        0 <= i < changes.len() && (#[trigger] changes[i]).tag == LineTag::Insert ==> (
        changes[i].new_index matches Some(k) && k < n)
    &&& forall|i: int, j: int|
        0 <= i < j < changes.len() && (#[trigger] changes[i]).tag == LineTag::Insert && (
        #[trigger] changes[j]).tag == LineTag::Insert ==> changes[i].new_index->0
            < changes[j].new_index->0
}

/// `similar::TextDiff::from_lines` and its `iter_all_changes`: the line diff of
/// two texts. It goes through both texts from their start to their end, line by
/// line, and leads from the one to the other, so the inserted lines have
/// ascending places among the lines of the new text. It changes nothing between
/// equal texts.
#[verifier::external_body]
fn line_changes(old: &str, new: &str) -> (r: Vec<LineChange>)
    ensures
        r@ == line_diff(old@, new@),
        inserts_ascend(r@, line_count(new@)),
        edits(r@, split_lines(old@), split_lines(new@)),
        old@ == new@ ==> tagged(r@, LineTag::Insert) == 0 && tagged(r@, LineTag::Delete) == 0,
{
    let diff = similar::TextDiff::from_lines(old, new);
    diff.iter_all_changes()
        .map(|c| LineChange {
            tag: match c.tag() {
                similar::ChangeTag::Equal => LineTag::Equal,
                similar::ChangeTag::Delete => LineTag::Delete,
                similar::ChangeTag::Insert => LineTag::Insert,
            },
            new_index: c.new_index(),
        })
        .collect()
}

/// The hunks of the unified diff of two texts with that many lines of context,
/// as the crate `similar` writes them, if there are any.
pub uninterp spec fn unified_hunks(old: Seq<char>, new: Seq<char>, radius: nat) -> Option<Seq<char>>;

/// The unified diff with its two header lines, which stand only above hunks.
pub open spec fn with_header(hunks: Option<Seq<char>>, a: Seq<char>, b: Seq<char>) -> Seq<char> {
    match hunks {
        None => Seq::empty(),
        Some(h) => "--- "@ + a + "\n+++ "@ + b + "\n"@ + h,
    }
}

/// `similar::TextDiff::unified_diff`, printed: the lines `--- a` and `+++ b`
/// and the hunks, or nothing if there are no hunks. There are none if the texts
/// are the same; else the hunks lead from the one to the other, each with that many
/// unchanged lines around its changes, or as many as there are. Where a hunk says
/// that it begins is left to the name `unified_hunks`. The number of lines of
/// context is doubled on the way, which must not overflow.
#[verifier::external_body]
fn print_unified(old: &str, new: &str, radius: usize, a: &str, b: &str) -> (r: String)
    requires
        radius <= usize::MAX / 2,
    ensures
        r@ == with_header(unified_hunks(old@, new@, radius as nat), a@, b@),
        patch::tells(r@, unified_hunks(old@, new@, radius as nat), old@, new@, radius as nat),
{
    let diff = similar::TextDiff::from_lines(old, new);
    diff.unified_diff().context_radius(radius).header(a, b).to_string()
}

/// How many of the changes have the tag `tag`.
pub open spec fn tagged(changes: Seq<LineChange>, tag: LineTag) -> nat
    decreases changes.len(),
{
    if changes.len() == 0 {
        0
    } else {
        tagged(changes.drop_last(), tag) + if changes.last().tag == tag { 1nat } else { 0nat }
    }
}

/// The numbers, from 1, of the inserted lines in the new text.
pub open spec fn inserted_lines(changes: Seq<LineChange>) -> Seq<int>
    decreases changes.len(),
{
    if changes.len() == 0 {
        Seq::empty()
    } else {
        let before = inserted_lines(changes.drop_last());
        match changes.last() {
            LineChange { tag: LineTag::Insert, new_index: Some(k) } => before.push(k + 1),
            _ => before,
        }
    }
}

/// Whether the numbers ascend, from 1 at the least to `n` at the most.
pub open spec fn ascend_to(numbers: Seq<int>, n: nat) -> bool {
    &&& forall|i: int| 0 <= i < numbers.len() ==> 1 <= #[trigger] numbers[i] <= n
    &&& forall|i: int, j: int|
        0 <= i < j < numbers.len() ==> #[trigger] numbers[i] < #[trigger] numbers[j]
}

proof fn lemma_inserted_from(changes: Seq<LineChange>, i: int) -> (j: int)
    requires
        0 <= i < inserted_lines(changes).len(),
    ensures
        0 <= j < changes.len(),
        changes[j].tag == LineTag::Insert,
        changes[j].new_index is Some,
        inserted_lines(changes)[i] == changes[j].new_index->0 + 1,
    decreases changes.len(),
{
    let front = changes.drop_last();
    if i < inserted_lines(front).len() {
        let j = lemma_inserted_from(front, i);
        assert(front[j] == changes[j]);
        j
    } else {
        changes.len() - 1
    }
}

proof fn lemma_inserted_ascend(changes: Seq<LineChange>, n: nat)
    requires
        inserts_ascend(changes, n),
    ensures
        ascend_to(inserted_lines(changes), n),
    decreases changes.len(),
{
    let numbers = inserted_lines(changes);
    assert forall|i: int| 0 <= i < numbers.len() implies 1 <= #[trigger] numbers[i] <= n by {
        let j = lemma_inserted_from(changes, i);
        assert(changes[j].tag == LineTag::Insert);
    }
    if changes.len() > 0 {
        let front = changes.drop_last();
        assert(inserts_ascend(front, n)) by {
            assert forall|i: int| 0 <= i < front.len() implies #[trigger] front[i]
                == changes[i] by {}
        }
        lemma_inserted_ascend(front, n);
        let before = inserted_lines(front);
        assert forall|a: int, b: int| 0 <= a < b < numbers.len() implies #[trigger] numbers[a]
            < #[trigger] numbers[b] by {
            assert(numbers[a] == before[a]);
            if b < before.len() {
                assert(numbers[b] == before[b]);
            } else {
                let j = lemma_inserted_from(front, a);
                assert(front[j] == changes[j]);
                assert(changes[changes.len() - 1].tag == LineTag::Insert);
            }
        }
    }
}

/// A line diff adds as many lines more than it removes as the new text has more
/// than the old one, and one that changes no line has the same text on both sides.
pub proof fn lemma_edits_count(changes: Seq<LineChange>, old: Seq<Seq<char>>, new: Seq<Seq<char>>)
    requires
        edits(changes, old, new),
    ensures
        tagged(changes, LineTag::Insert) + old.len() == tagged(changes, LineTag::Delete) + new.len(),
        tagged(changes, LineTag::Insert) <= new.len(),
        tagged(changes, LineTag::Delete) <= old.len(),
        tagged(changes, LineTag::Insert) == 0 && tagged(changes, LineTag::Delete) == 0 ==> old
            == new,
    decreases changes.len(),
{
    if changes.len() > 0 {
        let before = changes.drop_last();
        match changes.last().tag {
            LineTag::Equal => {
                lemma_edits_count(before, old.drop_last(), new.drop_last());
                assert(old =~= old.drop_last().push(old.last()));
                assert(new =~= new.drop_last().push(new.last()));
            },
            LineTag::Delete => {
                lemma_edits_count(before, old.drop_last(), new);
            },
            LineTag::Insert => {
                lemma_edits_count(before, old, new.drop_last());
            },
        }
    } else {
        assert(old =~= new);
    }
}

/// The number of every line that only the new text has is among those of the
/// inserted lines.
pub proof fn lemma_new_lines_numbered(
    changes: Seq<LineChange>,
    old: Seq<Seq<char>>,
    new: Seq<Seq<char>>,
    k: int,
)
    requires
        edits(changes, old, new),
        0 <= k < new.len(),
        !old.contains(new[k]),
    ensures
        inserted_lines(changes).contains(k + 1),
    decreases changes.len(),
{
    if changes.len() > 0 {
        let before = changes.drop_last();
        let numbers = inserted_lines(changes);
        let fewer = inserted_lines(before);
        match changes.last().tag {
            LineTag::Equal => {
                if k == new.len() - 1 {
                    assert(old[old.len() - 1] == new[k]);
                }
                assert(!old.drop_last().contains(new.drop_last()[k])) by {
                    if old.drop_last().contains(new[k]) {
                        let i = old.drop_last().index_of(new[k]);
                        assert(old[i] == new[k]);
                    }
                }
                lemma_new_lines_numbered(before, old.drop_last(), new.drop_last(), k);
            },
            LineTag::Delete => {
                assert(!old.drop_last().contains(new[k])) by {
                    if old.drop_last().contains(new[k]) {
                        let i = old.drop_last().index_of(new[k]);
                        assert(old[i] == new[k]);
                    }
                }
                lemma_new_lines_numbered(before, old.drop_last(), new, k);
            },
            LineTag::Insert => {
                if k == new.len() - 1 {
                    assert(numbers[numbers.len() - 1] == k + 1);
                } else {
                    lemma_new_lines_numbered(before, old, new.drop_last(), k);
                    let i = fewer.index_of(k + 1);
                    assert(numbers[i] == k + 1);
                }
            },
        }
    }
}

/// The counts of a change between two texts: there are as many added lines more
/// than removed ones as the new text has more lines, none of either exactly if
/// the texts are the same, and for a new file all of its lines are added.
pub proof fn lemma_counts(
    objects: Map<Seq<char>, Vec<u8>>,
    old_hash: Option<Seq<char>>,
    new_hash: Option<Seq<char>>,
    old: Seq<char>,
    new: Seq<char>,
)
    requires
        side_text(objects, old_hash) == Some(old),
        side_text(objects, new_hash) == Some(new),
        edits(line_diff(old, new), split_lines(old), split_lines(new)),
        old.len() + new.len() > 0,
    ensures
        ({
            let c = counts_of(objects, old_hash, new_hash);
            &&& c matches Some((added, removed))
            &&& added + line_count(old) == removed + line_count(new)
            &&& added == 0 && removed == 0 ==> old == new
            &&& old_hash is None ==> added == line_count(new) && removed == 0
            &&& new_hash is None ==> added == 0 && removed == line_count(old)
        }),
{
    lemma_edits_count(line_diff(old, new), split_lines(old), split_lines(new));
    lemma_line_count_is_lines(old);
    lemma_line_count_is_lines(new);
    lemma_lines_tell_text(old, new);
}

/// Line numbers as integers.
pub open spec fn as_ints(v: Seq<usize>) -> Seq<int> {
    Seq::new(v.len(), |i: int| v[i] as int)
}

/// How many lines a line diff adds and removes.
pub fn count_changes(changes: &Vec<LineChange>) -> (r: LineStat)
    ensures
        r.added == tagged(changes@, LineTag::Insert),
        r.removed == tagged(changes@, LineTag::Delete),
{
    let mut stat = LineStat { added: 0, removed: 0 };
    let mut i: usize = 0;
    while i < changes.len()
        invariant
            i <= changes@.len(),
            stat.added == tagged(changes@.take(i as int), LineTag::Insert),
            stat.removed == tagged(changes@.take(i as int), LineTag::Delete),
            stat.added <= i,
            stat.removed <= i,
        decreases changes@.len() - i,
    {
        proof {
            assert(changes@.take(i + 1).drop_last() =~= changes@.take(i as int));
        }
        match changes[i].tag {
            LineTag::Insert => stat.added = stat.added + 1,
            LineTag::Delete => stat.removed = stat.removed + 1,
            LineTag::Equal => {},
        }
        i += 1;
    }
    proof {
        assert(changes@.take(i as int) =~= changes@);
    }
    stat
}

/// The numbers, from 1, of the lines that a line diff inserts.
pub fn number_inserted(changes: &Vec<LineChange>) -> (r: Vec<usize>)
    requires
        forall|i: int|
            0 <= i < changes@.len() && (#[trigger] changes@[i]).tag == LineTag::Insert ==> (
            changes@[i].new_index matches Some(k) ==> k < usize::MAX),
    ensures
        as_ints(r@) == inserted_lines(changes@),
{
    let mut r: Vec<usize> = Vec::new();
    let mut i: usize = 0;
    while i < changes.len()
        invariant
            i <= changes@.len(),
            forall|j: int|
                0 <= j < changes@.len() && (#[trigger] changes@[j]).tag == LineTag::Insert ==> (
                changes@[j].new_index matches Some(k) ==> k < usize::MAX),
            as_ints(r@) == inserted_lines(changes@.take(i as int)),
        decreases changes@.len() - i,
    {
        proof {
            assert(changes@.take(i + 1).drop_last() =~= changes@.take(i as int));
        }
        let ghost before = r@;
        let change = changes[i];
        if let LineTag::Insert = change.tag {
            if let Some(k) = change.new_index {
                r.push(k + 1);
                proof {
                    assert(as_ints(r@) =~= as_ints(before).push(k + 1));
                }
            }
        }
        i += 1;
    }
    proof {
        assert(changes@.take(i as int) =~= changes@);
    }
    r
}

/// How many lines differ between two texts.
pub fn line_stat_text(old: &str, new: &str) -> (r: LineStat)
    ensures
        r.added == tagged(line_diff(old@, new@), LineTag::Insert),
        r.removed == tagged(line_diff(old@, new@), LineTag::Delete),
        r.added + line_count(old@) == r.removed + line_count(new@),
        r.added == 0 && r.removed == 0 <==> old@ == new@,
{
    let changes = line_changes(old, new);
    proof {
        lemma_edits_count(changes@, split_lines(old@), split_lines(new@));
        lemma_line_count_is_lines(old@);
        lemma_line_count_is_lines(new@);
        lemma_lines_tell_text(old@, new@);
    }
    count_changes(&changes)
}

/// The unified diff of two versions of `path`.
pub open spec fn patch_of(path: Seq<char>, old: Seq<char>, new: Seq<char>) -> Seq<char> {
    with_header(unified_hunks(old, new, 3), "a/"@ + path, "b/"@ + path)
}

/// The unified diff of two versions of a path is one: it is empty exactly if they
/// are the same, and else its hunks lead from the old text to the new one.
pub proof fn lemma_unified_diff(path: Seq<char>, old: Seq<char>, new: Seq<char>)
    requires
        patch::hunks_tell(unified_hunks(old, new, 3), old, new, 3),
    ensures
        patch::is_unified(patch_of(path, old, new), path, old, new),
{
    let shown = patch_of(path, old, new);
    reveal_strlit("--- ");
    reveal_strlit("--- a/");
    reveal_strlit("a/");
    reveal_strlit("\n+++ ");
    reveal_strlit("\n+++ b/");
    reveal_strlit("b/");
    if let Some(t) = unified_hunks(old, new, 3) {
        assert("--- "@ + ("a/"@ + path) =~= "--- a/"@ + path);
        assert("\n+++ "@ + ("b/"@ + path) =~= "\n+++ b/"@ + path);
        assert(shown =~= "--- a/"@ + path + "\n+++ b/"@ + path + "\n"@ + t);
    }
}

/// The unified diff of two versions of `path`, with three lines of context.
pub fn unified_diff_text(path: &str, old: &str, new: &str) -> (r: String)
    ensures
        r@ == patch_of(path@, old@, new@),
        patch::is_unified(r@, path@, old@, new@),
{
    let mut a = "a/".to_string();
    a.append(path);
    let mut b = "b/".to_string();
    b.append(path);
    let r = print_unified(old, new, 3, a.as_str(), b.as_str());
    proof {
        lemma_unified_diff(path@, old@, new@);
    }
    r
}

/// The text of an object: there is none if the object is not at hand, holds a
/// zero byte, or is not UTF-8.
pub open spec fn object_text(objects: Map<Seq<char>, Vec<u8>>, hash: Seq<char>) -> Option<Seq<char>> {
    match objects::loaded_bytes(objects, hash) {
        Some(b) => if !b.contains(0) && valid_utf8(b) {
            Some(decode_utf8(b))
        } else {
            None
        },
        None => None,
    }
}

/// The text of one side of a diff: nothing if the file is not there on that
/// side, else the text of its object, if it has one.
pub open spec fn side_text(
    objects: Map<Seq<char>, Vec<u8>>,
    hash: Option<Seq<char>>,
) -> Option<Seq<char>> {
    match hash {
        Some(h) => object_text(objects, h),
        None => Some(Seq::empty()),
    }
}

/// Whether there is a zero byte.
fn has_zero(bytes: &Vec<u8>) -> (r: bool)
    ensures
        r == bytes@.contains(0),
{
    let mut i: usize = 0;
    while i < bytes.len()
        invariant
            i <= bytes@.len(),
            forall|j: int| 0 <= j < i ==> bytes@[j] != 0,
        decreases bytes@.len() - i,
    {
        if bytes[i] == 0 {
            return true;
        }
        i += 1;
    }
    false
}

/// The text of an object, if it has one.
pub fn load_text(objects: &Loaded, hash: &str) -> (r: Option<String>)
    ensures
        text::opt_text(r) == object_text(objects@, hash@),
{
    match objects.get(hash) {
        None => None,
        Some(bytes) => {
            if has_zero(bytes) {
                None
            } else {
                text::utf8_text(vstd::slice::slice_to_vec(bytes.as_slice()))
            }
        },
    }
}

fn load_side(objects: &Loaded, hash: Option<&str>) -> (r: Option<String>)
    ensures
        text::opt_text(r) == side_text(objects@, paths::view_opt(hash)),
{
    match hash {
        Some(h) => load_text(objects, h),
        None => {
            let s = String::new();
            proof {
                assert(s@ =~= Seq::<char>::empty());
            }
            Some(s)
        },
    }
}

/// How many lines are added and removed between two versions of a file. There
/// is no answer if a version is missing or not text, or if both are empty.
pub open spec fn counts_of(
    objects: Map<Seq<char>, Vec<u8>>,
    old_hash: Option<Seq<char>>,
    new_hash: Option<Seq<char>>,
) -> Option<(nat, nat)> {
    match (side_text(objects, old_hash), side_text(objects, new_hash)) {
        (Some(old), Some(new)) => if old.len() == 0 && new.len() == 0 {
            None
        } else {
            Some(
                (
                    tagged(line_diff(old, new), LineTag::Insert),
                    tagged(line_diff(old, new), LineTag::Delete),
                ),
            )
        },
        _ => None,
    }
}

/// How many lines are added and removed between two versions of a file. There
/// is no answer if a version is missing or not text, or if both are empty.
pub fn line_stat(objects: &Loaded, old_hash: Option<&str>, new_hash: Option<&str>) -> (r: Option<
    LineStat,
>)
    ensures
        match (
            r,
            counts_of(objects@, paths::view_opt(old_hash), paths::view_opt(new_hash)),
        ) {
            (Some(s), Some((added, removed))) => s.added == added && s.removed == removed,
            (None, None) => true,
            _ => false,
        },
        match (
            r,
            side_text(objects@, paths::view_opt(old_hash)),
            side_text(objects@, paths::view_opt(new_hash)),
        ) {
            (Some(s), Some(old), Some(new)) => {
                &&& s.added + line_count(old) == s.removed + line_count(new)
                &&& s.added == 0 && s.removed == 0 <==> old == new
            },
            (Some(_), _, _) => false,
            _ => true,
        },
{
    match (load_side(objects, old_hash), load_side(objects, new_hash)) {
        (Some(old), Some(new)) => {
            if old.as_str().is_empty() && new.as_str().is_empty() {
                None
            } else {
                Some(line_stat_text(old.as_str(), new.as_str()))
            }
        },
        _ => None,
    }
}

/// The line counts of a change, or none of either kind where there is no
/// answer.
pub open spec fn change_counts(objects: Map<Seq<char>, Vec<u8>>, change: ChangeView) -> (nat, nat) {
    match counts_of(objects, change.old_hash, change.new_hash) {
        Some(c) => c,
        None => (0, 0),
    }
}

/// The line counts of a change, or none of either kind where there is no
/// answer.
pub fn change_stat(objects: &Loaded, change: &FileChange) -> (r: LineStat)
    ensures
        (r.added as nat, r.removed as nat) == change_counts(objects@, change@),
{
    match line_stat(objects, borrowed(&change.old_hash), borrowed(&change.new_hash)) {
        Some(s) => s,
        None => LineStat { added: 0, removed: 0 },
    }
}

/// An optional text, borrowed.
pub(crate) fn borrowed(o: &Option<String>) -> (r: Option<&str>)
    ensures
        paths::view_opt(r) == text::opt_text(*o),
{
    match o {
        Some(s) => Some(s.as_str()),
        None => None,
    }
}

/// The numbers, from 1, of the lines that the new version adds. There are none
/// if a version is missing or not text, or if there is no new version.
pub open spec fn changed_lines_of(
    objects: Map<Seq<char>, Vec<u8>>,
    old_hash: Option<Seq<char>>,
    new_hash: Option<Seq<char>>,
) -> Seq<int> {
    match (side_text(objects, old_hash), side_text(objects, new_hash)) {
        (Some(old), Some(new)) => if new_hash is Some {
            inserted_lines(line_diff(old, new))
        } else {
            Seq::empty()
        },
        _ => Seq::empty(),
    }
}

/// The numbers, from 1, of the lines that the new version adds. They ascend and
/// are at most the number of its lines.
pub fn changed_new_lines(objects: &Loaded, old_hash: Option<&str>, new_hash: Option<&str>) -> (r: Vec<
    usize,
>)
    ensures
        as_ints(r@) == changed_lines_of(
            objects@,
            paths::view_opt(old_hash),
            paths::view_opt(new_hash),
        ),
        match side_text(objects@, paths::view_opt(new_hash)) {
            Some(new) => ascend_to(as_ints(r@), line_count(new)),
            None => r@.len() == 0,
        },
        match (
            side_text(objects@, paths::view_opt(old_hash)),
            side_text(objects@, paths::view_opt(new_hash)),
        ) {
            (Some(old), Some(new)) => forall|k: int|
                0 <= k < split_lines(new).len() && new_hash is Some && !split_lines(old).contains(
                    #[trigger] split_lines(new)[k],
                ) ==> as_ints(r@).contains(k + 1),
            _ => true,
        },
{
    if new_hash.is_some() {
        if let (Some(old), Some(new)) = (
            load_side(objects, old_hash),
            load_side(objects, new_hash),
        ) {
            let n: usize = new.as_str().unicode_len();
            let changes = line_changes(old.as_str(), new.as_str());
            proof {
                lemma_line_count(new@);
                assert(line_count(new@) <= n);
                lemma_inserted_ascend(changes@, line_count(new@));
                assert forall|k: int|
                    0 <= k < split_lines(new@).len() && !split_lines(old@).contains(
                        #[trigger] split_lines(new@)[k],
                    ) implies inserted_lines(changes@).contains(k + 1) by {
                    lemma_new_lines_numbered(
                        changes@,
                        split_lines(old@),
                        split_lines(new@),
                        k,
                    );
                }
            }
            return number_inserted(&changes);
        }
    }
    let r: Vec<usize> = Vec::new();
    proof {
        assert(as_ints(r@) =~= Seq::<int>::empty());
    }
    r
}

/// The unified diff of two versions of `path`, or `None` if one of them is
/// missing or not text.
pub fn unified_diff(
    objects: &Loaded,
    path: &str,
    old_hash: Option<&str>,
    new_hash: Option<&str>,
) -> (r: Option<String>)
    ensures
        match (
            side_text(objects@, paths::view_opt(old_hash)),
            side_text(objects@, paths::view_opt(new_hash)),
        ) {
            (Some(old), Some(new)) => r matches Some(s) && s@ == patch_of(path@, old, new)
                && patch::is_unified(s@, path@, old, new),
            _ => r is None,
        },
{
    match (load_side(objects, old_hash), load_side(objects, new_hash)) {
        (Some(old), Some(new)) => Some(unified_diff_text(path, old.as_str(), new.as_str())),
        _ => None,
    }
}

/// The changes between two stored snapshots, given their files.
pub fn diff_snapshots(old: &Vec<SnapshotFile>, new: &Vec<SnapshotFile>) -> (r: Vec<FileChange>)
    ensures
        is_diff(
            change_views(r@),
            snapshot::by_path(snapshot::file_views(old@)),
            snapshot::by_path(snapshot::file_views(new@)),
        ),
{
    let a = snapshot::manifest_map(old);
    let b = snapshot::manifest_map(new);
    diff_manifests(&a, &b)
}

} // verus!
