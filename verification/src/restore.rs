//! Safe restoration of files from a snapshot.
//!
//! A restore is planned first, and the plan changes nothing. Every path of a
//! plan lies inside the repository and outside `.git`. Undoing a restore is
//! restoring the safety snapshot that was taken before it.

use vstd::prelude::*;

use crate::diff;
use crate::diff::Files;
use crate::error::ErrorView;
use crate::error::RewindError;
use crate::models::FileView;
use crate::models::SnapshotFile;
use crate::paths;
use crate::paths::PartView;
use crate::paths::PathPart;
use crate::snapshot;
use crate::snapshot::Manifest;
use crate::text;
use crate::text_map;
use crate::text_map::TextMap;
use crate::text_map::TextSet;
use crate::tracking;
use crate::write_job::WriteJob;

verus! {

// ---------------------------------------------------------------------------
// Safe paths
// ---------------------------------------------------------------------------

/// A component that a restore may go through: a name other than `.git`.
pub open spec fn is_safe_part(part: PartView) -> bool {
    part matches PartView::Normal(name) && name != ".git"@
}

/// A path that a restore may touch: it is not empty, and it consists of names
/// alone, none of them `.git`.
pub open spec fn is_safe(rel: Seq<char>) -> bool {
    rel.len() > 0 && forall|i: int|
        0 <= i < paths::parts_of(rel).len() ==> is_safe_part(#[trigger] paths::parts_of(rel)[i])
}

/// Why a path that is not safe is refused.
pub open spec fn refusal(root: Seq<char>, rel: Seq<char>) -> ErrorView {
    if rel.len() == 0 {
        ErrorView::Other("empty restore path"@)
    } else {
        ErrorView::PathEscapesRoot { path: rel, root }
    }
}

fn check_part(part: &PathPart) -> (r: bool)
    ensures
        r == is_safe_part(part@),
{
    match part {
        PathPart::Normal(name) => !text::same(name.as_str(), ".git"),
        _ => false,
    }
}

/// Accepts `rel` exactly if it is a path that a restore may touch.
pub fn validate_rel_path(root: &str, rel: &str) -> (r: Result<(), RewindError>)
    ensures
        match r {
            Ok(()) => is_safe(rel@),
            Err(e) => !is_safe(rel@) && e@ == refusal(root@, rel@),
        },
{
    if rel.is_empty() {
        return Err(RewindError::other("empty restore path"));
    }
    let parts = paths::parts(rel);
    let ghost all = paths::part_views(parts@);
    let mut i: usize = 0;
    while i < parts.len()
        invariant
            i <= parts@.len(),
            rel@.len() > 0,
            all == paths::part_views(parts@),
            all == paths::parts_of(rel@),
            forall|j: int| 0 <= j < i ==> is_safe_part(#[trigger] all[j]),
        decreases parts@.len() - i,
    {
        if !check_part(&parts[i]) {
            proof {
                assert(!is_safe_part(all[i as int]));
            }
            return Err(
                RewindError::PathEscapesRoot { path: rel.to_string(), root: root.to_string() },
            );
        }
        i += 1;
    }
    Ok(())
}

/// Where the file `rel` lies below `root`, if a restore may touch it.
pub fn safe_join(root: &str, rel: &str) -> (r: Result<String, RewindError>)
    ensures
        match r {
            Ok(at) => is_safe(rel@) && at@ == paths::joined(root@, rel@),
            Err(e) => !is_safe(rel@) && e@ == refusal(root@, rel@),
        },
{
    match validate_rel_path(root, rel) {
        Ok(()) => Ok(paths::join(root, rel)),
        Err(e) => Err(e),
    }
}

/// Below the root, a path goes through safe components alone.
pub open spec fn stays_below(root: Seq<char>, path: Seq<char>) -> bool {
    let above = paths::parts_of(root);
    let all = paths::parts_of(path);
    &&& above.is_prefix_of(all)
    &&& forall|i: int| above.len() <= i < all.len() ==> is_safe_part(#[trigger] all[i])
}

/// A restore stays inside the repository: a safe path below the root has the
/// components of the root and after them names alone, none of them `.git`.
pub proof fn lemma_confined(root: Seq<char>, rel: Seq<char>)
    requires
        is_safe(rel),
    ensures
        stays_below(root, paths::joined(root, rel)),
{
    let parts = paths::parts_of(rel);
    lemma_safe_has_parts(rel);
    paths::lemma_joined_parts(root, rel);
    let all = paths::parts_of(paths::joined(root, rel));
    let n = paths::parts_of(root).len();
    assert(paths::parts_of(root) =~= all.subrange(0, n as int));
    assert forall|i: int| n <= i < all.len() implies is_safe_part(#[trigger] all[i]) by {
        assert(all[i] == parts[i - n]);
    }
}

// ---------------------------------------------------------------------------
// Plans
// ---------------------------------------------------------------------------

/// Which files a restore is about.
#[derive(Debug)]
pub enum Selection {
    /// The whole snapshot. Files may be created, overwritten and deleted.
    All,
    /// Only these paths.
    Paths(TextSet),
}

/// A selection as a set of paths.
pub enum SelectionView {
    All,
    Paths(Set<Seq<char>>),
}

impl View for Selection {
    type V = SelectionView;

    open spec fn view(&self) -> SelectionView {
        match self {
            Selection::All => SelectionView::All,
            Selection::Paths(set) => SelectionView::Paths(set@.dom()),
        }
    }
}

impl Selection {
    /// The selection of `paths`. No paths select everything.
    pub fn from_paths(paths: Vec<String>) -> (r: Selection)
        ensures
            r@ == if paths@.len() == 0 {
                SelectionView::All
            } else {
                SelectionView::Paths(text::texts(paths@).to_set())
            },
    {
        let mut set: TextSet = TextMap::new();
        let mut i: usize = 0;
        let ghost all = text::texts(paths@);
        while i < paths.len()
            invariant
                i <= paths@.len(),
                all == text::texts(paths@),
                forall|p: Seq<char>| #[trigger]
                    set@.dom().contains(p) <==> exists|j: int| 0 <= j < i && all[j] == p,
            decreases paths@.len() - i,
        {
            let ghost before = set@.dom();
            set.insert(paths[i].clone(), ());
            proof {
                assert(all[i as int] == paths@[i as int]@);
                assert forall|p: Seq<char>| #[trigger] set@.dom().contains(p) <==> exists|j: int|
                    0 <= j < i + 1 && all[j] == p by {
                    if before.contains(p) {
                        let j = choose|j: int| 0 <= j < i && all[j] == p;
                        assert(all[j] == p);
                    } else if p == all[i as int] {
                        assert(all[i as int] == p);
                    }
                }
            }
            i += 1;
        }
        proof {
            assert(set@.dom() =~= all.to_set());
        }
        if paths.len() == 0 {
            Selection::All
        } else {
            Selection::Paths(set)
        }
    }
}

/// One file that a restore writes.
#[derive(Debug, PartialEq, Eq)]
pub struct PlanEntry {
    pub path: String,
    pub hash: String,
    pub size: i64,
    pub mode: u32,
}

impl View for PlanEntry {
    type V = FileView;

    open spec fn view(&self) -> FileView {
        FileView { path: self.path@, hash: self.hash@, size: self.size, mode: self.mode }
    }
}

/// The views of a list of entries.
pub open spec fn entry_views(entries: Seq<PlanEntry>) -> Seq<FileView> {
    Seq::new(entries.len(), |i: int| entries[i]@)
}

/// What a restore would do. Making a plan changes nothing.
#[derive(Debug, PartialEq, Eq)]
pub struct RestorePlan {
    pub snapshot_id: i64,
    /// Files that are not there and will be created.
    pub create: Vec<PlanEntry>,
    /// Files that are there but differ and will be overwritten.
    pub overwrite: Vec<PlanEntry>,
    /// Tracked files that the snapshot lacks and that will be deleted.
    pub delete: Vec<String>,
}

/// A plan with its lists as sequences.
pub struct PlanView {
    pub create: Seq<FileView>,
    pub overwrite: Seq<FileView>,
    pub delete: Seq<Seq<char>>,
}

impl View for RestorePlan {
    type V = PlanView;

    open spec fn view(&self) -> PlanView {
        PlanView {
            create: entry_views(self.create@),
            overwrite: entry_views(self.overwrite@),
            delete: text::texts(self.delete@),
        }
    }
}

impl RestorePlan {
    /// Whether there is nothing to do.
    pub fn is_empty(&self) -> (r: bool)
        ensures
            r == (self@.create.len() == 0 && self@.overwrite.len() == 0 && self@.delete.len() == 0),
    {
        self.create.len() == 0 && self.overwrite.len() == 0 && self.delete.len() == 0
    }

    /// How many files the plan touches.
    pub fn total_changes(&self) -> (n: usize)
        requires
            self@.create.len() + self@.overwrite.len() + self@.delete.len() <= usize::MAX,
        ensures
            n == self@.create.len() + self@.overwrite.len() + self@.delete.len(),
    {
        self.create.len() + self.overwrite.len() + self.delete.len()
    }
}

/// The paths of files.
pub open spec fn paths_of(files: Seq<FileView>) -> Seq<Seq<char>> {
    Seq::new(files.len(), |i: int| files[i].path)
}

/// The paths that a restore looks at.
pub open spec fn candidates(selection: SelectionView, target: Files, current: Files) -> Set<
    Seq<char>,
> {
    match selection {
        SelectionView::All => target.dom().union(current.dom()),
        SelectionView::Paths(set) => set,
    }
}

/// `files` are the files of `target` at the paths of which `wanted` holds, in
/// path order.
pub open spec fn takes(
    files: Seq<FileView>,
    target: Files,
    wanted: spec_fn(Seq<char>) -> bool,
) -> bool {
    &&& text_map::ordered(paths_of(files))
    &&& forall|p: Seq<char>| #[trigger] paths_of(files).contains(p) <==> wanted(p)
    &&& forall|i: int| 0 <= i < files.len() ==> (#[trigger] files[i]) == target[files[i].path]
}

/// `plan` takes the candidates from the state `current` to the state `target`:
/// it creates what is missing, overwrites what differs, and deletes what the
/// target lacks, each in path order.
pub open spec fn is_plan(
    plan: PlanView,
    target: Files,
    current: Files,
    candidates: Set<Seq<char>>,
) -> bool {
    &&& takes(
        plan.create,
        target,
        |p: Seq<char>|
            candidates.contains(p) && target.contains_key(p) && !current.contains_key(p),
    )
    &&& takes(
        plan.overwrite,
        target,
        |p: Seq<char>|
            candidates.contains(p) && target.contains_key(p) && current.contains_key(p)
                && current[p].hash != target[p].hash,
    )
    &&& text_map::ordered(plan.delete)
    &&& forall|p: Seq<char>| #[trigger]
        plan.delete.contains(p) <==> candidates.contains(p) && !target.contains_key(p)
            && current.contains_key(p)
}

/// The least candidate that is not safe decides how planning fails.
pub open spec fn is_first_unsafe(candidates: Set<Seq<char>>, p: Seq<char>) -> bool {
    &&& candidates.contains(p)
    &&& !is_safe(p)
    &&& forall|q: Seq<char>| #[trigger] candidates.contains(q) && text::lt(q, p) ==> is_safe(q)
}

/// `chosen` are those of the first `n` keys at which `wanted` holds, in order.
spec fn selects(
    chosen: Seq<Seq<char>>,
    keys: Seq<Seq<char>>,
    n: int,
    wanted: spec_fn(Seq<char>) -> bool,
) -> bool {
    &&& text_map::ordered(chosen)
    &&& forall|p: Seq<char>| #[trigger] chosen.contains(p) <==> keys.take(n).contains(p) && wanted(p)
}

proof fn lemma_selects_none(keys: Seq<Seq<char>>, wanted: spec_fn(Seq<char>) -> bool)
    ensures
        selects(Seq::empty(), keys, 0, wanted),
{
}

proof fn lemma_take_contains(keys: Seq<Seq<char>>, n: int, p: Seq<char>)
    requires
        0 <= n < keys.len(),
    ensures
        keys.take(n + 1).contains(p) <==> keys.take(n).contains(p) || p == keys[n],
{
    let a = keys.take(n);
    let b = keys.take(n + 1);
    if a.contains(p) {
        let i = choose|i: int| 0 <= i < a.len() && a[i] == p;
        assert(b[i] == p);
    }
    if p == keys[n] {
        assert(b[n] == p);
    }
    if b.contains(p) {
        let i = choose|i: int| 0 <= i < b.len() && b[i] == p;
        if i < n {
            assert(a[i] == p);
        }
    }
}

proof fn lemma_selects_step(
    chosen: Seq<Seq<char>>,
    keys: Seq<Seq<char>>,
    n: int,
    wanted: spec_fn(Seq<char>) -> bool,
)
    requires
        selects(chosen, keys, n, wanted),
        0 <= n < keys.len(),
        text_map::ordered(keys),
    ensures
        wanted(keys[n]) ==> selects(chosen.push(keys[n]), keys, n + 1, wanted),
        !wanted(keys[n]) ==> selects(chosen, keys, n + 1, wanted),
{
    let key = keys[n];
    if wanted(key) {
        let after = chosen.push(key);
        assert forall|i: int, j: int| 0 <= i < j < after.len() implies text::lt(
            #[trigger] after[i],
            #[trigger] after[j],
        ) by {
            if j == chosen.len() {
                assert(chosen.contains(after[i]));
                let k = choose|k: int| 0 <= k < keys.take(n).len() && keys.take(n)[k] == after[i];
                assert(keys[k] == after[i]);
                assert(text::lt(keys[k], keys[n]));
            } else {
                assert(text::lt(chosen[i], chosen[j]));
            }
        }
        assert forall|p: Seq<char>| #[trigger] after.contains(p) <==> keys.take(n + 1).contains(p)
            && wanted(p) by {
            lemma_take_contains(keys, n, p);
            if chosen.contains(p) {
                let i = choose|i: int| 0 <= i < chosen.len() && chosen[i] == p;
                assert(after[i] == p);
            }
            if p == key {
                assert(after[chosen.len() as int] == p);
            }
            if after.contains(p) && p != key {
                let i = choose|i: int| 0 <= i < after.len() && after[i] == p;
                assert(chosen[i] == p);
            }
        }
    } else {
        assert forall|p: Seq<char>| #[trigger] chosen.contains(p) <==> keys.take(n + 1).contains(p)
            && wanted(p) by {
            lemma_take_contains(keys, n, p);
        }
    }
}

/// The paths that a restore looks at, in order.
fn candidate_set(selection: &Selection, target: &Manifest, current: &Manifest) -> (r: TextSet)
    ensures
        r@.dom() == candidates(selection@, target@, current@),
{
    let mut set: TextSet = TextMap::new();
    match selection {
        Selection::All => {
            add_paths(&mut set, target);
            add_paths(&mut set, current);
            proof {
                assert(set@.dom() =~= target@.dom().union(current@.dom()));
            }
        },
        Selection::Paths(chosen) => {
            let n: usize = chosen.len();
            let ghost keys = chosen.keys();
            let mut i: usize = 0;
            while i < n
                invariant
                    i <= n,
                    n == keys.len(),
                    keys == chosen.keys(),
                    forall|p: Seq<char>| #[trigger]
                        set@.dom().contains(p) <==> keys.take(i as int).contains(p),
                decreases n - i,
            {
                let ghost before = set@.dom();
                set.insert(chosen.key_at(i).clone(), ());
                proof {
                    assert forall|p: Seq<char>| #[trigger] set@.dom().contains(p) <==> keys.take(
                        i + 1,
                    ).contains(p) by {
                        lemma_take_contains(keys, i as int, p);
                        assert(before.contains(p) <==> keys.take(i as int).contains(p));
                    }
                }
                i += 1;
            }
            proof {
                assert(keys.take(i as int) =~= keys);
                assert(set@.dom() =~= chosen@.dom()) by {
                    assert forall|p: Seq<char>| set@.dom().contains(p) == chosen@.dom().contains(
                        p,
                    ) by {
                        assert(chosen@.contains_key(p) == keys.contains(p));
                    }
                }
            }
        },
    }
    set
}

fn add_paths(set: &mut TextSet, files: &Manifest)
    ensures
        final(set)@.dom() == old(set)@.dom().union(files@.dom()),
{
    let n: usize = files.len();
    let ghost keys = files.paths();
    let ghost start = set@.dom();
    let mut i: usize = 0;
    while i < n
        invariant
            i <= n,
            n == keys.len(),
            keys == files.paths(),
            forall|p: Seq<char>| #[trigger]
                set@.dom().contains(p) <==> start.contains(p) || keys.take(i as int).contains(p),
        decreases n - i,
    {
        let ghost before = set@.dom();
        set.insert(files.file_at(i).path.clone(), ());
        proof {
            assert forall|p: Seq<char>| #[trigger] set@.dom().contains(p) <==> start.contains(p)
                || keys.take(i + 1).contains(p) by {
                lemma_take_contains(keys, i as int, p);
                assert(before.contains(p) <==> start.contains(p) || keys.take(i as int).contains(p));
            }
        }
        i += 1;
    }
    proof {
        assert(keys.take(i as int) =~= keys);
        assert forall|p: Seq<char>| set@.dom().contains(p) == start.union(files@.dom()).contains(
            p,
        ) by {
            assert(files@.contains_key(p) == keys.contains(p));
        }
        assert(set@.dom() =~= start.union(files@.dom()));
    }
}

fn plan_entry(f: &SnapshotFile) -> (r: PlanEntry)
    ensures
        r@ == f@,
{
    PlanEntry { path: f.path.clone(), hash: f.hash.clone(), size: f.size, mode: f.mode }
}

/// Plans the restore of the snapshot `snapshot_id`, whose manifest is `target`
/// if there is such a snapshot, over the working tree `current` of `root`.
/// Planning fails if there is no such snapshot, or at the first candidate that
/// a restore may not touch.
pub fn plan(
    snapshot_id: i64,
    target: Option<&Manifest>,
    current: &Manifest,
    root: &str,
    selection: &Selection,
) -> (r: Result<RestorePlan, RewindError>)
    ensures
        match target {
            None => r matches Err(e) && e@ == ErrorView::SnapshotMissing(
                text::dec_signed(snapshot_id as int),
            ),
            Some(t) => planned(r, snapshot_id, t@, current@, root@, selection@),
        },
{
    match target {
        None => Err(RewindError::SnapshotMissing(text::show_signed(snapshot_id))),
        Some(t) => plan_from(snapshot_id, t, current, root, selection),
    }
}

/// What planning gives for a snapshot that is there: the plan if all candidates
/// are safe, else the refusal of the first that is not.
pub open spec fn planned(
    r: Result<RestorePlan, RewindError>,
    snapshot_id: i64,
    target: Files,
    current: Files,
    root: Seq<char>,
    selection: SelectionView,
) -> bool {
    let all = candidates(selection, target, current);
    match r {
        Ok(p) => {
            &&& p.snapshot_id == snapshot_id
            &&& is_plan(p@, target, current, all)
            &&& forall|q: Seq<char>| #[trigger] all.contains(q) ==> is_safe(q)
        },
        Err(e) => exists|p: Seq<char>| #[trigger] is_first_unsafe(all, p) && e@ == refusal(root, p),
    }
}

fn plan_from(
    snapshot_id: i64,
    target: &Manifest,
    current: &Manifest,
    root: &str,
    selection: &Selection,
) -> (r: Result<RestorePlan, RewindError>)
    ensures
        planned(r, snapshot_id, target@, current@, root@, selection@),
{
    let set = candidate_set(selection, target, current);
    let n: usize = set.len();
    let ghost keys = set.keys();
    let ghost cands = candidates(selection@, target@, current@);
    let ghost tv = target@;
    let ghost cv = current@;
    let ghost to_create = |p: Seq<char>|
        cands.contains(p) && tv.contains_key(p) && !cv.contains_key(p);
    let ghost to_overwrite = |p: Seq<char>|
        cands.contains(p) && tv.contains_key(p) && cv.contains_key(p) && cv[p].hash != tv[p].hash;
    let ghost to_delete = |p: Seq<char>|
        cands.contains(p) && !tv.contains_key(p) && cv.contains_key(p);
    let mut create: Vec<PlanEntry> = Vec::new();
    let mut overwrite: Vec<PlanEntry> = Vec::new();
    let mut delete: Vec<String> = Vec::new();
    let mut i: usize = 0;
    proof {
        lemma_selects_none(keys, to_create);
        lemma_selects_none(keys, to_overwrite);
        lemma_selects_none(keys, to_delete);
        assert(paths_of(entry_views(create@)) =~= Seq::<Seq<char>>::empty());
        assert(paths_of(entry_views(overwrite@)) =~= Seq::<Seq<char>>::empty());
        assert(text::texts(delete@) =~= Seq::<Seq<char>>::empty());
        assert forall|p: Seq<char>| #[trigger] cands.contains(p) == keys.contains(p) by {
            assert(set@.dom().contains(p) == set@.contains_key(p));
        }
    }
    while i < n
        invariant
            i <= n,
            n == keys.len(),
            keys == set.keys(),
            text_map::ordered(keys),
            cands == candidates(selection@, target@, current@),
            forall|p: Seq<char>| #[trigger] cands.contains(p) == keys.contains(p),
            tv == target@,
            cv == current@,
            to_create == (|p: Seq<char>|
                cands.contains(p) && tv.contains_key(p) && !cv.contains_key(p)),
            to_overwrite == (|p: Seq<char>|
                cands.contains(p) && tv.contains_key(p) && cv.contains_key(p) && cv[p].hash
                    != tv[p].hash),
            to_delete == (|p: Seq<char>|
                cands.contains(p) && !tv.contains_key(p) && cv.contains_key(p)),
            selects(paths_of(entry_views(create@)), keys, i as int, to_create),
            selects(paths_of(entry_views(overwrite@)), keys, i as int, to_overwrite),
            selects(text::texts(delete@), keys, i as int, to_delete),
            forall|k: int| 0 <= k < create@.len() ==> (#[trigger] create@[k])@ == tv[create@[k].path@],
            forall|k: int|
                0 <= k < overwrite@.len() ==> (#[trigger] overwrite@[k])@ == tv[overwrite@[k].path@],
            forall|k: int| 0 <= k < i ==> is_safe(#[trigger] keys[k]),
        decreases n - i,
    {
        let path = set.key_at(i);
        let ghost key = keys[i as int];
        proof {
            assert(keys.contains(key));
            assert(cands.contains(key));
            lemma_selects_step(paths_of(entry_views(create@)), keys, i as int, to_create);
            lemma_selects_step(paths_of(entry_views(overwrite@)), keys, i as int, to_overwrite);
            lemma_selects_step(text::texts(delete@), keys, i as int, to_delete);
        }
        match validate_rel_path(root, path.as_str()) {
            Ok(()) => {},
            Err(e) => {
                proof {
                    assert forall|q: Seq<char>| #[trigger]
                        cands.contains(q) && text::lt(q, key) implies is_safe(q) by {
                        let k = choose|k: int| 0 <= k < keys.len() && keys[k] == q;
                        text::lemma_lt_irreflexive(key);
                        if k > i {
                            assert(text::lt(keys[i as int], keys[k]));
                            text::lemma_lt_transitive(key, q, key);
                        }
                        assert(is_safe(keys[k]));
                    }
                    assert(is_first_unsafe(cands, key));
                    assert(e@ == refusal(root@, key));
                }
                return Err(e);
            },
        }
        let ghost was_create = create@;
        let ghost was_overwrite = overwrite@;
        let ghost was_delete = delete@;
        match target.get(path.as_str()) {
            Some(t) => match current.get(path.as_str()) {
                None => {
                    create.push(plan_entry(t));
                    proof {
                        assert(paths_of(entry_views(create@)) =~= paths_of(
                            entry_views(was_create),
                        ).push(key));
                    }
                },
                Some(cur) => if !text::same(cur.hash.as_str(), t.hash.as_str()) {
                    overwrite.push(plan_entry(t));
                    proof {
                        assert(paths_of(entry_views(overwrite@)) =~= paths_of(
                            entry_views(was_overwrite),
                        ).push(key));
                    }
                },
            },
            None => if current.contains(path.as_str()) {
                delete.push(path.clone());
                proof {
                    assert(text::texts(delete@) =~= text::texts(was_delete).push(key));
                }
            },
        }
        proof {
            assert forall|k: int| 0 <= k < create@.len() implies (#[trigger] create@[k])@
                == tv[create@[k].path@] by {
                if k < was_create.len() {
                    assert(create@[k] == was_create[k]);
                }
            }
            assert forall|k: int| 0 <= k < overwrite@.len() implies (#[trigger] overwrite@[k])@
                == tv[overwrite@[k].path@] by {
                if k < was_overwrite.len() {
                    assert(overwrite@[k] == was_overwrite[k]);
                }
            }
        }
        i += 1;
    }
    let r = RestorePlan { snapshot_id, create, overwrite, delete };
    proof {
        assert(keys.take(i as int) =~= keys);
        let v = r@;
        assert forall|k: int| 0 <= k < v.create.len() implies (#[trigger] v.create[k])
            == tv[v.create[k].path] by {
            assert(create@[k]@ == tv[create@[k].path@]);
        }
        assert forall|k: int| 0 <= k < v.overwrite.len() implies (#[trigger] v.overwrite[k])
            == tv[v.overwrite[k].path] by {
            assert(overwrite@[k]@ == tv[overwrite@[k].path@]);
        }
        assert(is_plan(v, tv, cv, cands));
        assert forall|q: Seq<char>| #[trigger] cands.contains(q) implies is_safe(q) by {
            let k = choose|k: int| 0 <= k < keys.len() && keys[k] == q;
            assert(is_safe(keys[k]));
        }
    }
    Ok(r)
}

// ---------------------------------------------------------------------------
// What a plan does
// ---------------------------------------------------------------------------

/// The hash that a plan writes to `p`, if it writes there.
pub open spec fn written_hash(plan: PlanView, p: Seq<char>) -> Option<Seq<char>> {
    if paths_of(plan.create).contains(p) {
        Some(plan.create[paths_of(plan.create).index_of(p)].hash)
    } else if paths_of(plan.overwrite).contains(p) {
        Some(plan.overwrite[paths_of(plan.overwrite).index_of(p)].hash)
    } else {
        None
    }
}

/// What carrying a plan out makes of a tree of `path -> hash`.
pub open spec fn carried_out(tree: Map<Seq<char>, Seq<char>>, plan: PlanView) -> Map<
    Seq<char>,
    Seq<char>,
> {
    Map::new(
        |p: Seq<char>|
            written_hash(plan, p) is Some || (tree.contains_key(p) && !plan.delete.contains(p)),
        |p: Seq<char>|
            match written_hash(plan, p) {
                Some(h) => h,
                None => tree[p],
            },
    )
}

/// Carrying out a plan brings every candidate to the state it has in the
/// target, and leaves every other path as it is.
pub proof fn lemma_plan_effect(
    plan: PlanView,
    target: Files,
    current: Files,
    candidates: Set<Seq<char>>,
    p: Seq<char>,
)
    requires
        is_plan(plan, target, current, candidates),
    ensures
        ({
            let after = carried_out(diff::tree_of(current), plan);
            let wanted = if candidates.contains(p) {
                target
            } else {
                current
            };
            &&& after.contains_key(p) == wanted.contains_key(p)
            &&& wanted.contains_key(p) ==> after[p] == wanted[p].hash
        }),
{
    let tree = diff::tree_of(current);
    assert(tree.contains_key(p) == current.contains_key(p));
    if current.contains_key(p) {
        assert(tree[p] == current[p].hash);
    }
    let created = paths_of(plan.create);
    let overwritten = paths_of(plan.overwrite);
    if created.contains(p) {
        let i = created.index_of(p);
        assert(plan.create[i].path == p);
    }
    if overwritten.contains(p) {
        let i = overwritten.index_of(p);
        assert(plan.overwrite[i].path == p);
    }
    assert(plan.delete.contains(p) <==> candidates.contains(p) && !target.contains_key(p)
        && current.contains_key(p));
}

/// Restoring a whole snapshot gives exactly the tree of the snapshot.
pub proof fn lemma_restore_gives_snapshot(plan: PlanView, target: Files, current: Files)
    requires
        is_plan(plan, target, current, candidates(SelectionView::All, target, current)),
    ensures
        carried_out(diff::tree_of(current), plan) == diff::tree_of(target),
{
    let after = carried_out(diff::tree_of(current), plan);
    let want = diff::tree_of(target);
    let all = candidates(SelectionView::All, target, current);
    assert forall|p: Seq<char>| #[trigger]
        after.dom().contains(p) == want.dom().contains(p) && (want.dom().contains(p) ==> after[p]
            == want[p]) by {
        lemma_plan_effect(plan, target, current, all, p);
    }
    assert(after.dom() =~= want.dom());
    assert(after =~= want);
}

/// Restoring selected paths touches no other path.
pub proof fn lemma_restore_selected_only(
    plan: PlanView,
    target: Files,
    current: Files,
    selected: Set<Seq<char>>,
    p: Seq<char>,
)
    requires
        is_plan(plan, target, current, candidates(SelectionView::Paths(selected), target, current)),
        !selected.contains(p),
    ensures
        written_hash(plan, p) is None,
        !plan.delete.contains(p),
        carried_out(diff::tree_of(current), plan).contains_key(p) == current.contains_key(p),
        current.contains_key(p) ==> carried_out(diff::tree_of(current), plan)[p] == current[p].hash,
{
    lemma_plan_effect(plan, target, current, selected, p);
}

/// Undoing a restore: once a restore has been carried out over the tree of
/// `before`, restoring the safety snapshot, which holds that tree, brings the
/// tree back.
pub proof fn lemma_undo_brings_back(
    done: PlanView,
    target: Files,
    before: Files,
    selection: SelectionView,
    after: Files,
    undo: PlanView,
)
    requires
        is_plan(done, target, before, candidates(selection, target, before)),
        diff::tree_of(after) == carried_out(diff::tree_of(before), done),
        is_plan(undo, before, after, candidates(SelectionView::All, before, after)),
    ensures
        carried_out(diff::tree_of(after), undo) == diff::tree_of(before),
{
    lemma_restore_gives_snapshot(undo, before, after);
}

/// Undoing a restore is possible: once a restore, of all paths or of some, has
/// been carried out over the tree of `before`, the plan that restores the safety
/// snapshot is made exactly if every path of `before` is safe, which is so after
/// every restore of all paths. Where it is made, it brings the tree back.
pub proof fn lemma_undo_is_planned(
    first: Result<RestorePlan, RewindError>,
    undo: Result<RestorePlan, RewindError>,
    snapshot_id: i64,
    safety_id: i64,
    target: Files,
    before: Files,
    after: Files,
    root: Seq<char>,
    selection: SelectionView,
)
    requires
        planned(first, snapshot_id, target, before, root, selection),
        first is Ok,
        diff::tree_of(after) == carried_out(diff::tree_of(before), first->Ok_0@),
        planned(undo, safety_id, before, after, root, SelectionView::All),
    ensures
        undo is Ok <==> forall|p: Seq<char>| #[trigger] before.contains_key(p) ==> is_safe(p),
        selection is All ==> undo is Ok,
        undo matches Ok(u) ==> carried_out(diff::tree_of(after), u@) == diff::tree_of(before),
{
    let done = first->Ok_0@;
    let looked_at = candidates(selection, target, before);
    let all = candidates(SelectionView::All, before, after);
    assert forall|p: Seq<char>| #[trigger] all.contains(p) implies before.contains_key(p)
        || is_safe(p) by {
        if !before.contains_key(p) {
            assert(after.contains_key(p));
            assert(diff::tree_of(after).contains_key(p));
            lemma_plan_effect(done, target, before, looked_at, p);
            assert(looked_at.contains(p));
        }
    }
    if forall|p: Seq<char>| #[trigger] before.contains_key(p) ==> is_safe(p) {
        assert forall|p: Seq<char>| #[trigger] all.contains(p) implies is_safe(p) by {
            assert(before.contains_key(p) || is_safe(p));
        }
        assert(forall|p: Seq<char>| !#[trigger] is_first_unsafe(all, p));
    }
    if undo is Ok {
        assert forall|p: Seq<char>| #[trigger] before.contains_key(p) implies is_safe(p) by {
            assert(all.contains(p));
        }
        lemma_undo_brings_back(done, target, before, selection, after, undo->Ok_0@);
    }
    if selection is All {
        assert forall|p: Seq<char>| #[trigger] before.contains_key(p) implies is_safe(p) by {
            assert(looked_at.contains(p));
        }
    }
}

/// A path that a scan finds is safe unless one of its components is `.git`.
pub proof fn lemma_scanned_is_safe(
    rules: tracking::RulesView,
    entries: Seq<tracking::EntryView>,
    p: Seq<char>,
)
    requires
        tracking::scanned(rules, entries).contains_key(p),
        forall|i: int|
            0 <= i < entries.len() ==> paths::is_plain_below(
                rules.root,
                (#[trigger] entries[i]).abs_path,
            ),
    ensures
        is_safe(p) <==> !paths::parts_of(p).contains(PartView::Normal(".git"@)),
{
    tracking::lemma_scan_obeys_rules(rules, entries, p);
    let i = choose|i: int|
        0 <= i < entries.len() && tracking::found_as(rules, #[trigger] entries[i]) == Some(p);
    let path = entries[i].abs_path;
    let n = paths::parts_of(rules.root).len() as int;
    let parts = paths::parts_of(p);
    paths::lemma_relative_parts(rules.root, path);
    assert forall|k: int| 0 <= k < parts.len() implies (#[trigger] parts[k]) is Normal by {
        assert(paths::parts_of(path)[n + k] is Normal);
    }
    if !parts.contains(PartView::Normal(".git"@)) {
        assert forall|k: int| 0 <= k < parts.len() implies is_safe_part(#[trigger] parts[k]) by {
            assert(parts[k] is Normal);
            assert(parts.contains(parts[k]));
        }
    } else {
        let k = parts.index_of(PartView::Normal(".git"@));
        assert(!is_safe_part(parts[k]));
    }
}

/// A plan is empty exactly if every candidate already has the state it has in
/// the target.
pub proof fn lemma_plan_empty(
    plan: PlanView,
    target: Files,
    current: Files,
    candidates: Set<Seq<char>>,
)
    requires
        is_plan(plan, target, current, candidates),
    ensures
        plan.create.len() == 0 && plan.overwrite.len() == 0 && plan.delete.len() == 0 <==> forall|
            p: Seq<char>,
        | #[trigger]
            candidates.contains(p) ==> target.contains_key(p) == current.contains_key(p) && (
            target.contains_key(p) ==> target[p].hash == current[p].hash),
{
    let same = forall|p: Seq<char>| #[trigger]
        candidates.contains(p) ==> target.contains_key(p) == current.contains_key(p) && (
        target.contains_key(p) ==> target[p].hash == current[p].hash);
    if plan.create.len() == 0 && plan.overwrite.len() == 0 && plan.delete.len() == 0 {
        assert forall|p: Seq<char>| #[trigger] candidates.contains(p) implies target.contains_key(p)
            == current.contains_key(p) && (target.contains_key(p) ==> target[p].hash
            == current[p].hash) by {
            assert(!paths_of(plan.create).contains(p));
            assert(!paths_of(plan.overwrite).contains(p));
            assert(!plan.delete.contains(p));
        }
    }
    if same {
        if plan.create.len() > 0 {
            let p = plan.create[0].path;
            assert(paths_of(plan.create)[0] == p);
            assert(paths_of(plan.create).contains(p));
            assert(candidates.contains(p));
        }
        if plan.overwrite.len() > 0 {
            let p = plan.overwrite[0].path;
            assert(paths_of(plan.overwrite)[0] == p);
            assert(paths_of(plan.overwrite).contains(p));
            assert(candidates.contains(p));
        }
        if plan.delete.len() > 0 {
            let p = plan.delete[0];
            assert(plan.delete.contains(p));
            assert(candidates.contains(p));
        }
    }
}

// ---------------------------------------------------------------------------
// Carrying a plan out
// ---------------------------------------------------------------------------

/// How many files a restore wrote and deleted.
#[derive(Debug, Clone, Copy, PartialEq, Eq)]
pub struct RestoreStats {
    pub written: usize,
    pub deleted: usize,
}

impl Default for RestoreStats {
    fn default() -> (r: RestoreStats)
        ensures
            r.written == 0,
            r.deleted == 0,
    {
        RestoreStats { written: 0, deleted: 0 }
    }
}

/// One thing to do to the working tree.
#[derive(Debug, PartialEq, Eq)]
pub enum RestoreOp {
    /// Write the object `hash` to the file `at`, with these permission bits.
    Write { at: String, hash: String, mode: u32 },
    /// Delete the file `at`.
    Delete { at: String },
}

/// An operation with its texts as sequences of characters.
pub enum OpView {
    Write { at: Seq<char>, hash: Seq<char>, mode: u32 },
    Delete { at: Seq<char> },
}

impl View for RestoreOp {
    type V = OpView;

    open spec fn view(&self) -> OpView {
        match self {
            RestoreOp::Write { at, hash, mode } => OpView::Write {
                at: at@,
                hash: hash@,
                mode: *mode,
            },
            RestoreOp::Delete { at } => OpView::Delete { at: at@ },
        }
    }
}

/// The views of a list of operations.
pub open spec fn op_views(ops: Seq<RestoreOp>) -> Seq<OpView> {
    Seq::new(ops.len(), |i: int| ops[i]@)
}

/// The operation that writes a file of a plan.
pub open spec fn write_op(root: Seq<char>, f: FileView) -> OpView {
    OpView::Write { at: paths::joined(root, f.path), hash: f.hash, mode: f.mode }
}

/// The operation that deletes a path of a plan.
pub open spec fn delete_op(root: Seq<char>, p: Seq<char>) -> OpView {
    OpView::Delete { at: paths::joined(root, p) }
}

/// The operations of a plan: it creates, then overwrites, then deletes.
pub open spec fn ops_of(root: Seq<char>, plan: PlanView) -> Seq<OpView> {
    Seq::new(plan.create.len(), |i: int| write_op(root, plan.create[i])) + Seq::new(
        plan.overwrite.len(),
        |i: int| write_op(root, plan.overwrite[i]),
    ) + Seq::new(plan.delete.len(), |i: int| delete_op(root, plan.delete[i]))
}

/// All paths of a plan, in the order of its operations.
pub open spec fn plan_paths(plan: PlanView) -> Seq<Seq<char>> {
    paths_of(plan.create) + paths_of(plan.overwrite) + plan.delete
}

/// `p` is the first of `all` that is not safe.
pub open spec fn fails_first_at(all: Seq<Seq<char>>, i: int) -> bool {
    0 <= i < all.len() && !is_safe(all[i]) && forall|j: int|
        0 <= j < i ==> is_safe(#[trigger] all[j])
}

fn push_writes(
    ops: &mut Vec<RestoreOp>,
    root: &str,
    entries: &Vec<PlanEntry>,
) -> (r: Result<(), RewindError>)
    ensures
        match r {
            Ok(()) => {
                &&& op_views(final(ops)@) == op_views(old(ops)@) + Seq::new(
                    entries@.len(),
                    |i: int| write_op(root@, entries@[i]@),
                )
                &&& forall|i: int|
                    0 <= i < entries@.len() ==> is_safe(#[trigger] paths_of(entry_views(entries@))[i])
            },
            Err(e) => exists|i: int| #[trigger]
                fails_first_at(paths_of(entry_views(entries@)), i) && e@ == refusal(
                    root@,
                    entries@[i].path@,
                ),
        },
{
    let ghost all = paths_of(entry_views(entries@));
    let ghost start = op_views(ops@);
    let ghost want = Seq::new(entries@.len(), |i: int| write_op(root@, entries@[i]@));
    let mut i: usize = 0;
    proof {
        assert(op_views(ops@) =~= start + want.take(0));
    }
    while i < entries.len()
        invariant
            i <= entries@.len(),
            all == paths_of(entry_views(entries@)),
            want == Seq::new(entries@.len(), |i: int| write_op(root@, entries@[i]@)),
            op_views(ops@) == start + want.take(i as int),
            forall|j: int| 0 <= j < i ==> is_safe(#[trigger] all[j]),
        decreases entries@.len() - i,
    {
        let e = &entries[i];
        proof {
            assert(all[i as int] == e.path@);
        }
        match safe_join(root, e.path.as_str()) {
            Ok(at) => {
                let ghost before = ops@;
                ops.push(RestoreOp::Write { at, hash: e.hash.clone(), mode: e.mode });
                proof {
                    assert(want[i as int] == write_op(root@, e@));
                    assert(want.take(i + 1) =~= want.take(i as int).push(want[i as int]));
                    assert(op_views(ops@) =~= op_views(before).push(want[i as int]));
                    assert(op_views(ops@) =~= start + want.take(i + 1));
                }
            },
            Err(why) => {
                proof {
                    assert(fails_first_at(all, i as int));
                }
                return Err(why);
            },
        }
        i += 1;
    }
    proof {
        assert(want.take(i as int) =~= want);
    }
    Ok(())
}

fn push_deletes(
    ops: &mut Vec<RestoreOp>,
    root: &str,
    rels: &Vec<String>,
) -> (r: Result<(), RewindError>)
    ensures
        match r {
            Ok(()) => {
                &&& op_views(final(ops)@) == op_views(old(ops)@) + Seq::new(
                    rels@.len(),
                    |i: int| delete_op(root@, rels@[i]@),
                )
                &&& forall|i: int| 0 <= i < rels@.len() ==> is_safe(#[trigger] text::texts(rels@)[i])
            },
            Err(e) => exists|i: int| #[trigger]
                fails_first_at(text::texts(rels@), i) && e@ == refusal(root@, rels@[i]@),
        },
{
    let ghost all = text::texts(rels@);
    let ghost start = op_views(ops@);
    let ghost want = Seq::new(rels@.len(), |i: int| delete_op(root@, rels@[i]@));
    let mut i: usize = 0;
    proof {
        assert(op_views(ops@) =~= start + want.take(0));
    }
    while i < rels.len()
        invariant
            i <= rels@.len(),
            all == text::texts(rels@),
            want == Seq::new(rels@.len(), |i: int| delete_op(root@, rels@[i]@)),
            op_views(ops@) == start + want.take(i as int),
            forall|j: int| 0 <= j < i ==> is_safe(#[trigger] all[j]),
        decreases rels@.len() - i,
    {
        proof {
            assert(all[i as int] == rels@[i as int]@);
        }
        match safe_join(root, rels[i].as_str()) {
            Ok(at) => {
                let ghost before = ops@;
                ops.push(RestoreOp::Delete { at });
                proof {
                    assert(want[i as int] == delete_op(root@, rels@[i as int]@));
                    assert(want.take(i + 1) =~= want.take(i as int).push(want[i as int]));
                    assert(op_views(ops@) =~= op_views(before).push(want[i as int]));
                    assert(op_views(ops@) =~= start + want.take(i + 1));
                }
            },
            Err(why) => {
                proof {
                    assert(fails_first_at(all, i as int));
                }
                return Err(why);
            },
        }
        i += 1;
    }
    proof {
        assert(want.take(i as int) =~= want);
    }
    Ok(())
}

/// How many of the operations write.
pub open spec fn count_writes(ops: Seq<OpView>) -> nat
    decreases ops.len(),
{
    if ops.len() == 0 {
        0
    } else {
        count_writes(ops.drop_last()) + if ops.last() is Write { 1nat } else { 0nat }
    }
}

/// A restore under way: its operations, how many of them are done, and what
/// they came to.
#[derive(Debug, PartialEq, Eq)]
pub struct RestoreRun {
    ops: Vec<RestoreOp>,
    next: usize,
    stats: RestoreStats,
}

impl RestoreRun {
    /// The operations.
    pub closed spec fn ops(self) -> Seq<OpView> {
        op_views(self.ops@)
    }

    /// How many operations are done.
    pub closed spec fn done(self) -> nat {
        self.next as nat
    }

    /// How many files were deleted.
    pub closed spec fn deleted(self) -> nat {
        self.stats.deleted as nat
    }

    #[verifier::type_invariant]
    spec fn inv(self) -> bool {
        &&& self.next <= self.ops@.len()
        &&& self.stats.written == count_writes(op_views(self.ops@).take(self.next as int))
        &&& self.stats.written + self.stats.deleted <= self.next
    }

    /// The next operation, if any is left.
    pub fn next_op(&self) -> (r: Option<&RestoreOp>)
        ensures
            match r {
                Some(op) => self.done() < self.ops().len() && op@ == self.ops()[self.done() as int],
                None => self.done() == self.ops().len(),
            },
    {
        proof {
            use_type_invariant(self);
        }
        if self.next < self.ops.len() {
            Some(&self.ops[self.next])
        } else {
            None
        }
    }

    /// The restore once its next operation is done. A file to be deleted may
    /// turn out not to be there, which is no failure and no deletion.
    pub fn op_done(self, was_there: bool) -> (r: RestoreRun)
        requires
            self.done() < self.ops().len(),
        ensures
            r.ops() == self.ops(),
            r.done() == self.done() + 1,
            r.deleted() == self.deleted() + if self.ops()[self.done() as int] is Delete && was_there {
                1nat
            } else {
                0nat
            },
    {
        proof {
            use_type_invariant(&self);
            let v = op_views(self.ops@);
            assert(v.take(self.next + 1).drop_last() =~= v.take(self.next as int));
        }
        let RestoreRun { ops, next, stats } = self;
        let mut stats = stats;
        let n: usize = ops.len();
        assert(next < n);
        match &ops[next] {
            RestoreOp::Write { .. } => {
                stats.written = stats.written + 1;
            },
            RestoreOp::Delete { .. } => {
                if was_there {
                    stats.deleted = stats.deleted + 1;
                }
            },
        }
        RestoreRun { ops, next: next + 1, stats }
    }

    /// How many files were written and deleted so far: every write counts, and
    /// every deletion of a file that was there.
    pub fn stats(&self) -> (r: RestoreStats)
        ensures
            r.written == count_writes(self.ops().take(self.done() as int)),
            r.deleted == self.deleted(),
    {
        proof {
            use_type_invariant(self);
        }
        self.stats
    }
}

/// Begins to carry out a plan. Every path is checked again before anything is
/// touched, and one that is not safe stops the whole restore.
pub fn apply(root: &str, plan: &RestorePlan) -> (r: Result<RestoreRun, RewindError>)
    ensures
        match r {
            Ok(run) => {
                &&& run.ops() == ops_of(root@, plan@)
                &&& run.done() == 0
                &&& run.deleted() == 0
                &&& forall|i: int|
                    0 <= i < plan_paths(plan@).len() ==> is_safe(#[trigger] plan_paths(plan@)[i])
            },
            Err(e) => exists|i: int| #[trigger]
                fails_first_at(plan_paths(plan@), i) && e@ == refusal(root@, plan_paths(plan@)[i]),
        },
{
    let ghost all = plan_paths(plan@);
    let ghost created = paths_of(plan@.create);
    let ghost overwritten = paths_of(plan@.overwrite);
    let mut ops: Vec<RestoreOp> = Vec::new();
    proof {
        assert(op_views(ops@) =~= Seq::<OpView>::empty());
    }
    match push_writes(&mut ops, root, &plan.create) {
        Ok(()) => {},
        Err(e) => {
            proof {
                let i = choose|i: int| #[trigger]
                    fails_first_at(created, i) && e@ == refusal(root@, plan.create@[i].path@);
                assert(all[i] == created[i]);
                assert forall|j: int| 0 <= j < i implies is_safe(#[trigger] all[j]) by {
                    assert(all[j] == created[j]);
                }
                assert(fails_first_at(all, i));
            }
            return Err(e);
        },
    }
    proof {
        assert(op_views(ops@) =~= Seq::new(
            plan@.create.len(),
            |i: int| write_op(root@, plan@.create[i]),
        ));
    }
    match push_writes(&mut ops, root, &plan.overwrite) {
        Ok(()) => {},
        Err(e) => {
            proof {
                let i = choose|i: int| #[trigger]
                    fails_first_at(overwritten, i) && e@ == refusal(root@, plan.overwrite@[i].path@);
                let k = created.len() + i;
                assert(all[k] == overwritten[i]);
                assert forall|j: int| 0 <= j < k implies is_safe(#[trigger] all[j]) by {
                    if j < created.len() {
                        assert(all[j] == created[j]);
                    } else {
                        assert(all[j] == overwritten[j - created.len()]);
                    }
                }
                assert(fails_first_at(all, k));
            }
            return Err(e);
        },
    }
    match push_deletes(&mut ops, root, &plan.delete) {
        Ok(()) => {},
        Err(e) => {
            proof {
                let i = choose|i: int| #[trigger]
                    fails_first_at(plan@.delete, i) && e@ == refusal(root@, plan.delete@[i]@);
                let k = created.len() + overwritten.len() + i;
                assert(all[k] == plan@.delete[i]);
                assert forall|j: int| 0 <= j < k implies is_safe(#[trigger] all[j]) by {
                    if j < created.len() {
                        assert(all[j] == created[j]);
                    } else if j < created.len() + overwritten.len() {
                        assert(all[j] == overwritten[j - created.len()]);
                    } else {
                        assert(all[j] == plan@.delete[j - created.len() - overwritten.len()]);
                    }
                }
                assert(fails_first_at(all, k));
            }
            return Err(e);
        },
    }
    proof {
        assert(op_views(ops@) =~= ops_of(root@, plan@));
        assert forall|j: int| 0 <= j < all.len() implies is_safe(#[trigger] all[j]) by {
            if j < created.len() {
                assert(all[j] == created[j]);
            } else if j < created.len() + overwritten.len() {
                assert(all[j] == overwritten[j - created.len()]);
            } else {
                assert(all[j] == plan@.delete[j - created.len() - overwritten.len()]);
            }
        }
        assert(op_views(ops@).take(0) =~= Seq::<OpView>::empty());
    }
    Ok(RestoreRun { ops, next: 0, stats: RestoreStats { written: 0, deleted: 0 } })
}

proof fn lemma_count_writes_concat(a: Seq<OpView>, b: Seq<OpView>)
    ensures
        count_writes(a + b) == count_writes(a) + count_writes(b),
    decreases b.len(),
{
    if b.len() == 0 {
        assert(a + b =~= a);
    } else {
        assert((a + b).drop_last() =~= a + b.drop_last());
        lemma_count_writes_concat(a, b.drop_last());
    }
}

proof fn lemma_count_writes_all(a: Seq<OpView>, yes: bool)
    requires
        forall|i: int| 0 <= i < a.len() ==> (#[trigger] a[i] is Write) == yes,
    ensures
        count_writes(a) == if yes {
            a.len()
        } else {
            0
        },
    decreases a.len(),
{
    if a.len() > 0 {
        lemma_count_writes_all(a.drop_last(), yes);
    }
}

/// A restore carried out to the end has written every created and overwritten
/// file.
pub proof fn lemma_all_written(root: Seq<char>, plan: PlanView)
    ensures
        count_writes(ops_of(root, plan)) == plan.create.len() + plan.overwrite.len(),
{
    let a = Seq::new(plan.create.len(), |i: int| write_op(root, plan.create[i]));
    let b = Seq::new(plan.overwrite.len(), |i: int| write_op(root, plan.overwrite[i]));
    let c = Seq::new(plan.delete.len(), |i: int| delete_op(root, plan.delete[i]));
    lemma_count_writes_concat(a + b, c);
    lemma_count_writes_concat(a, b);
    lemma_count_writes_all(a, true);
    lemma_count_writes_all(b, true);
    lemma_count_writes_all(c, false);
}

/// A plan that was made is carried out: none of its paths is refused.
pub proof fn lemma_plan_is_safe(
    plan: PlanView,
    target: Files,
    current: Files,
    candidates: Set<Seq<char>>,
    i: int,
)
    requires
        is_plan(plan, target, current, candidates),
        forall|q: Seq<char>| #[trigger] candidates.contains(q) ==> is_safe(q),
        0 <= i < plan_paths(plan).len(),
    ensures
        is_safe(plan_paths(plan)[i]),
{
    let created = paths_of(plan.create);
    let overwritten = paths_of(plan.overwrite);
    let p = plan_paths(plan)[i];
    if i < created.len() {
        assert(created[i] == p);
        assert(created.contains(p));
    } else if i < created.len() + overwritten.len() {
        assert(overwritten[i - created.len()] == p);
        assert(overwritten.contains(p));
    } else {
        assert(plan.delete[i - created.len() - overwritten.len()] == p);
        assert(plan.delete.contains(p));
    }
    assert(candidates.contains(p));
}

/// Where an operation takes effect.
pub open spec fn place_of(op: OpView) -> Seq<char> {
    match op {
        OpView::Write { at, .. } => at,
        OpView::Delete { at } => at,
    }
}

/// A file on disk: the hash of its content, and its permission bits.
pub struct OnDisk {
    pub hash: Seq<char>,
    pub mode: u32,
}

/// The files on disk, by place, after the operations in order.
pub open spec fn performed(disk: Map<Seq<char>, OnDisk>, ops: Seq<OpView>) -> Map<
    Seq<char>,
    OnDisk,
>
    decreases ops.len(),
{
    if ops.len() == 0 {
        disk
    } else {
        let before = performed(disk, ops.drop_last());
        match ops.last() {
            OpView::Write { at, hash, mode } => before.insert(at, OnDisk { hash, mode }),
            OpView::Delete { at } => before.remove(at),
        }
    }
}

proof fn lemma_untouched(disk: Map<Seq<char>, OnDisk>, ops: Seq<OpView>, at: Seq<char>)
    requires
        forall|j: int| 0 <= j < ops.len() ==> place_of(#[trigger] ops[j]) != at,
    ensures
        performed(disk, ops).contains_key(at) == disk.contains_key(at),
        disk.contains_key(at) ==> performed(disk, ops)[at] == disk[at],
    decreases ops.len(),
{
    if ops.len() > 0 {
        let front = ops.drop_last();
        assert forall|j: int| 0 <= j < front.len() implies place_of(#[trigger] front[j]) != at by {
            assert(front[j] == ops[j]);
        }
        lemma_untouched(disk, front, at);
        assert(place_of(ops[ops.len() - 1]) != at);
    }
}

proof fn lemma_last_touch(
    disk: Map<Seq<char>, OnDisk>,
    ops: Seq<OpView>,
    at: Seq<char>,
    i: int,
)
    requires
        0 <= i < ops.len(),
        place_of(ops[i]) == at,
        forall|j: int| i < j < ops.len() ==> place_of(#[trigger] ops[j]) != at,
    ensures
        match ops[i] {
            OpView::Write { hash, mode, .. } => performed(disk, ops).contains_key(at) && performed(
                disk,
                ops,
            )[at] == (OnDisk { hash, mode }),
            OpView::Delete { .. } => !performed(disk, ops).contains_key(at),
        },
    decreases ops.len(),
{
    if i < ops.len() - 1 {
        let front = ops.drop_last();
        assert(front[i] == ops[i]);
        assert forall|j: int| i < j < front.len() implies place_of(#[trigger] front[j]) != at by {
            assert(front[j] == ops[j]);
        }
        lemma_last_touch(disk, front, at, i);
        assert(place_of(ops[ops.len() - 1]) != at);
    }
}

proof fn lemma_safe_has_parts(rel: Seq<char>)
    requires
        is_safe(rel),
    ensures
        paths::start_parts(rel) == Seq::<PartView>::empty(),
        paths::parts_of(rel).len() > 0,
{
    let parts = paths::parts_of(rel);
    let start = paths::start_parts(rel);
    if start.len() > 0 {
        assert(parts[0] == start[0]);
        assert(is_safe_part(parts[0]));
    }
    assert(start =~= Seq::<PartView>::empty());
    paths::lemma_some_part(rel);
}

/// The name of a temporary file is one that a restore may touch.
proof fn lemma_temp_is_safe(pid: nat)
    ensures
        is_safe(temp_name(pid)),
{
    let name = temp_name(pid);
    let part = PartView::Normal(name);
    reveal_strlit(".rewind-tmp-");
    reveal_strlit(".git");
    assert(name[1] == 'r');
    text::lemma_dec_digits(pid);
    assert(!name.contains('/')) by {
        if name.contains('/') {
            let i = name.index_of('/');
            if i < ".rewind-tmp-"@.len() {
                assert(".rewind-tmp-"@[i] == '/');
            } else {
                assert(text::dec(pid)[i - ".rewind-tmp-"@.len()] == '/');
            }
        }
    }
    assert(paths::is_proper(part));
    paths::lemma_one_part(name);
}

proof fn lemma_safe_is_relative(rel: Seq<char>)
    requires
        is_safe(rel),
    ensures
        rel[0] != '/',
{
    if rel[0] == '/' {
        assert(paths::parts_of(rel)[0] == PartView::Root);
    }
}

/// Different safe paths lie in different places.
proof fn lemma_places_differ(root: Seq<char>, a: Seq<char>, b: Seq<char>)
    requires
        is_safe(a),
        is_safe(b),
        paths::joined(root, a) == paths::joined(root, b),
    ensures
        a == b,
{
    lemma_safe_is_relative(a);
    lemma_safe_is_relative(b);
    let prefix = if root.len() > 0 && root.last() != '/' {
        root + seq!['/']
    } else {
        root
    };
    assert(paths::joined(root, a) =~= prefix + a);
    assert(paths::joined(root, b) =~= prefix + b);
    assert((prefix + a).skip(prefix.len() as int) =~= a);
    assert((prefix + b).skip(prefix.len() as int) =~= b);
}

proof fn lemma_op_paths(root: Seq<char>, plan: PlanView, i: int)
    requires
        0 <= i < ops_of(root, plan).len(),
    ensures
        i < plan_paths(plan).len(),
        place_of(ops_of(root, plan)[i]) == paths::joined(root, plan_paths(plan)[i]),
        ops_of(root, plan)[i] is Delete <==> i >= plan.create.len() + plan.overwrite.len(),
{
}

/// The operations of a plan, performed one after the other on the files below
/// `root`, carry out the plan: wherever a safe path `p` held what it holds in
/// `current`, it then holds what carrying out the plan gives it. What the plan
/// writes has the content and the permission bits of the target, and what it
/// leaves stays as it is.
pub proof fn lemma_ops_carry_out_plan(
    root: Seq<char>,
    plan: PlanView,
    target: Files,
    current: Files,
    candidates: Set<Seq<char>>,
    disk: Map<Seq<char>, OnDisk>,
    p: Seq<char>,
)
    requires
        is_plan(plan, target, current, candidates),
        forall|q: Seq<char>| #[trigger] candidates.contains(q) ==> is_safe(q),
        is_safe(p),
        disk.contains_key(paths::joined(root, p)) == current.contains_key(p),
        current.contains_key(p) ==> disk[paths::joined(root, p)].hash == current[p].hash,
    ensures
        ({
            let after = performed(disk, ops_of(root, plan));
            let at = paths::joined(root, p);
            let wanted = carried_out(diff::tree_of(current), plan);
            &&& after.contains_key(at) == wanted.contains_key(p)
            &&& wanted.contains_key(p) ==> after[at].hash == wanted[p]
            &&& written_hash(plan, p) is Some ==> after[at] == (OnDisk {
                hash: target[p].hash,
                mode: target[p].mode,
            })
            &&& written_hash(plan, p) is None && wanted.contains_key(p) ==> after[at] == disk[at]
        }),
{
    let ops = ops_of(root, plan);
    let all = plan_paths(plan);
    let at = paths::joined(root, p);
    let created = paths_of(plan.create);
    let overwritten = paths_of(plan.overwrite);
    let c = created.len() as int;
    let w = c + overwritten.len();
    assert(all.len() == ops.len());
    assert forall|j: int| 0 <= j < ops.len() && place_of(#[trigger] ops[j]) == at implies all[j]
        == p by {
        lemma_op_paths(root, plan, j);
        lemma_plan_is_safe(plan, target, current, candidates, j);
        lemma_places_differ(root, all[j], p);
    }
    lemma_plan_effect(plan, target, current, candidates, p);
    lemma_only_once(plan, target, current, candidates);
    if all.contains(p) {
        let i = all.index_of(p);
        lemma_op_paths(root, plan, i);
        assert forall|j: int| i < j < ops.len() implies place_of(#[trigger] ops[j]) != at by {
            if place_of(ops[j]) == at {
                assert(all[j] == p && all[i] == p);
            }
        }
        lemma_last_touch(disk, ops, at, i);
        if i < c {
            assert(created[i] == p);
            assert(plan.create[i].path == p);
            assert(created.contains(p));
            assert(plan.create[i] == target[p]);
        } else if i < w {
            assert(overwritten[i - c] == p);
            assert(plan.overwrite[i - c].path == p);
            assert(overwritten.contains(p));
            assert(plan.overwrite[i - c] == target[p]);
        } else {
            assert(plan.delete[i - w] == p);
            assert(plan.delete.contains(p));
        }
    } else {
        assert forall|j: int| 0 <= j < ops.len() implies place_of(#[trigger] ops[j]) != at by {
            if place_of(ops[j]) == at {
                assert(all[j] == p);
            }
        }
        lemma_untouched(disk, ops, at);
        assert(!created.contains(p)) by {
            if created.contains(p) {
                let i = created.index_of(p);
                assert(all[i] == p);
            }
        }
        assert(!overwritten.contains(p)) by {
            if overwritten.contains(p) {
                let i = overwritten.index_of(p);
                assert(all[c + i] == p);
            }
        }
        assert(!plan.delete.contains(p)) by {
            if plan.delete.contains(p) {
                let i = plan.delete.index_of(p);
                assert(all[w + i] == p);
            }
        }
    }
}

/// Restoring a whole snapshot over the files on disk gives the snapshot: each of
/// its files is there with its content, and with its permission bits if it was
/// missing or differed before, and what the working tree had beyond it is gone.
pub proof fn lemma_restored_on_disk(
    root: Seq<char>,
    plan: PlanView,
    target: Files,
    current: Files,
    disk: Map<Seq<char>, OnDisk>,
    p: Seq<char>,
)
    requires
        is_plan(plan, target, current, target.dom().union(current.dom())),
        forall|q: Seq<char>|
            target.contains_key(q) || current.contains_key(q) ==> #[trigger] is_safe(q),
        is_safe(p),
        disk.contains_key(paths::joined(root, p)) == current.contains_key(p),
        current.contains_key(p) ==> disk[paths::joined(root, p)].hash == current[p].hash,
    ensures
        ({
            let after = performed(disk, ops_of(root, plan));
            let at = paths::joined(root, p);
            &&& after.contains_key(at) == target.contains_key(p)
            &&& target.contains_key(p) ==> after[at].hash == target[p].hash
            &&& target.contains_key(p) && !(current.contains_key(p) && current[p].hash
                == target[p].hash) ==> after[at].mode == target[p].mode
            &&& target.contains_key(p) && current.contains_key(p) && current[p].hash
                == target[p].hash ==> after[at] == disk[at]
        }),
{
    let all = target.dom().union(current.dom());
    assert forall|q: Seq<char>| #[trigger] all.contains(q) implies is_safe(q) by {
        assert(target.contains_key(q) || current.contains_key(q));
    }
    lemma_ops_carry_out_plan(root, plan, target, current, all, disk, p);
    lemma_plan_effect(plan, target, current, all, p);
    let created = paths_of(plan.create);
    let overwritten = paths_of(plan.overwrite);
    assert(created.contains(p) <==> all.contains(p) && target.contains_key(p)
        && !current.contains_key(p));
    assert(overwritten.contains(p) <==> all.contains(p) && target.contains_key(p)
        && current.contains_key(p) && current[p].hash != target[p].hash);
}

/// The operations of a plan leave every place alone that is not the place of
/// one of its paths.
pub proof fn lemma_ops_touch_plan_only(
    root: Seq<char>,
    plan: PlanView,
    disk: Map<Seq<char>, OnDisk>,
    at: Seq<char>,
)
    requires
        forall|i: int|
            0 <= i < plan_paths(plan).len() ==> paths::joined(root, #[trigger] plan_paths(plan)[i])
                != at,
    ensures
        performed(disk, ops_of(root, plan)).contains_key(at) == disk.contains_key(at),
        disk.contains_key(at) ==> performed(disk, ops_of(root, plan))[at] == disk[at],
{
    let ops = ops_of(root, plan);
    assert forall|j: int| 0 <= j < ops.len() implies place_of(#[trigger] ops[j]) != at by {
        lemma_op_paths(root, plan, j);
    }
    lemma_untouched(disk, ops, at);
}

/// No path occurs twice in a plan.
proof fn lemma_only_once(
    plan: PlanView,
    target: Files,
    current: Files,
    candidates: Set<Seq<char>>,
)
    requires
        is_plan(plan, target, current, candidates),
    ensures
        plan_paths(plan).no_duplicates(),
{
    let created = paths_of(plan.create);
    let overwritten = paths_of(plan.overwrite);
    let all = plan_paths(plan);
    let c = created.len() as int;
    let w = c + overwritten.len();
    text_map::lemma_ordered_distinct(created);
    text_map::lemma_ordered_distinct(overwritten);
    text_map::lemma_ordered_distinct(plan.delete);
    assert forall|i: int, j: int| 0 <= i < j < all.len() implies all[i] != all[j] by {
        if j < c {
            assert(created[i] != created[j]);
        } else if j < w {
            assert(overwritten.contains(overwritten[j - c]));
            if i < c {
                assert(created.contains(created[i]));
            } else {
                assert(overwritten[i - c] != overwritten[j - c]);
            }
        } else {
            assert(plan.delete.contains(plan.delete[j - w]));
            if i < c {
                assert(created.contains(created[i]));
            } else if i < w {
                assert(overwritten.contains(overwritten[i - c]));
            } else {
                assert(plan.delete[i - w] != plan.delete[j - w]);
            }
        }
    }
}

/// The name of the temporary file of the process `pid`.
pub open spec fn temp_name(pid: nat) -> Seq<char> {
    ".rewind-tmp-"@ + text::dec(pid)
}

/// The job that writes the file `at` in one step, by way of a temporary file
/// that carries the process number `pid`.
pub fn write_file(at: &str, pid: u32) -> (r: Result<WriteJob, RewindError>)
    ensures
        match paths::above(at@) {
            Some(dir) => r matches Ok(job) && {
                &&& job.target@ == at@
                &&& job.dir@ == dir
                &&& job.temp@ == paths::joined(dir, temp_name(pid as nat))
                &&& !job.keep_existing
                &&& job.step == crate::write_job::Step::MakeDir
            },
            None => r matches Err(e) && e@ == ErrorView::Other("restore path has no parent"@),
        },
{
    match paths::parent(at) {
        None => Err(RewindError::other("restore path has no parent")),
        Some(dir) => {
            let mut name = ".rewind-tmp-".to_string();
            text::push_dec(&mut name, pid as u128);
            Ok(WriteJob::new(at.to_string(), dir, name.as_str(), false))
        },
    }
}

/// All that a write of a restore touches stays inside the repository: there is a
/// directory of the file, and the file, the directory and the temporary file in
/// it lie below the root, none of them in `.git`.
pub proof fn lemma_write_confined(root: Seq<char>, rel: Seq<char>, pid: nat)
    requires
        is_safe(rel),
    ensures
        ({
            let at = paths::joined(root, rel);
            let dir = paths::above(at);
            &&& dir is Some
            &&& stays_below(root, at)
            &&& stays_below(root, dir->0)
            &&& stays_below(root, paths::joined(dir->0, temp_name(pid)))
        }),
{
    let at = paths::joined(root, rel);
    let all = paths::parts_of(at);
    let n = paths::parts_of(root).len();
    lemma_confined(root, rel);
    lemma_safe_has_parts(rel);
    paths::lemma_joined_parts(root, rel);
    assert(all.last() == paths::parts_of(rel).last());
    assert(is_safe_part(paths::parts_of(rel)[paths::parts_of(rel).len() - 1]));
    let dir = paths::above(at)->0;
    assert(all.drop_last() =~= all.take(all.len() - 1));
    paths::lemma_rendered_parts(at, all.len() - 1);
    let up = paths::parts_of(dir);
    assert(paths::parts_of(root) =~= up.subrange(0, n as int));
    assert forall|i: int| n <= i < up.len() implies is_safe_part(#[trigger] up[i]) by {
        assert(up[i] == all[i]);
    }
    let name = temp_name(pid);
    lemma_temp_is_safe(pid);
    lemma_confined(dir, name);
    let temp = paths::parts_of(paths::joined(dir, name));
    assert(up =~= temp.subrange(0, up.len() as int));
    assert(paths::parts_of(root) =~= temp.subrange(0, n as int));
    assert forall|i: int| n <= i < temp.len() implies is_safe_part(#[trigger] temp[i]) by {
        if i < up.len() {
            assert(up[i] == temp[i]);
        }
    }
}

/// The permission bits to give a written file, if any are known.
pub fn mode_to_set(mode: u32) -> (r: Option<u32>)
    ensures
        r == if mode == 0 {
            None::<u32>
        } else {
            Some(mode)
        },
{
    if mode == 0 {
        None
    } else {
        Some(mode)
    }
}

/// The manifest of the working tree, from the hash, size and mode of each
/// tracked file.
pub fn current_manifest(files: &Vec<SnapshotFile>) -> (r: Manifest)
    ensures
        r@ == snapshot::by_path(snapshot::file_views(files@)),
{
    snapshot::manifest_map(files)
}

proof fn lemma_kept_piece(pieces: Seq<Seq<char>>, i: int)
    requires
        0 <= i < pieces.len(),
        pieces[i].len() > 0,
        pieces[i] != seq!['.'],
    ensures
        paths::kept_parts(pieces).contains(
            if pieces[i] == seq!['.', '.'] {
                PartView::Parent
            } else {
                PartView::Normal(pieces[i])
            },
        ),
    decreases pieces.len(),
{
    let want = if pieces[i] == seq!['.', '.'] {
        PartView::Parent
    } else {
        PartView::Normal(pieces[i])
    };
    let front = pieces.drop_last();
    let all = paths::kept_parts(pieces);
    if i == pieces.len() - 1 {
        assert(all.last() == want);
    } else {
        lemma_kept_piece(front, i);
        let before = paths::kept_parts(front);
        let k = choose|k: int| 0 <= k < before.len() && before[k] == want;
        assert(all[k] == want);
    }
}

/// A path of plain names can be restored.
pub proof fn lemma_plain_path_is_safe(names: Seq<Seq<char>>)
    requires
        names.len() > 0,
        paths::laws::all_names(names),
        forall|i: int| 0 <= i < names.len() ==> (#[trigger] names[i]) != ".git"@,
    ensures
        is_safe(text::joined(names, seq!['/'])),
{
    paths::laws::lemma_parts_of_names(names);
    let rel = text::joined(names, seq!['/']);
    if rel.len() == 0 {
        assert(text::pieces_of(rel, '/') =~= seq![rel]);
        reveal_with_fuel(paths::kept_parts, 2);
        assert(paths::parts_of(rel).len() == 0);
    }
    assert forall|i: int| 0 <= i < paths::parts_of(rel).len() implies is_safe_part(
        #[trigger] paths::parts_of(rel)[i],
    ) by {
        assert(paths::parts_of(rel)[i] == PartView::Normal(names[i]));
    }
}

/// A path that is empty, starts at the root, goes up or leads into the internals
/// of version control is never restored.
pub proof fn lemma_unsafe_paths(rel: Seq<char>, i: int)
    ensures
        rel.len() == 0 ==> !is_safe(rel),
        rel.len() > 0 && rel[0] == '/' ==> !is_safe(rel),
        0 <= i < text::pieces_of(rel, '/').len() && (text::pieces_of(rel, '/')[i] == seq!['.', '.']
            || text::pieces_of(rel, '/')[i] == ".git"@) ==> !is_safe(rel),
{
    reveal_strlit(".git");
    let pieces = text::pieces_of(rel, '/');
    let parts = paths::parts_of(rel);
    let start = paths::start_parts(rel);
    let kept = paths::kept_parts(pieces);
    if rel.len() > 0 && rel[0] == '/' {
        assert(parts[0] == PartView::Root);
        assert(!is_safe_part(parts[0]));
    }
    if 0 <= i < pieces.len() && (pieces[i] == seq!['.', '.'] || pieces[i] == ".git"@) {
        assert(pieces[i] != seq!['.']) by {
            assert(pieces[i].len() != seq!['.'].len());
        }
        lemma_kept_piece(pieces, i);
        let bad = if pieces[i] == seq!['.', '.'] {
            PartView::Parent
        } else {
            PartView::Normal(".git"@)
        };
        assert(".git"@ != seq!['.', '.']) by {
            assert(".git"@.len() != seq!['.', '.'].len());
        }
        let k = choose|k: int| 0 <= k < kept.len() && kept[k] == bad;
        assert(parts[start.len() + k] == bad);
        assert(!is_safe_part(parts[start.len() + k]));
    }
}

} // verus!
