//! Laws of tracked files, snapshots, their differences, and restores.

use vstd::prelude::*;

use crate::diff;
use crate::diff::FileChange;
use crate::diff::LineStat;
use crate::error::ErrorView;
use crate::error::RewindError;
use crate::models::NewSnapshot;
use crate::models::Restore;
use crate::models::SnapshotFile;
use crate::objects::HashStream;
use crate::objects;
use crate::objects::Loaded;
use crate::objects::ObjectStore;
use crate::objects::ReadOutcome;
use crate::paths;
use crate::repo::GitState;
use crate::restore;
use crate::restore::OpView;
use crate::restore::RestoreOp;
use crate::restore::RestorePlan;
use crate::restore::RestoreRun;
use crate::restore::Selection;
use crate::restore::SelectionView;
use crate::session;
use crate::snapshot;
use crate::snapshot::Manifest;
use crate::snapshot::SnapshotBuilder;
use crate::text;
use crate::tracking::Scan;
use crate::tracking::watcher::Debouncer;
use crate::tracking::watcher;
use crate::tracking;
use crate::tracking::IgnoreReason;
use crate::tracking::IgnoreRules;
use crate::write_job::Outcome;
use crate::write_job::OutcomeView;
use crate::write_job::StepView;
use crate::write_job::WriteJob;
use crate::write_job;

verus! {

// ---------------------------------------------------------------------------
// Tracked files
// ---------------------------------------------------------------------------

/// A file is taken for binary if there is a zero byte among its first 8192, and
/// for no other reason. Text in any script is text.
pub proof fn lemma_binary(head: &[u8], r: bool, i: int)
    requires
        call_ensures(tracking::is_binary, (head,), r),
    ensures
        0 <= i < head@.len() && i < 8192 && head@[i] == 0 ==> r,
        (forall|k: int| 0 <= k < head@.len() && k < 8192 ==> head@[k] != 0) ==> !r,
{
}

/// Two beginnings with the same zero bytes are taken for the same sort of file,
/// whatever else they hold.
pub proof fn lemma_only_zeros_count(a: &[u8], b: &[u8], ra: bool, rb: bool)
    requires
        call_ensures(tracking::is_binary, (a,), ra),
        call_ensures(tracking::is_binary, (b,), rb),
        a@.len() == b@.len(),
        forall|k: int| 0 <= k < a@.len() ==> (#[trigger] a@[k] == 0 <==> b@[k] == 0),
    ensures
        ra == rb,
{
    if ra {
        let k = choose|k: int| 0 <= k < a@.len() && k < 8192 && #[trigger] a@[k] == 0;
        assert(b@[k] == 0);
    }
    if rb {
        let k = choose|k: int| 0 <= k < b@.len() && k < 8192 && #[trigger] b@[k] == 0;
        assert(a@[k] == 0);
    }
}

/// The mode of a file is its permission bits, all nine of them.
pub proof fn lemma_mode(raw: u32, r: u32)
    requires
        call_ensures(tracking::file_mode, (raw,), r),
    ensures
        r == raw % 512,
{
    assert(raw & 0o777 == raw % 512) by (bit_vector);
}

/// A file is a candidate up to the limit on its size, and under its path below the
/// root.
pub proof fn lemma_candidate(rules: &IgnoreRules, at: &str, size: u64, r: Option<String>)
    requires
        call_ensures(tracking::candidate, (rules, at, size), r),
    ensures
        size > rules@.max_file_size ==> r is None,
        size <= rules@.max_file_size ==> (r is Some <==> paths::relative_to(
            rules@.root,
            at@,
        ) is Some),
        r is Some ==> paths::relative_to(rules@.root, at@) == Some(r->0@),
{
}

/// A file that is tracked is left out by no rule, and one that no rule leaves out
/// is tracked.
pub proof fn lemma_tracked(rules: &IgnoreRules, rel: &str, r: bool)
    requires
        call_ensures(IgnoreRules::should_track, (rules, rel), r),
    ensures
        ({
            let v = rules@;
            r <==> !tracking::ignored_below(v.root, v.default_dirs, rel@, false)
                && !tracking::ignored_below(v.root, v.extra, rel@, false)
                && !tracking::ignored_below(v.root, v.repo_gitignore, rel@, false) && (
            v.track_secrets || !tracking::ignored_below(v.root, v.secrets, rel@, false))
        }),
{
    tracking::lemma_reasons(rules@, rel@, false, None);
}

/// A file is too large only if no rule leaves it out and its size is beyond the
/// limit.
pub proof fn lemma_too_large(rules: &IgnoreRules, rel: &str, size: u64, r: IgnoreReason, s: IgnoreReason)
    requires
        call_ensures(IgnoreRules::classify, (rules, rel, false, Some(size)), r),
        call_ensures(IgnoreRules::classify, (rules, rel, false, None), s),
    ensures
        size <= rules@.max_file_size ==> r == s,
        size > rules@.max_file_size ==> r == if s is Included {
            IgnoreReason::TooLarge
        } else {
            s
        },
{
}

/// A directory is entered unless a rule leaves it out. The root always is.
pub proof fn lemma_enters(rules: &IgnoreRules, rel: &str, r: bool, top: bool)
    requires
        call_ensures(tracking::enters, (rules, Some(rel), true), r),
        call_ensures(tracking::enters, (rules, None, true), top),
    ensures
        top,
        rel@.len() == 0 ==> r,
        r && rel@.len() > 0 ==> !tracking::ignored_below(
            rules@.root,
            rules@.default_dirs,
            rel@,
            true,
        ) && !tracking::ignored_below(rules@.root, rules@.extra, rel@, true),
        !r ==> tracking::ignored_below(rules@.root, rules@.default_dirs, rel@, true)
            || tracking::ignored_below(rules@.root, rules@.extra, rel@, true) || (
        !rules@.track_secrets && tracking::ignored_below(rules@.root, rules@.secrets, rel@, true)),
{
}

// ---------------------------------------------------------------------------
// Snapshots
// ---------------------------------------------------------------------------

/// A snapshot hands back each file that was stored as it was stored, after those
/// stored before it.
pub proof fn lemma_stored(
    b: SnapshotBuilder,
    path: &str,
    hash: String,
    size: u64,
    mode: u32,
    r: SnapshotBuilder,
    files: Vec<SnapshotFile>,
    earlier: Vec<SnapshotFile>,
)
    requires
        call_ensures(SnapshotBuilder::stored, (b, path, hash, size, mode), r),
        call_ensures(SnapshotBuilder::into_files, (r,), files),
        call_ensures(SnapshotBuilder::into_files, (b,), earlier),
        size <= i64::MAX,
    ensures
        files@.len() == earlier@.len() + 1,
        files@.last().path@ == path@,
        files@.last().hash@ == hash@,
        files@.last().size == size,
        files@.last().mode == mode,
        forall|i: int| 0 <= i < earlier@.len() ==> (#[trigger] files@[i])@ == earlier@[i]@,
{
    let a = snapshot::file_views(files@);
    let e = snapshot::file_views(earlier@);
    assert(a.len() == e.len() + 1);
    assert(a.last() == files@.last()@);
    assert forall|i: int| 0 <= i < earlier@.len() implies (#[trigger] files@[i])@ == earlier@[i]@ by {
        assert(a[i] == e[i]);
    }
}

/// The header of a snapshot counts its files and their bytes, and takes over the
/// state of the repository.
pub proof fn lemma_header(
    b: &SnapshotBuilder,
    repo_id: i64,
    session_id: Option<i64>,
    parent_id: Option<i64>,
    kind: &str,
    label: &str,
    now: i64,
    git: &GitState,
    h: NewSnapshot,
    files: Vec<SnapshotFile>,
)
    requires
        call_ensures(
            SnapshotBuilder::header,
            (b, repo_id, session_id, parent_id, kind, label, now, git),
            h,
        ),
        call_ensures(SnapshotBuilder::into_files, (*b,), files),
    ensures
        h.file_count == files@.len(),
        files@.len() == 0 ==> h.total_bytes == 0,
        files@.len() == 1 ==> h.total_bytes == files@[0].size,
        h.repo_id == repo_id && h.session_id == session_id && h.parent_id == parent_id,
        h.kind@ == kind@ && h.label@ == label@ && h.created_at == now,
        h.git_dirty == git.dirty,
        git.branch is Some <==> h.git_branch is Some,
        git.branch is Some ==> h.git_branch->0@ == git.branch->0@,
        git.head is Some <==> h.git_head is Some,
        git.head is Some ==> h.git_head->0@ == git.head->0@,
{
    let v = snapshot::file_views(files@);
    snapshot::lemma_sizes_add_up(v, v);
    assert(v.len() == files@.len());
    if files@.len() == 1 {
        assert(v[0] == files@[0]@);
    }
}

/// A manifest finds the files that were recorded, each under its path, and no
/// others.
pub proof fn lemma_manifest(files: &Vec<SnapshotFile>, m: Manifest, path: &str, r: Option<&SnapshotFile>)
    requires
        call_ensures(snapshot::manifest_map, (files,), m),
        call_ensures(Manifest::get, (&m, path), r),
    ensures
        r is Some <==> exists|i: int| 0 <= i < files@.len() && (#[trigger] files@[i]).path@ == path@,
        r is Some ==> exists|i: int|
            0 <= i < files@.len() && (#[trigger] files@[i])@ == r->0@ && r->0.path@ == path@,
{
    let v = snapshot::file_views(files@);
    if r is Some {
        let i = snapshot::lemma_snapshot_holds_only_files(v, path@);
        assert(v[i] == files@[i]@);
        assert(files@[i].path@ == path@);
    }
    if exists|i: int| 0 <= i < files@.len() && (#[trigger] files@[i]).path@ == path@ {
        let i = choose|i: int| 0 <= i < files@.len() && (#[trigger] files@[i]).path@ == path@;
        assert(v[i].path == path@);
        lemma_listed(v, i);
    }
}

proof fn lemma_listed(files: Seq<crate::models::FileView>, i: int)
    requires
        0 <= i < files.len(),
    ensures
        snapshot::by_path(files).contains_key(files[i].path),
    decreases files.len(),
{
    if i < files.len() - 1 {
        lemma_listed(files.drop_last(), i);
        assert(files.drop_last()[i] == files[i]);
    }
}

/// An object lies in the store under the hash of its content, in a directory of
/// the first two digits of it.
pub proof fn lemma_object_written(
    store: &ObjectStore,
    data: &[u8],
    unique: &str,
    r: (String, WriteJob),
    hash: &str,
    at: String,
)
    requires
        call_ensures(ObjectStore::write_bytes, (store, data, unique), r),
        call_ensures(ObjectStore::path_for, (store, hash), at),
        hash@ == r.0@,
    ensures
        hash@ == objects::blake3_hex(data@),
        r.1.target@ == at@,
        at@ == paths::joined(paths::joined(store.dir(), hash@.take(2)), hash@.skip(2)),
        r.1.dir@ == paths::joined(store.dir(), hash@.take(2)),
        r.1.keep_existing,
{
    paths::lemma_hash_shards(store.dir(), hash@);
}

/// What is read of an object is what was found. An object that is missing is told
/// by its hash, and a failure to read it by its message.
pub proof fn lemma_object_read(
    store: &ObjectStore,
    hash: &str,
    found: ReadOutcome,
    r: Result<Vec<u8>, RewindError>,
)
    requires
        call_ensures(ObjectStore::read, (store, hash, found), r),
    ensures
        r is Ok <==> found is Bytes,
        found is Bytes ==> r->Ok_0 == found->Bytes_0,
        found is NotFound ==> r->Err_0@ == ErrorView::ObjectMissing(hash@),
        found is Failed ==> r->Err_0@ == ErrorView::Io(found->Failed_0@),
{
}

// ---------------------------------------------------------------------------
// Differences
// ---------------------------------------------------------------------------

/// Each change between two manifests tells what became of its file, and every
/// file that differs in them is told.
pub proof fn lemma_differences(
    old: &Manifest,
    new: &Manifest,
    r: Vec<FileChange>,
    i: int,
    p: Seq<char>,
)
    requires
        call_ensures(diff::diff_manifests, (old, new), r),
        old@.dom().finite(),
        new@.dom().finite(),
    ensures
        r@.len() == 0 <==> diff::tree_of(old@) == diff::tree_of(new@),
        0 <= i < r@.len() ==> {
            let c = r@[i]@;
            &&& c.status is Added ==> !old@.contains_key(c.path) && new@.contains_key(c.path)
                && c.old_hash is None && c.new_hash == Some(new@[c.path].hash)
            &&& c.status is Deleted ==> old@.contains_key(c.path) && !new@.contains_key(c.path)
                && c.old_hash == Some(old@[c.path].hash) && c.new_hash is None
            &&& c.status is Modified ==> old@.contains_key(c.path) && new@.contains_key(c.path)
                && old@[c.path].hash != new@[c.path].hash && c.old_hash == Some(old@[c.path].hash)
                && c.new_hash == Some(new@[c.path].hash)
            &&& c.status is Renamed ==> !old@.contains_key(c.path) && new@.contains_key(c.path)
                && c.old_hash == c.new_hash && c.new_hash == Some(new@[c.path].hash)
        },
        new@.contains_key(p) && !(old@.contains_key(p) && old@[p].hash == new@[p].hash)
            ==> exists|k: int| 0 <= k < r@.len() && (#[trigger] r@[k])@.path == p,
{
    let v = diff::change_views(r@);
    diff::lemma_diff_empty(v, old@, new@);
    assert(v.len() == r@.len());
    if 0 <= i < r@.len() {
        diff::laws::lemma_change_details(v, old@, new@, i);
        assert(v[i] == r@[i]@);
    }
    if new@.contains_key(p) && !(old@.contains_key(p) && old@[p].hash == new@[p].hash) {
        diff::laws::lemma_change_is_told(v, old@, new@, p);
        let k = choose|k: int| 0 <= k < v.len() && (#[trigger] v[k]).path == p;
        assert(v[k] == r@[k]@);
    }
}

/// A patch of a text is told under its path, and shows each line that only one of
/// its versions has, letter for letter, with the sign of that version.
pub proof fn lemma_patch(path: &str, old: &str, new: &str, r: String, line: Seq<char>)
    requires
        call_ensures(diff::unified_diff_text, (path, old, new), r),
    ensures
        diff::split_lines(new@).contains(line) && !diff::split_lines(old@).contains(line)
            ==> text::occurs(r@, "+"@ + line),
        diff::split_lines(old@).contains(line) && !diff::split_lines(new@).contains(line)
            ==> text::occurs(r@, "-"@ + line),
        old@.len() == 0 && diff::split_lines(new@).contains(line) ==> text::occurs(
            r@,
            "+"@ + line,
        ),
{
    diff::patch::lemma_unified_shows_lines(r@, path@, old@, new@, line);
    if old@.len() == 0 && diff::split_lines(new@).contains(line) {
        assert(old@ =~= Seq::<char>::empty());
        diff::patch::lemma_unified_shows_new_file(r@, path@, new@, line);
    }
}

/// The line counts of a patch add up: what was added and what is left of the old
/// version is the new one. Equal texts have none.
pub proof fn lemma_line_counts(old: &str, new: &str, r: LineStat)
    requires
        call_ensures(diff::line_stat_text, (old, new), r),
    ensures
        r.added + diff::split_lines(old@).len() == r.removed + diff::split_lines(new@).len(),
        old@ == new@ <==> r.added == 0 && r.removed == 0,
{
    diff::lemma_line_count_is_lines(old@);
    diff::lemma_line_count_is_lines(new@);
}

/// The changed lines of a new version are told by their numbers, from one, in
/// order, and no line that is new is left out.
pub proof fn lemma_changed_lines(
    objects: &Loaded,
    old: Option<&str>,
    new: &str,
    r: Vec<usize>,
    k: int,
    i: int,
    j: int,
)
    requires
        call_ensures(diff::changed_new_lines, (objects, old, Some(new)), r),
        diff::side_text(objects@, paths::view_opt(old)) is Some,
        diff::side_text(objects@, Some(new@)) is Some,
    ensures
        ({
            let before = diff::split_lines(diff::side_text(objects@, paths::view_opt(old))->0);
            let after = diff::split_lines(diff::side_text(objects@, Some(new@))->0);
            &&& 0 <= k < after.len() && !before.contains(after[k]) ==> exists|m: int|
                0 <= m < r@.len() && #[trigger] r@[m] == k + 1
            &&& 0 <= i < r@.len() ==> 1 <= r@[i] <= after.len()
            &&& 0 <= i < j < r@.len() ==> r@[i] < r@[j]
        }),
{
    let before = diff::side_text(objects@, paths::view_opt(old))->0;
    let after = diff::side_text(objects@, Some(new@))->0;
    let ints = diff::as_ints(r@);
    diff::lemma_line_count_is_lines(after);
    assert(paths::view_opt(Some(new)) == Some(new@));
    if 0 <= k < diff::split_lines(after).len() && !diff::split_lines(before).contains(
        diff::split_lines(after)[k],
    ) {
        assert(ints.contains(k + 1));
        let m = choose|m: int| 0 <= m < ints.len() && ints[m] == k + 1;
        assert(r@[m] == k + 1);
    }
    if 0 <= i < r@.len() {
        assert(ints[i] == r@[i]);
        if i < j < r@.len() {
            assert(ints[j] == r@[j]);
        }
    }
}

// ---------------------------------------------------------------------------
// Restores
// ---------------------------------------------------------------------------

/// A path is refused if it is empty, starts at the root, goes up or leads into the
/// internals of version control. A path of plain names is joined to the root.
pub proof fn lemma_safe_join(root: &str, rel: &str, r: Result<String, RewindError>, i: int)
    requires
        call_ensures(restore::safe_join, (root, rel), r),
    ensures
        rel@.len() == 0 ==> r is Err,
        rel@.len() > 0 && rel@[0] == '/' ==> r is Err,
        ({
            let pieces = text::pieces_of(rel@, '/');
            &&& 0 <= i < pieces.len() && (pieces[i] == seq!['.', '.'] || pieces[i] == ".git"@)
                ==> r is Err
            &&& (forall|k: int|
                0 <= k < pieces.len() ==> paths::laws::is_name(#[trigger] pieces[k]) && pieces[k]
                    != ".git"@) ==> r is Ok
        }),
        r is Ok ==> r->Ok_0@ == paths::joined(root@, rel@),
        r is Ok ==> restore::stays_below(root@, r->Ok_0@),
{
    restore::lemma_unsafe_paths(rel@, i);
    let pieces = text::pieces_of(rel@, '/');
    if forall|k: int|
        0 <= k < pieces.len() ==> paths::laws::is_name(#[trigger] pieces[k]) && pieces[k]
            != ".git"@ {
        text::laws::lemma_pieces(rel@, '/');
        assert(paths::laws::all_names(pieces));
        restore::lemma_plain_path_is_safe(pieces);
    }
    if r is Ok {
        restore::lemma_confined(root@, rel@);
    }
}

/// A plan for everything writes each file of the snapshot that is missing or
/// differs, with the content and the mode that it had, deletes each file that the
/// snapshot has not, and leaves the rest alone.
pub proof fn lemma_plan(
    id: i64,
    target: &Manifest,
    current: &Manifest,
    root: &str,
    plan: RestorePlan,
    p: Seq<char>,
)
    requires
        call_ensures(
            restore::plan,
            (id, Some(target), current, root, &Selection::All),
            Ok::<RestorePlan, RewindError>(plan),
        ),
    ensures
        plan.snapshot_id == id,
        ({
            let writes = (target@.contains_key(p) && !current@.contains_key(p)) || (
            target@.contains_key(p) && current@.contains_key(p) && target@[p].hash
                != current@[p].hash);
            let deletes = !target@.contains_key(p) && current@.contains_key(p);
            &&& writes <==> restore::paths_of(plan@.create).contains(p) || restore::paths_of(
                plan@.overwrite,
            ).contains(p)
            &&& deletes <==> plan@.delete.contains(p)
        }),
        forall|i: int|
            0 <= i < plan@.create.len() ==> (#[trigger] plan@.create[i]).hash
                == target@[plan@.create[i].path].hash && plan@.create[i].mode
                == target@[plan@.create[i].path].mode,
        forall|i: int|
            0 <= i < plan@.overwrite.len() ==> (#[trigger] plan@.overwrite[i]).hash
                == target@[plan@.overwrite[i].path].hash && plan@.overwrite[i].mode
                == target@[plan@.overwrite[i].path].mode,
{
    let sel = Selection::All;
    assert(sel@ == SelectionView::All);
    let all = restore::candidates(SelectionView::All, target@, current@);
    assert(restore::is_plan(plan@, target@, current@, all));
    assert(all.contains(p) <==> target@.contains_key(p) || current@.contains_key(p));
}

/// A file that is planned is written where its path leads, with its hash and its
/// mode. One that is to go is deleted there. There is nothing else to do.
pub proof fn lemma_carried_out(root: &str, plan: &RestorePlan, run: RestoreRun, i: int)
    requires
        call_ensures(restore::apply, (root, plan), Ok::<RestoreRun, RewindError>(run)),
    ensures
        ({
            let c = plan@.create.len() as int;
            let o = plan@.overwrite.len() as int;
            &&& run.ops().len() == c + o + plan@.delete.len()
            &&& 0 <= i < c ==> run.ops()[i] == (OpView::Write {
                at: paths::joined(root@, plan@.create[i].path),
                hash: plan@.create[i].hash,
                mode: plan@.create[i].mode,
            })
            &&& 0 <= i < o ==> run.ops()[c + i] == (OpView::Write {
                at: paths::joined(root@, plan@.overwrite[i].path),
                hash: plan@.overwrite[i].hash,
                mode: plan@.overwrite[i].mode,
            })
            &&& 0 <= i < plan@.delete.len() ==> run.ops()[c + o + i] == (OpView::Delete {
                at: paths::joined(root@, plan@.delete[i]),
            })
        }),
        run.done() == 0,
{
}

/// The steps of a restore come one after the other, none is left out, and at the
/// end it has been counted what was written and deleted.
pub proof fn lemma_steps(run: RestoreRun, op: Option<&RestoreOp>, there: bool, next: RestoreRun)
    requires
        call_ensures(RestoreRun::next_op, (&run,), op),
        call_ensures(RestoreRun::op_done, (run, there), next),
        op is Some,
    ensures
        op->0@ == run.ops()[run.done() as int],
        next.done() == run.done() + 1,
        next.ops() == run.ops(),
        next.deleted() == run.deleted() + if op->0@ is Delete && there {
            1int
        } else {
            0
        },
{
}

/// A mode that was recorded is set as it is. Where none was, none is set.
pub proof fn lemma_mode_set(mode: u32, r: Option<u32>)
    requires
        call_ensures(restore::mode_to_set, (mode,), r),
    ensures
        mode != 0 ==> r == Some(mode),
        mode == 0 ==> r is None,
{
}

/// A restored file is written beside its place first and then moved there, over
/// what is there.
pub proof fn lemma_file_written(at: &str, pid: u32, job: WriteJob)
    requires
        call_ensures(restore::write_file, (at, pid), Ok::<WriteJob, RewindError>(job)),
    ensures
        job.target@ == at@,
        !job.keep_existing,
        paths::above(at@) == Some(job.dir@),
        job.temp@ == paths::joined(job.dir@, ".rewind-tmp-"@ + text::dec(pid as nat)),
{
}

/// Undoing a restore goes back to the snapshot that was taken before it, and works
/// once.
pub proof fn lemma_undo(record: Option<&Restore>, id: i64, r: Result<i64, RewindError>)
    requires
        call_ensures(session::undo_target, (record, id), r),
    ensures
        r is Ok <==> record is Some && !record->0.undone,
        r is Ok ==> r->Ok_0 == record->0.safety_snapshot_id,
{
}

/// No path selects everything, and named paths select themselves.
pub proof fn lemma_selection(names: Vec<String>, r: Selection)
    requires
        call_ensures(Selection::from_paths, (names,), r),
    ensures
        names@.len() == 0 <==> r@ is All,
        names@.len() > 0 ==> forall|p: Seq<char>|
            r@->Paths_0.contains(p) <==> text::texts(names@).contains(p),
{
    if names@.len() > 0 {
        assert forall|p: Seq<char>| r@->Paths_0.contains(p) <==> text::texts(names@).contains(p) by {
            assert(text::texts(names@).to_set().contains(p) <==> text::texts(names@).contains(p));
        }
    }
}

/// Hashing piece by piece gives the hash of the whole, and its length.
pub proof fn lemma_hashed_in_pieces(
    start: HashStream,
    a: &[u8],
    one: HashStream,
    b: &[u8],
    two: HashStream,
    r: (String, u64),
)
    requires
        call_ensures(HashStream::new, (), start),
        call_ensures(HashStream::absorb, (start, a), one),
        call_ensures(HashStream::absorb, (one, b), two),
        call_ensures(HashStream::finish, (&two,), r),
    ensures
        r.0@ == objects::blake3_hex(a@ + b@),
        r.1 == a@.len() + b@.len(),
{
    assert(Seq::<u8>::empty() + a@ + b@ =~= a@ + b@);
}

proof fn lemma_no_slash_in(a: Seq<char>, b: Seq<char>)
    requires
        !a.contains('/'),
        !b.contains('/'),
    ensures
        !(a + b).contains('/'),
{
    assert forall|i: int| 0 <= i < (a + b).len() implies (a + b)[i] != '/' by {
        if i < a.len() {
            assert(a.contains(a[i]));
        } else {
            assert(b.contains(b[i - a.len()]));
        }
    }
}

proof fn lemma_digits_hold_no_slash(n: nat)
    ensures
        !text::dec(n).contains('/'),
{
    text::laws::lemma_dec(n);
}

proof fn lemma_both_ends(a: Seq<char>, b: Seq<char>, c: Seq<char>)
    ensures
        a.is_prefix_of(a + b + c),
        c.is_suffix_of(a + b + c),
{
    let all = a + b + c;
    assert(all.subrange(0, a.len() as int) =~= a);
    assert(all.subrange(all.len() - c.len(), all.len() as int) =~= c);
}

/// Names for files that are being written hold no slash, so that they stay in their
/// directory.
pub proof fn lemma_suffix(pid: u32, nanos: u128, counter: u64, r: String)
    requires
        call_ensures(objects::unique_suffix, (pid, nanos, counter), r),
    ensures
        !r@.contains('/'),
        (text::dec(pid as nat) + "-"@).is_prefix_of(r@),
        text::occurs(r@, text::hex(nanos as nat)),
        text::hex(counter as nat).is_suffix_of(r@),
{
    reveal_strlit("-");
    let p = text::dec(pid as nat);
    let n = text::hex(nanos as nat);
    let c = text::hex(counter as nat);
    lemma_digits_hold_no_slash(pid as nat);
    text::laws::lemma_hex(nanos as nat);
    text::laws::lemma_hex(counter as nat);
    assert(!"-"@.contains('/'));
    lemma_no_slash_in(p, "-"@);
    lemma_no_slash_in(p + "-"@, n);
    lemma_no_slash_in(p + "-"@ + n, c);
    text::lemma_occurs_within(p + "-"@, n, c);
    lemma_both_ends(p + "-"@, n, c);
}

/// A write that keeps what is there looks first, and one that does not starts at
/// once. Each writes beside its target, in the directory given.
pub proof fn lemma_write_begins(target: String, dir: String, name: &str, keep: bool, r: WriteJob)
    requires
        call_ensures(WriteJob::new, (target, dir, name, keep), r),
    ensures
        r.target == target && r.dir == dir,
        r.temp@ == paths::joined(dir@, name@),
        keep ==> r.step@ is Probe,
        !keep ==> r.step@ is MakeDir,
{
}

/// A write succeeds only by finding its target there or by moving its content to
/// it, and fails with the message of what failed.
pub proof fn lemma_write_advances(job: WriteJob, outcome: Outcome, r: WriteJob)
    requires
        call_ensures(WriteJob::advance, (job, outcome), r),
        write_job::answers(job.step@, outcome@),
    ensures
        r.step@ is Done ==> (job.step@ is Probe && outcome@ == OutcomeView::Present(true)) || (
        job.step@ is Rename && outcome@ is Finished) || job.step@ == StepView::Discard(None),
        job.step@ is Probe && outcome@ == OutcomeView::Present(false) ==> r.step@ is MakeDir,
        job.step@ is MakeDir && outcome@ is Finished ==> r.step@ is WriteTemp,
        job.step@ is WriteTemp && outcome@ is Finished ==> r.step@ is Rename,
        (job.step@ is MakeDir || job.step@ is WriteTemp) && outcome@ is Failed ==> r.step@
            == StepView::Failed(outcome@->Failed_0),
        job.step@ is Rename && outcome@ is Failed ==> !(r.step@ is Done),
        r.target == job.target && r.temp == job.temp && r.keep_existing == job.keep_existing,
{
}

/// A change on disk is told unless a rule leaves its path out.
pub proof fn lemma_event_told(rules: &IgnoreRules, path: &str, r: Option<String>, p: Seq<char>)
    requires
        call_ensures(watcher::filtered_rel, (rules, path), r),
    ensures
        r is Some && r->0@ == p <==> paths::relative_to(rules@.root, path@) == Some(p)
            && tracking::reason_for(rules@, p, false, None) is Included && tracking::reason_for(
            rules@,
            p,
            true,
            None,
        ) is Included,
{
    watcher::lemma_told(rules@, path@, p);
}

/// While nothing is pending the wait is half a second, and else the quiet time.
pub proof fn lemma_watch_waits(d: &Debouncer, quiet_ms: u64, r: u64)
    requires
        call_ensures(Debouncer::wait_ms, (d, quiet_ms), r),
    ensures
        d.pending() == Set::<Seq<char>>::empty() ==> r == 500,
        d.pending() != Set::<Seq<char>>::empty() ==> r == quiet_ms,
{
}

/// A batch is told after the quiet time, whole and once.
pub proof fn lemma_batch(d: &mut Debouncer, now: u128, quiet_ms: u64, r: Option<Vec<String>>)
    requires
        call_ensures(Debouncer::timeout, (d, now, quiet_ms), r),
    ensures
        r is Some ==> text::texts(r->0@).to_set() == old(d).pending() && final(d).pending()
            == Set::<Seq<char>>::empty(),
        r is Some && old(d).last_event() is Some ==> now - old(d).last_event()->0 >= quiet_ms,
        r is None ==> final(d).pending() == old(d).pending(),
        old(d).last_event() is Some && now - old(d).last_event()->0 >= quiet_ms && old(d).pending()
            != Set::<Seq<char>>::empty() ==> r is Some,
{
}

/// A file that is found is entered with its place, its size and its permissions, and
/// the files found before it stay.
pub proof fn lemma_file_entered(
    scan: &mut Scan<'static>,
    at: &str,
    size: u64,
    raw_mode: u32,
    head: &[u8],
    r: Option<String>,
    p: Seq<char>,
)
    requires
        call_ensures(Scan::<'static>::enter, (scan, at, size, raw_mode, head), r),
    ensures
        r is Some ==> {
            let f = final(scan).files()[r->0@];
            &&& final(scan).files().contains_key(r->0@)
            &&& f.abs_path == at@ && f.size == size && f.mode == raw_mode % 512
            &&& paths::relative_to(old(scan).rules().root, at@) == Some(r->0@)
        },
        r is Some ==> size <= old(scan).rules().max_file_size,
        (r is None || p != r->0@) && old(scan).files().contains_key(p) ==> final(scan).files().contains_key(p) && final(scan).files()[p] == old(scan).files()[p],
        (r is None || p != r->0@) && !old(scan).files().contains_key(p) ==> !final(scan).files().contains_key(p),
{
    assert(raw_mode & 0o777 == raw_mode % 512) by (bit_vector);
}

/// What is read of an object as text is its content, byte for byte, if it is text.
pub proof fn lemma_text_read(objects: &Loaded, hash: &str, r: Option<String>)
    requires
        call_ensures(diff::load_text, (objects, hash), r),
    ensures
        r is Some <==> objects@.contains_key(hash@) && vstd::utf8::valid_utf8(objects@[hash@]@)
            && !objects@[hash@]@.contains(0u8),
        r is Some ==> vstd::utf8::encode_utf8(r->0@) == objects@[hash@]@,
{
    diff::laws::lemma_object_text(objects@, hash@);
}

/// A change is told by the lines that its two versions differ in. There is no patch
/// of a version that is not text.
pub proof fn lemma_patch_of_objects(
    objects: &Loaded,
    path: &str,
    old: &str,
    new: &str,
    r: Option<String>,
    a: Seq<char>,
    b: Seq<char>,
    line: Seq<char>,
)
    requires
        call_ensures(diff::unified_diff, (objects, path, Some(old), Some(new)), r),
        objects@.contains_key(old@),
        objects@.contains_key(new@),
        objects@[old@]@ == vstd::utf8::encode_utf8(a),
        objects@[new@]@ == vstd::utf8::encode_utf8(b),
        !objects@[old@]@.contains(0u8),
        !objects@[new@]@.contains(0u8),
    ensures
        r is Some,
        diff::split_lines(b).contains(line) && !diff::split_lines(a).contains(line) ==> text::occurs(
            r->0@,
            "+"@ + line,
        ),
        diff::split_lines(a).contains(line) && !diff::split_lines(b).contains(line) ==> text::occurs(
            r->0@,
            "-"@ + line,
        ),
{
    vstd::utf8::encode_utf8_valid_utf8(a);
    vstd::utf8::encode_utf8_valid_utf8(b);
    vstd::utf8::encode_utf8_decode_utf8(a);
    vstd::utf8::encode_utf8_decode_utf8(b);
    diff::laws::lemma_object_text(objects@, old@);
    diff::laws::lemma_object_text(objects@, new@);
    assert(paths::view_opt(Some(old)) == Some(old@));
    assert(paths::view_opt(Some(new)) == Some(new@));
    let ta = diff::side_text(objects@, Some(old@))->0;
    let tb = diff::side_text(objects@, Some(new@))->0;
    vstd::utf8::encode_utf8_decode_utf8(ta);
    vstd::utf8::encode_utf8_decode_utf8(tb);
    assert(ta == a && tb == b);
    diff::patch::lemma_unified_shows_lines(r->0@, path@, a, b, line);
}

/// A path that is refused is told together with the root that it would leave.
pub proof fn lemma_refusal(root: &str, rel: &str, r: Result<(), RewindError>)
    requires
        call_ensures(restore::validate_rel_path, (root, rel), r),
    ensures
        r is Err && rel@.len() > 0 ==> r->Err_0@ == (ErrorView::PathEscapesRoot {
            path: rel@,
            root: root@,
        }),
        r is Err && rel@.len() == 0 ==> r->Err_0@ is Other,
        r is Ok <==> restore::is_safe(rel@),
{
}

/// The directory that a file is written in is the one that it lies in.
pub proof fn lemma_parent(dir: Seq<char>, name: Seq<char>, path: &str, r: Option<String>)
    requires
        call_ensures(paths::parent, (path,), r),
        path@ == paths::joined(dir, name),
        paths::laws::is_name(name),
    ensures
        r is Some,
        paths::parts_of(r->0@) == paths::parts_of(dir),
{
    paths::laws::lemma_above_name(dir, name);
}

/// Events are collected: what was pending stays, and the paths of interest come to
/// it.
pub proof fn lemma_events_collected(
    d: &mut Debouncer,
    rules: &IgnoreRules,
    event_paths: &Vec<String>,
    now: u128,
    i: int,
    p: Seq<char>,
)
    requires
        call_ensures(Debouncer::events, (d, rules, event_paths, now), ()),
    ensures
        final(d).last_event() == Some(now),
        old(d).pending().contains(p) ==> final(d).pending().contains(p),
        0 <= i < event_paths@.len() && watcher::told_as(rules@, event_paths@[i]@) == Some(p)
            ==> final(d).pending().contains(p),
        event_paths@.len() == 0 ==> (final(d).pending().contains(p) ==> old(d).pending().contains(
            p,
        )),
{
    if 0 <= i < event_paths@.len() {
        assert(text::texts(event_paths@)[i] == event_paths@[i]@);
    }
}

/// When there will be no more events, what is pending is told.
pub proof fn lemma_last_batch(d: Debouncer, r: Option<Vec<String>>)
    requires
        call_ensures(Debouncer::closed, (d,), r),
    ensures
        r is None <==> d.pending() == Set::<Seq<char>>::empty(),
        r is Some ==> text::texts(r->0@).to_set() == d.pending(),
{
    if r is Some {
        assert(r->0@.len() > 0);
        let t = text::texts(r->0@);
        assert(t.len() > 0);
        assert(t.contains(t[0]));
        assert(t.to_set().contains(t[0]));
    }
}

/// A change is told by the letter of its sort.
pub proof fn lemma_letter(c: &FileChange, r: char)
    requires
        call_ensures(FileChange::letter, (c,), r),
    ensures
        r == 'A' <==> c@.status is Added,
        r == 'M' <==> c@.status is Modified,
        r == 'D' <==> c@.status is Deleted,
        r == 'R' <==> c@.status is Renamed,
{
    diff::laws::lemma_letters(c@.status);
}

/// Comparing a snapshot with itself finds nothing.
pub proof fn lemma_same_snapshot(files: &Vec<SnapshotFile>, r: Vec<FileChange>)
    requires
        call_ensures(diff::diff_snapshots, (files, files), r),
        snapshot::by_path(snapshot::file_views(files@)).dom().finite(),
    ensures
        r@.len() == 0,
{
    let m = snapshot::by_path(snapshot::file_views(files@));
    diff::lemma_diff_empty(diff::change_views(r@), m, m);
    assert(diff::change_views(r@).len() == r@.len());
}

/// A plan is empty exactly if it has nothing to write or delete, and its size is the
/// number of files that it is about.
pub proof fn lemma_plan_size(plan: &RestorePlan, empty: bool, n: usize)
    requires
        call_ensures(RestorePlan::is_empty, (plan,), empty),
        call_ensures(RestorePlan::total_changes, (plan,), n),
    ensures
        empty <==> n == 0,
        n == plan.create@.len() + plan.overwrite@.len() + plan.delete@.len(),
{
}

} // verus!
