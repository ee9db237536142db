//! Reports of non-interactive test runs.
//!
//! A report lies in a directory of its own:
//!
//! ```text
//! .rewind-report/
//!   report.json     the report
//!   summary.md      the report for people
//!   test.log        all output of the run
//!   changes.patch   the changes as unified diffs
//! ```

use vstd::prelude::*;

use crate::diff;
use crate::diff::ChangeStatus;
use crate::diff::ChangeView;
use crate::diff::FileChange;
use crate::diff::StatusView;
use crate::exec;
use crate::exec::DependencyChange;
use crate::exec::DependencyView;
use crate::investigate;
use crate::investigate::CauseView;
use crate::investigate::Investigation;
use crate::investigate::LikelyCause;
use crate::objects::Loaded;
use crate::paths;
use crate::session::TestResult;
use crate::text;
use crate::util;

pub mod laws;

verus! {

/// The name of the report directory, unless another is asked for.
pub const REPORT_DIR: &'static str = ".rewind-report";

/// A changed file in a report.
#[derive(Debug, PartialEq, Eq)]
pub struct ChangedFile {
    pub path: String,
    pub status: String,
    pub added: usize,
    pub removed: usize,
}

/// A changed file with its texts as sequences of characters.
pub struct ChangedView {
    pub path: Seq<char>,
    pub status: Seq<char>,
    pub added: nat,
    pub removed: nat,
}

impl View for ChangedFile {
    type V = ChangedView;

    open spec fn view(&self) -> ChangedView {
        ChangedView {
            path: self.path@,
            status: self.status@,
            added: self.added as nat,
            removed: self.removed as nat,
        }
    }
}

/// The views of a list of changed files.
pub open spec fn changed_views(v: Seq<ChangedFile>) -> Seq<ChangedView> {
    Seq::new(v.len(), |i: int| v[i]@)
}

/// The report of a test run.
#[derive(Debug, PartialEq, Eq)]
pub struct CiReport {
    pub rewind_version: String,
    pub generated_at: String,
    pub command: String,
    pub passed: bool,
    pub exit_code: Option<i32>,
    pub timed_out: bool,
    pub cancelled: bool,
    pub duration_ms: u64,
    pub changed_files: Vec<ChangedFile>,
    pub dependency_changes: Vec<DependencyChange>,
    pub likely_causes: Vec<LikelyCause>,
    pub investigated: bool,
    pub summary: String,
}

impl CiReport {
    /// The exit code to be passed on: 0 if the tests passed, and if they did
    /// not, that of the test command, or 1 where that would be 0 or is not
    /// known.
    pub fn exit_code_for_process(&self) -> (r: i32)
        ensures
            r == if self.passed {
                0i32
            } else {
                match self.exit_code {
                    Some(c) => if c == 0 {
                        1i32
                    } else {
                        c
                    },
                    None => 1i32,
                }
            },
            self.passed <==> r == 0,
    {
        if self.passed {
            return 0;
        }
        match self.exit_code {
            Some(c) => if c == 0 {
                1
            } else {
                c
            },
            None => 1,
        }
    }

    /// The exit status of the process: the exit code as far as it fits into a
    /// byte. It is 0 only if the tests passed.
    pub fn process_status(&self) -> (r: u8)
        ensures
            self.passed <==> r == 0,
            !self.passed && self.exit_code is Some && 0 < self.exit_code->0 <= 255 ==> r
                == self.exit_code->0,
            !self.passed && self.exit_code is Some && self.exit_code->0 > 255 ==> r == 255,
            !self.passed && !(self.exit_code is Some && self.exit_code->0 > 0) ==> r == 1,
    {
        let code: i32 = self.exit_code_for_process();
        if code == 0 {
            0
        } else if code < 0 {
            1
        } else if code > 255 {
            255
        } else {
            code as u8
        }
    }
}

// ---------------------------------------------------------------------------
// Making a report
// ---------------------------------------------------------------------------

/// The word for a status.
pub open spec fn word_of(s: StatusView) -> Seq<char> {
    match s {
        StatusView::Added => "added"@,
        StatusView::Modified => "modified"@,
        StatusView::Deleted => "deleted"@,
        StatusView::Renamed { .. } => "renamed"@,
    }
}

/// The word for a status.
pub fn status_word(s: &ChangeStatus) -> (r: &'static str)
    ensures
        r@ == word_of(s@),
{
    match s {
        ChangeStatus::Added => "added",
        ChangeStatus::Modified => "modified",
        ChangeStatus::Deleted => "deleted",
        ChangeStatus::Renamed { .. } => "renamed",
    }
}

/// How a change stands in a report.
pub open spec fn reported(objects: Map<Seq<char>, Vec<u8>>, change: ChangeView) -> ChangedView {
    let counts = diff::change_counts(objects, change);
    ChangedView {
        path: change.path,
        status: word_of(change.status),
        added: counts.0,
        removed: counts.1,
    }
}

/// How the changes stand in a report.
pub fn changed_files(objects: &Loaded, changes: &Vec<FileChange>) -> (r: Vec<ChangedFile>)
    ensures
        changed_views(r@) == Seq::new(
            changes@.len(),
            |i: int| reported(objects@, changes@[i]@),
        ),
{
    let ghost want = Seq::new(changes@.len(), |i: int| reported(objects@, changes@[i]@));
    let mut r: Vec<ChangedFile> = Vec::new();
    let mut i: usize = 0;
    while i < changes.len()
        invariant
            i <= changes@.len(),
            want == Seq::new(changes@.len(), |i: int| reported(objects@, changes@[i]@)),
            changed_views(r@) == want.take(i as int),
        decreases changes@.len() - i,
    {
        let c = &changes[i];
        let stat = diff::change_stat(objects, c);
        let ghost before = r@;
        r.push(
            ChangedFile {
                path: c.path.clone(),
                status: status_word(&c.status).to_string(),
                added: stat.added,
                removed: stat.removed,
            },
        );
        proof {
            assert(changed_views(r@) =~= changed_views(before).push(want[i as int]));
            assert(want.take(i + 1) =~= want.take(i as int).push(want[i as int]));
        }
        i += 1;
    }
    proof {
        assert(want.take(i as int) =~= want);
    }
    r
}

/// The snapshot against which the changes are told: the one after the last
/// passing run if the run was investigated and that snapshot is known, else
/// the one before the run.
pub fn base_snapshot(
    investigated: bool,
    passing_post: Option<i64>,
    pre_snapshot: i64,
) -> (r: i64)
    ensures
        r == match passing_post {
            Some(id) => if investigated {
                id
            } else {
                pre_snapshot
            },
            None => pre_snapshot,
        },
{
    match passing_post {
        Some(id) => if investigated {
            id
        } else {
            pre_snapshot
        },
        None => pre_snapshot,
    }
}

/// The line that sums a run up.
pub fn summary_line(passed: bool, duration_ms: u64, changed: usize) -> (r: String)
    ensures
        r@ == "test "@ + (if passed {
            "passed"@
        } else {
            "failed"@
        }) + " in "@ + util::duration_text(duration_ms as int) + "; "@ + text::dec(changed as nat)
            + " changed file(s)"@,
{
    let mut r = "test ".to_string();
    if passed {
        r.append("passed");
    } else {
        r.append("failed");
    }
    r.append(" in ");
    let d = util::format_duration_ms(duration_ms);
    r.append(d.as_str());
    r.append("; ");
    text::push_dec(&mut r, changed as u128);
    r.append(" changed file(s)");
    r
}

/// The version changes and causes that an investigation found.
pub open spec fn found(inv: Option<Investigation>) -> (Seq<DependencyView>, Seq<CauseView>) {
    match inv {
        Some(i) => (
            exec::dependency_views(i.dependency_changes@),
            investigate::cause_views(i.causes@),
        ),
        None => (Seq::empty(), Seq::empty()),
    }
}

/// The report of a test run of `command`, in which `changed` lie between the
/// base and the state after the run.
pub fn make_report(
    version: &str,
    now: i64,
    command: Option<&str>,
    result: TestResult,
    changed: Vec<ChangedFile>,
) -> (r: CiReport)
    ensures
        r.rewind_version@ == version@,
        r.generated_at@ == util::timestamp_text(now as int),
        r.command@ == match command {
            Some(c) => c@,
            None => "<none>"@,
        },
        r.passed == result.passed,
        r.exit_code == result.outcome.exit_code,
        r.timed_out == result.outcome.timed_out,
        r.cancelled == result.outcome.cancelled,
        r.duration_ms == result.outcome.duration_ms,
        r.changed_files == changed,
        exec::dependency_views(r.dependency_changes@) == found(result.investigation).0,
        investigate::cause_views(r.likely_causes@) == found(result.investigation).1,
        r.investigated == (result.investigation is Some),
        r.summary@ == "test "@ + (if result.passed {
            "passed"@
        } else {
            "failed"@
        }) + " in "@ + util::duration_text(result.outcome.duration_ms as int) + "; "@ + text::dec(
            changed@.len(),
        ) + " changed file(s)"@,
{
    let summary = summary_line(result.passed, result.outcome.duration_ms, changed.len());
    let command = match command {
        Some(c) => c.to_string(),
        None => "<none>".to_string(),
    };
    let investigated: bool = result.investigation.is_some();
    let (dependency_changes, likely_causes): (Vec<DependencyChange>, Vec<LikelyCause>) =
        match result.investigation {
        Some(inv) => (inv.dependency_changes, inv.causes),
        None => (Vec::new(), Vec::new()),
    };
    proof {
        if !investigated {
            assert(exec::dependency_views(dependency_changes@) =~= Seq::<DependencyView>::empty());
            assert(investigate::cause_views(likely_causes@) =~= Seq::<CauseView>::empty());
        }
    }
    CiReport {
        rewind_version: version.to_string(),
        generated_at: util::format_timestamp(now),
        command,
        passed: result.passed,
        exit_code: result.outcome.exit_code,
        timed_out: result.outcome.timed_out,
        cancelled: result.outcome.cancelled,
        duration_ms: result.outcome.duration_ms,
        changed_files: changed,
        dependency_changes,
        likely_causes,
        investigated,
        summary,
    }
}

// ---------------------------------------------------------------------------
// The patch
// ---------------------------------------------------------------------------

/// The part of the patch that tells of one change: only its header for a
/// deletion, its unified diff if both versions are text, else that it is
/// binary.
pub open spec fn patch_part(objects: Map<Seq<char>, Vec<u8>>, c: ChangeView) -> Seq<char> {
    if c.status is Deleted {
        "--- a/"@ + c.path + "\n+++ /dev/null\n"@
    } else {
        match (diff::side_text(objects, c.old_hash), diff::side_text(objects, c.new_hash)) {
            (Some(old), Some(new)) => diff::patch_of(c.path, old, new),
            _ => "Binary file "@ + c.path + " changed\n"@,
        }
    }
}

/// `s` with a line feed at its end.
pub open spec fn line_ended(s: Seq<char>) -> Seq<char> {
    if s.len() > 0 && s.last() == '\n' {
        s
    } else {
        s.push('\n')
    }
}

/// The patch that tells of all changes. After each, a line has ended.
pub open spec fn patch_text(objects: Map<Seq<char>, Vec<u8>>, changes: Seq<ChangeView>) -> Seq<char>
    decreases changes.len(),
{
    if changes.len() == 0 {
        Seq::empty()
    } else {
        line_ended(patch_text(objects, changes.drop_last()) + patch_part(objects, changes.last()))
    }
}

/// Some part of the patch is a unified diff of the two versions of `path`.
pub open spec fn tells_change(
    patch: Seq<char>,
    path: Seq<char>,
    old: Seq<char>,
    new: Seq<char>,
) -> bool {
    exists|part: Seq<char>| #[trigger]
        text::occurs(patch, part) && diff::patch::is_unified(part, path, old, new)
}

/// `part` tells of the change `c` in full, if it is no deletion and both of its
/// versions are text.
pub open spec fn is_full(part: Seq<char>, objects: Map<Seq<char>, Vec<u8>>, c: ChangeView) -> bool {
    match (diff::side_text(objects, c.old_hash), diff::side_text(objects, c.new_hash)) {
        (Some(old), Some(new)) => !(c.status is Deleted) ==> diff::patch::is_unified(
            part,
            c.path,
            old,
            new,
        ),
        _ => true,
    }
}

/// Two texts one after the other, with the last line ended.
#[verifier::opaque]
spec fn glued(a: Seq<char>, b: Seq<char>) -> Seq<char> {
    line_ended(a + b)
}

proof fn lemma_glued_holds(a: Seq<char>, b: Seq<char>)
    ensures
        text::occurs(glued(a, b), a),
        text::occurs(glued(a, b), b),
{
    reveal(glued);
    let all = line_ended(a + b);
    let none = Seq::<char>::empty();
    let ended = all.skip((a.len() + b.len()) as int);
    assert(all =~= a + b + ended);
    text::lemma_occurs_within(a, b, ended);
    assert(all =~= none + a + (b + ended));
    text::lemma_occurs_within(none, a, b + ended);
}

/// The part that tells of a change stands in the patch.
proof fn lemma_part_stands(objects: Map<Seq<char>, Vec<u8>>, changes: Seq<ChangeView>, i: int)
    requires
        0 <= i < changes.len(),
    ensures
        text::occurs(patch_text(objects, changes), patch_part(objects, changes[i])),
{
    let parts = Seq::new(changes.len(), |k: int| patch_part(objects, changes[k]));
    lemma_patch_ended(objects, changes, parts);
    lemma_all_ended_holds(parts, i);
}

/// Parts one after the other, each with its last line ended.
spec fn all_ended(parts: Seq<Seq<char>>) -> Seq<char>
    decreases parts.len(),
{
    if parts.len() == 0 {
        Seq::empty()
    } else {
        glued(all_ended(parts.drop_last()), parts.last())
    }
}

proof fn lemma_all_ended_holds(parts: Seq<Seq<char>>, i: int)
    requires
        0 <= i < parts.len(),
    ensures
        text::occurs(all_ended(parts), parts[i]),
    decreases parts.len(),
{
    let front = parts.drop_last();
    lemma_glued_holds(all_ended(front), parts.last());
    if i < front.len() {
        lemma_all_ended_holds(front, i);
        text::lemma_occurs_trans(all_ended(parts), all_ended(front), parts[i]);
    }
}

proof fn lemma_patch_ended(
    objects: Map<Seq<char>, Vec<u8>>,
    changes: Seq<ChangeView>,
    parts: Seq<Seq<char>>,
)
    requires
        parts.len() == changes.len(),
        forall|k: int| 0 <= k < parts.len() ==> #[trigger] parts[k] == patch_part(objects, changes[k]),
    ensures
        patch_text(objects, changes) == all_ended(parts),
    decreases changes.len(),
{
    if changes.len() > 0 {
        reveal(glued);
        lemma_patch_ended(objects, changes.drop_last(), parts.drop_last());
        assert(parts[parts.len() - 1] == patch_part(objects, changes[changes.len() - 1]));
    }
}

/// The patch tells of every change: of a deletion that the file is gone, of a
/// change between two texts by a full unified diff of them, whether the file is
/// new or not, and of any other change that the file is binary.
pub proof fn lemma_patch_tells_changes(
    objects: Map<Seq<char>, Vec<u8>>,
    changes: Seq<ChangeView>,
    i: int,
)
    requires
        0 <= i < changes.len(),
        match (
            diff::side_text(objects, changes[i].old_hash),
            diff::side_text(objects, changes[i].new_hash),
        ) {
            (Some(old), Some(new)) => diff::patch::hunks_tell(
                diff::unified_hunks(old, new, 3),
                old,
                new,
                3,
            ),
            _ => true,
        },
    ensures
        ({
            let patch = patch_text(objects, changes);
            let c = changes[i];
            if c.status is Deleted {
                text::occurs(patch, "--- a/"@ + c.path + "\n+++ /dev/null\n"@)
            } else {
                match (diff::side_text(objects, c.old_hash), diff::side_text(objects, c.new_hash)) {
                    (Some(old), Some(new)) => tells_change(patch, c.path, old, new),
                    _ => text::occurs(patch, "Binary file "@ + c.path + " changed\n"@),
                }
            }
        }),
{
    lemma_part_stands(objects, changes, i);
    let c = changes[i];
    match (diff::side_text(objects, c.old_hash), diff::side_text(objects, c.new_hash)) {
        (Some(old), Some(new)) => {
            diff::lemma_unified_diff(c.path, old, new);
        },
        _ => {},
    }
}

/// Every line of a new text file stands in the patch behind a plus sign.
pub proof fn lemma_patch_shows_new_file(
    objects: Map<Seq<char>, Vec<u8>>,
    changes: Seq<ChangeView>,
    i: int,
    new: Seq<char>,
    line: Seq<char>,
)
    requires
        0 <= i < changes.len(),
        changes[i].status is Added,
        changes[i].old_hash is None,
        diff::side_text(objects, changes[i].new_hash) == Some(new),
        diff::patch::hunks_tell(
            diff::unified_hunks(Seq::empty(), new, 3),
            Seq::empty(),
            new,
            3,
        ),
        diff::split_lines(new).contains(line),
    ensures
        text::occurs(patch_text(objects, changes), "+"@ + line),
{
    let patch = patch_text(objects, changes);
    lemma_patch_tells_changes(objects, changes, i);
    let part = choose|part: Seq<char>| #[trigger]
        text::occurs(patch, part) && diff::patch::is_unified(
            part,
            changes[i].path,
            Seq::empty(),
            new,
        );
    diff::patch::lemma_unified_shows_new_file(part, changes[i].path, new, line);
    text::lemma_occurs_trans(patch, part, "+"@ + line);
}

fn show_patch_part(objects: &Loaded, c: &FileChange) -> (r: String)
    ensures
        r@ == patch_part(objects@, c@),
        is_full(r@, objects@, c@),
{
    if let ChangeStatus::Deleted = c.status {
        let mut r = "--- a/".to_string();
        r.append(c.path.as_str());
        r.append("\n+++ /dev/null\n");
        return r;
    }
    match diff::unified_diff(
        objects,
        c.path.as_str(),
        diff::borrowed(&c.old_hash),
        diff::borrowed(&c.new_hash),
    ) {
        Some(d) => d,
        None => {
            let mut r = "Binary file ".to_string();
            r.append(c.path.as_str());
            r.append(" changed\n");
            r
        },
    }
}

fn ends_line(s: &str) -> (r: bool)
    ensures
        r == (s@.len() > 0 && s@.last() == '\n'),
{
    let cs = text::to_chars(s);
    cs.len() > 0 && cs[cs.len() - 1] == '\n'
}

/// The patch that tells of all changes. Each change between two texts that is no
/// deletion stands in it as a full unified diff.
pub fn changes_patch(objects: &Loaded, changes: &Vec<FileChange>) -> (r: String)
    ensures
        r@ == patch_text(objects@, diff::change_views(changes@)),
        forall|i: int|
            0 <= i < changes@.len() && !(#[trigger] changes@[i]@.status is Deleted) ==> match (
                diff::side_text(objects@, changes@[i]@.old_hash),
                diff::side_text(objects@, changes@[i]@.new_hash),
            ) {
                (Some(old), Some(new)) => tells_change(r@, changes@[i]@.path, old, new),
                _ => true,
            },
{
    let ghost views = diff::change_views(changes@);
    let mut patch = String::new();
    let mut i: usize = 0;
    proof {
        assert(views.take(0) =~= Seq::<ChangeView>::empty());
        assert(patch@ =~= Seq::<char>::empty());
    }
    while i < changes.len()
        invariant
            i <= changes@.len(),
            views == diff::change_views(changes@),
            patch@ == patch_text(objects@, views.take(i as int)),
            forall|j: int|
                0 <= j < i ==> is_full(
                    patch_part(objects@, #[trigger] views[j]),
                    objects@,
                    views[j],
                ),
        decreases changes@.len() - i,
    {
        let part = show_patch_part(objects, &changes[i]);
        patch.append(part.as_str());
        if !ends_line(patch.as_str()) {
            patch.push('\n');
        }
        proof {
            assert(views.take(i + 1).drop_last() =~= views.take(i as int));
            assert(views.take(i + 1).last() == changes@[i as int]@);
        }
        i += 1;
    }
    proof {
        assert(views.take(i as int) =~= views);
        assert forall|j: int|
            0 <= j < changes@.len() && !(#[trigger] changes@[j]@.status is Deleted) implies match (
            diff::side_text(objects@, changes@[j]@.old_hash),
            diff::side_text(objects@, changes@[j]@.new_hash),
        ) {
            (Some(old), Some(new)) => tells_change(patch@, changes@[j]@.path, old, new),
            _ => true,
        } by {
            lemma_part_stands(objects@, views, j);
            assert(views[j] == changes@[j]@);
            assert(is_full(patch_part(objects@, views[j]), objects@, views[j]));
        }
    }
    patch
}

// ---------------------------------------------------------------------------
// The summary for people
// ---------------------------------------------------------------------------

/// The head of the summary: the verdict and what was run.
pub open spec fn md_head(r: CiReport) -> Seq<char> {
    "# Rewind CI Report — "@ + (if r.passed {
        "✅ PASSED"@
    } else {
        "❌ FAILED"@
    }) + "\n\n- **Command:** `"@ + r.command@ + "`\n- **Exit code:** "@ + (match r.exit_code {
        Some(c) => text::dec_signed(c as int),
        None => "killed"@,
    }) + "\n- **Duration:** "@ + util::duration_text(r.duration_ms as int) + "\n"@ + (
    if r.timed_out {
        "- **Timed out:** yes\n"@
    } else {
        ""@
    }) + (if r.cancelled {
        "- **Cancelled:** yes\n"@
    } else {
        ""@
    }) + "- **Generated:** "@ + r.generated_at@ + "\n- **Rewind:** v"@ + r.rewind_version@
        + "\n\n"@
}

/// The row of a changed file.
pub open spec fn md_row(f: ChangedView) -> Seq<char> {
    "| "@ + f.status + " | `"@ + f.path + "` | +"@ + text::dec(f.added) + " / -"@ + text::dec(
        f.removed,
    ) + " |\n"@
}

/// The rows of changed files.
pub open spec fn md_rows(files: Seq<ChangedView>) -> Seq<char>
    decreases files.len(),
{
    if files.len() == 0 {
        Seq::empty()
    } else {
        md_rows(files.drop_last()) + md_row(files.last())
    }
}

/// The section on changed files.
pub open spec fn md_changed(files: Seq<ChangedView>) -> Seq<char> {
    "## Changed files ("@ + text::dec(files.len()) + ")\n\n"@ + (if files.len() == 0 {
        "_No tracked file changes._\n\n"@
    } else {
        "| Status | File | +/- |\n|---|---|---|\n"@ + md_rows(files) + "\n"@
    })
}

/// A version, or a dash where there is none.
pub open spec fn version_or_dash(v: Option<Seq<char>>) -> Seq<char> {
    match v {
        Some(s) => s,
        None => "—"@,
    }
}

/// The line of a version change.
pub open spec fn md_dependency(d: DependencyView) -> Seq<char> {
    "- `"@ + d.name + "` in `"@ + d.file + "`: "@ + version_or_dash(d.old) + " → "@
        + version_or_dash(d.new) + "\n"@
}

/// The lines of version changes.
pub open spec fn md_dependencies(v: Seq<DependencyView>) -> Seq<char>
    decreases v.len(),
{
    if v.len() == 0 {
        Seq::empty()
    } else {
        md_dependencies(v.drop_last()) + md_dependency(v.last())
    }
}

/// The section on version changes, if there are any.
pub open spec fn md_dependency_section(v: Seq<DependencyView>) -> Seq<char> {
    if v.len() == 0 {
        ""@
    } else {
        "## Dependency changes\n\n"@ + md_dependencies(v) + "\n"@
    }
}

/// The lines of evidence.
pub open spec fn md_evidence(v: Seq<Seq<char>>) -> Seq<char>
    decreases v.len(),
{
    if v.len() == 0 {
        Seq::empty()
    } else {
        md_evidence(v.drop_last()) + ("   - "@ + v.last() + "\n"@)
    }
}

/// The entry of a cause at the place `n` of the ranking.
pub open spec fn md_cause(n: nat, c: CauseView) -> Seq<char> {
    text::dec(n) + ". `"@ + c.path + "` — relevance "@ + text::dec_signed(c.score) + "\n"@
        + md_evidence(c.evidence)
}

/// The entries of causes.
pub open spec fn md_causes(v: Seq<CauseView>) -> Seq<char>
    decreases v.len(),
{
    if v.len() == 0 {
        Seq::empty()
    } else {
        md_causes(v.drop_last()) + md_cause(v.len(), v.last())
    }
}

/// The first `n` members of a list, or all of them if there are fewer.
pub open spec fn at_most<A>(v: Seq<A>, n: nat) -> Seq<A> {
    if v.len() <= n {
        v
    } else {
        v.take(n as int)
    }
}

/// The section on likely causes: the first ten of the ranking if there is one,
/// and a note if the tests failed and there is none.
pub open spec fn md_cause_section(investigated: bool, passed: bool, causes: Seq<CauseView>) -> Seq<
    char,
> {
    if investigated {
        "## Likely causes\n\n_Ranked by relevance score. These are likely causes, not confirmed diagnoses._\n\n"@
            + md_causes(at_most(causes, 10)) + "\n"@
    } else if !passed {
        "## Likely causes\n\n_No prior passing run to compare against, so no ranking was produced._\n\n"@
    } else {
        ""@
    }
}

/// The summary of a report for people.
pub open spec fn md_text(r: CiReport) -> Seq<char> {
    md_head(r) + md_changed(changed_views(r.changed_files@)) + md_dependency_section(
        exec::dependency_views(r.dependency_changes@),
    ) + md_cause_section(r.investigated, r.passed, investigate::cause_views(r.likely_causes@))
}

fn show_head(r: &CiReport) -> (md: String)
    ensures
        md@ == md_head(*r),
{
    let mut md = "# Rewind CI Report — ".to_string();
    if r.passed {
        md.append("✅ PASSED");
    } else {
        md.append("❌ FAILED");
    }
    md.append("\n\n- **Command:** `");
    md.append(r.command.as_str());
    md.append("`\n- **Exit code:** ");
    match r.exit_code {
        Some(c) => {
            let n = text::show_signed(c as i64);
            md.append(n.as_str());
        },
        None => md.append("killed"),
    }
    md.append("\n- **Duration:** ");
    let d = util::format_duration_ms(r.duration_ms);
    md.append(d.as_str());
    md.append("\n");
    if r.timed_out {
        md.append("- **Timed out:** yes\n");
    } else {
        md.append("");
    }
    if r.cancelled {
        md.append("- **Cancelled:** yes\n");
    } else {
        md.append("");
    }
    md.append("- **Generated:** ");
    md.append(r.generated_at.as_str());
    md.append("\n- **Rewind:** v");
    md.append(r.rewind_version.as_str());
    md.append("\n\n");
    md
}

fn show_row(f: &ChangedFile) -> (md: String)
    ensures
        md@ == md_row(f@),
{
    let mut md = "| ".to_string();
    md.append(f.status.as_str());
    md.append(" | `");
    md.append(f.path.as_str());
    md.append("` | +");
    text::push_dec(&mut md, f.added as u128);
    md.append(" / -");
    text::push_dec(&mut md, f.removed as u128);
    md.append(" |\n");
    md
}

fn show_changed(files: &Vec<ChangedFile>) -> (md: String)
    ensures
        md@ == md_changed(changed_views(files@)),
{
    let mut md = "## Changed files (".to_string();
    text::push_dec(&mut md, files.len() as u128);
    md.append(")\n\n");
    if files.len() == 0 {
        md.append("_No tracked file changes._\n\n");
        return md;
    }
    let ghost all = changed_views(files@);
    let mut table = "| Status | File | +/- |\n|---|---|---|\n".to_string();
    let mut rows = String::new();
    let mut i: usize = 0;
    proof {
        assert(all.take(0) =~= Seq::<ChangedView>::empty());
        assert(rows@ =~= Seq::<char>::empty());
    }
    while i < files.len()
        invariant
            i <= files@.len(),
            all == changed_views(files@),
            rows@ == md_rows(all.take(i as int)),
        decreases files@.len() - i,
    {
        let row = show_row(&files[i]);
        rows.append(row.as_str());
        proof {
            assert(all.take(i + 1).drop_last() =~= all.take(i as int));
            assert(all.take(i + 1).last() == files@[i as int]@);
        }
        i += 1;
    }
    proof {
        assert(all.take(i as int) =~= all);
    }
    table.append(rows.as_str());
    table.append("\n");
    md.append(table.as_str());
    md
}

fn append_version(md: &mut String, v: &Option<String>)
    ensures
        final(md)@ == old(md)@ + version_or_dash(text::opt_text(*v)),
{
    match v {
        Some(s) => md.append(s.as_str()),
        None => md.append("—"),
    }
}

fn show_dependencies(v: &Vec<DependencyChange>) -> (md: String)
    ensures
        md@ == md_dependency_section(exec::dependency_views(v@)),
{
    if v.len() == 0 {
        return "".to_string();
    }
    let ghost all = exec::dependency_views(v@);
    let mut lines = String::new();
    let mut i: usize = 0;
    proof {
        assert(all.take(0) =~= Seq::<DependencyView>::empty());
        assert(lines@ =~= Seq::<char>::empty());
    }
    while i < v.len()
        invariant
            i <= v@.len(),
            all == exec::dependency_views(v@),
            lines@ == md_dependencies(all.take(i as int)),
        decreases v@.len() - i,
    {
        let d = &v[i];
        let mut line = "- `".to_string();
        line.append(d.name.as_str());
        line.append("` in `");
        line.append(d.file.as_str());
        line.append("`: ");
        append_version(&mut line, &d.old);
        line.append(" → ");
        append_version(&mut line, &d.new);
        line.append("\n");
        lines.append(line.as_str());
        proof {
            assert(all.take(i + 1).drop_last() =~= all.take(i as int));
            assert(all.take(i + 1).last() == d@);
        }
        i += 1;
    }
    proof {
        assert(all.take(i as int) =~= all);
    }
    let mut md = "## Dependency changes\n\n".to_string();
    md.append(lines.as_str());
    md.append("\n");
    md
}

fn show_evidence(v: &Vec<String>) -> (md: String)
    ensures
        md@ == md_evidence(text::texts(v@)),
{
    let ghost all = text::texts(v@);
    let mut md = String::new();
    let mut i: usize = 0;
    proof {
        assert(all.take(0) =~= Seq::<Seq<char>>::empty());
        assert(md@ =~= Seq::<char>::empty());
    }
    while i < v.len()
        invariant
            i <= v@.len(),
            all == text::texts(v@),
            md@ == md_evidence(all.take(i as int)),
        decreases v@.len() - i,
    {
        let mut line = "   - ".to_string();
        line.append(v[i].as_str());
        line.append("\n");
        md.append(line.as_str());
        proof {
            assert(all.take(i + 1).drop_last() =~= all.take(i as int));
            assert(all.take(i + 1).last() == v@[i as int]@);
        }
        i += 1;
    }
    proof {
        assert(all.take(i as int) =~= all);
    }
    md
}

fn show_causes(v: &Vec<LikelyCause>, max: usize) -> (md: String)
    ensures
        md@ == md_causes(at_most(investigate::cause_views(v@), max as nat)),
{
    let ghost all = investigate::cause_views(v@);
    let n: usize = if v.len() <= max {
        v.len()
    } else {
        max
    };
    let mut md = String::new();
    let mut i: usize = 0;
    proof {
        assert(all.take(0) =~= Seq::<CauseView>::empty());
        assert(md@ =~= Seq::<char>::empty());
    }
    while i < n
        invariant
            i <= n <= v@.len(),
            all == investigate::cause_views(v@),
            md@ == md_causes(all.take(i as int)),
        decreases n - i,
    {
        let c = &v[i];
        let mut entry = text::show_dec(i as u128 + 1);
        entry.append(". `");
        entry.append(c.path.as_str());
        entry.append("` — relevance ");
        let s = text::show_signed(c.score as i64);
        entry.append(s.as_str());
        entry.append("\n");
        let evidence = show_evidence(&c.evidence);
        entry.append(evidence.as_str());
        md.append(entry.as_str());
        proof {
            assert(all.take(i + 1).drop_last() =~= all.take(i as int));
            assert(all.take(i + 1).last() == c@);
        }
        i += 1;
    }
    proof {
        if v@.len() <= max {
            assert(all.take(n as int) =~= all);
        }
    }
    md
}

/// The summary of a report for people.
pub fn render_summary_md(report: &CiReport) -> (md: String)
    ensures
        md@ == md_text(*report),
{
    let mut md = show_head(report);
    let changed = show_changed(&report.changed_files);
    md.append(changed.as_str());
    let dependencies = show_dependencies(&report.dependency_changes);
    md.append(dependencies.as_str());
    if report.investigated {
        let mut section =
            "## Likely causes\n\n_Ranked by relevance score. These are likely causes, not confirmed diagnoses._\n\n".to_string();
        let causes = show_causes(&report.likely_causes, 10);
        section.append(causes.as_str());
        section.append("\n");
        md.append(section.as_str());
    } else if !report.passed {
        md.append(
            "## Likely causes\n\n_No prior passing run to compare against, so no ranking was produced._\n\n",
        );
    } else {
        md.append("");
    }
    md
}

/// Where the report goes: to `path`, taken relative to the root of the
/// repository, or else to the usual directory there.
pub fn resolve_out_dir(repo_root: &str, path: Option<&str>) -> (r: String)
    ensures
        r@ == paths::joined(
            repo_root@,
            match path {
                Some(p) => p@,
                None => REPORT_DIR@,
            },
        ),
{
    match path {
        Some(p) => paths::join(repo_root, p),
        None => paths::join(repo_root, REPORT_DIR),
    }
}

} // verus!
