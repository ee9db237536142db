//! Laws of the investigation of a failure and of the reports on it.

use vstd::prelude::*;

use crate::ci;
use crate::ci::ChangedFile;
use crate::ci::CiReport;
use crate::diff;
use crate::diff::FileChange;
use crate::error::RewindError;
use crate::exec;
use crate::exec::DependencyChange;
use crate::investigate::Investigation;
use crate::investigate;
use crate::investigate::CauseSignals;
use crate::investigate::LikelyCause;
use crate::models::SnapshotFile;
use crate::models::TestRun;
use crate::objects::Loaded;
use crate::session::TestResult;
use crate::text;
use crate::text::CharClass;
use crate::text_map::TextMap;
use crate::text_map::TextSet;
use crate::util;

verus! {

// ---------------------------------------------------------------------------
// Traces and output
// ---------------------------------------------------------------------------

/// A line that names a place in a source file is a frame of a stack trace,
/// whatever stands before and behind it.
pub proof fn lemma_frame_names_source(line: &str, r: bool, a: Seq<char>, b: Seq<char>)
    requires
        call_ensures(investigate::is_stack_frame_line, (line,), r),
    ensures
        line@ == a + ".rs:"@ + b ==> r,
        line@ == a + ".py:"@ + b ==> r,
        line@ == a + ".py\""@ + b ==> r,
        line@ == a + ".js:"@ + b ==> r,
        line@ == a + ".jsx:"@ + b ==> r,
        line@ == a + ".ts:"@ + b ==> r,
        line@ == a + ".tsx:"@ + b ==> r,
        line@ == a + ".go:"@ + b ==> r,
        line@ == a + ".rb:"@ + b ==> r,
        line@ == a + ".java:"@ + b ==> r,
        line@ == a + ".kt:"@ + b ==> r,
        line@ == a + ".c:"@ + b ==> r,
        line@ == a + ".cc:"@ + b ==> r,
        line@ == a + ".cpp:"@ + b ==> r,
        line@ == a + ".h:"@ + b ==> r,
        line@ == a + ".ex:"@ + b ==> r,
        line@ == a + ".exs:"@ + b ==> r,
        line@ == a + ".php:"@ + b ==> r,
        line@ == a + ".cs:"@ + b ==> r,
        line@ == a + ".swift:"@ + b ==> r,
{
    investigate::laws::lemma_source_reference_is_frame(a, b);
}

/// A line that begins as one of a trace, or speaks of one, is a frame.
pub proof fn lemma_frame_of_trace(line: &str, r: bool, w: Seq<char>, a: Seq<char>, b: Seq<char>)
    requires
        call_ensures(investigate::is_stack_frame_line, (line,), r),
        text::all_in(w, CharClass::WhiteSpace),
    ensures
        line@ == w + "at "@ + b ==> r,
        line@ == w + "File \""@ + b ==> r,
        line@ == w + "from "@ + b ==> r,
        line@ == a + "panicked at"@ + b ==> r,
        line@ == a + "Traceback"@ + b ==> r,
        line@ == a + "stack backtrace"@ + b ==> r,
{
    investigate::laws::lemma_trace_line_is_frame(w, a, b);
}

/// A file stands in a stack trace if a frame of it names the file, and in no other
/// case.
pub proof fn lemma_stands_in_trace(
    lines: &Vec<String>,
    path: &str,
    r: bool,
    line: &str,
    frame: bool,
    named: bool,
    i: int,
)
    requires
        call_ensures(investigate::in_stack_trace, (lines, path), r),
        call_ensures(investigate::is_stack_frame_line, (line,), frame),
        call_ensures(investigate::output_mentions, (line, path), named),
        0 <= i < lines@.len(),
        lines@[i]@ == line@,
    ensures
        frame && named ==> r,
        lines@.len() == 1 ==> r == (frame && named),
{
    assert(text::texts(lines@)[i] == line@);
}

/// Output names a file by its path or, if that is long enough, by its base name.
pub proof fn lemma_output_names(output: &str, path: &str, r: bool, d: Seq<char>, n: Seq<char>)
    requires
        call_ensures(investigate::output_mentions, (output, path), r),
        path@ == d + "/"@ + n,
        !n.contains('/'),
    ensures
        text::occurs(output@, path@) ==> r,
        n.len() >= 3 && text::occurs(output@, n) ==> r,
        r ==> text::occurs(output@, n),
{
    investigate::laws::lemma_mentions(output@, d, n);
}

/// The end of an output is its last lines, as many as are asked for.
pub proof fn lemma_excerpt(lines: &Vec<String>, max: usize, r: String)
    requires
        call_ensures(investigate::tail_excerpt, (lines, max), r),
    ensures
        lines@.len() <= max ==> r@ == text::joined(text::texts(lines@), "\n"@),
        lines@.len() > max ==> r@ == text::joined(
            text::texts(lines@).skip(lines@.len() - max),
            "\n"@,
        ),
{
    let all = text::texts(lines@);
    if lines@.len() <= max {
        let none = Seq::<Seq<char>>::empty();
        assert(none + all =~= all);
        investigate::laws::lemma_tail(none, all, max as nat);
    } else {
        let k = lines@.len() - max;
        assert(all.take(k) + all.skip(k) =~= all);
        investigate::laws::lemma_tail(all.take(k), all.skip(k), max as nat);
    }
}

/// The lines kept of an output name the file, and there are no more than asked
/// for. While there is room none that names it is left out.
pub proof fn lemma_relevant_lines(
    lines: &Vec<String>,
    path: &str,
    max: usize,
    r: Vec<String>,
    j: int,
)
    requires
        call_ensures(investigate::relevant_output_lines, (lines, path, max), r),
        0 <= j < lines@.len(),
    ensures
        r@.len() <= max,
        r@.len() < max && investigate::mentions(lines@[j]@, path@) ==> text::texts(r@).contains(
            text::strip_back(lines@[j]@, CharClass::WhiteSpace),
        ),
{
    let all = text::texts(lines@);
    investigate::laws::lemma_naming_lines(all, path@, max as nat);
    assert(all[j] == lines@[j]@);
    assert(text::texts(r@).len() == r@.len());
}

// ---------------------------------------------------------------------------
// Scores and versions
// ---------------------------------------------------------------------------

/// Each sign adds its weight to the score, whatever the other signs, and no sign
/// scores nothing.
pub proof fn lemma_score_of_signs(s: CauseSignals, r: i32)
    requires
        call_ensures(investigate::score, (&s,), r),
    ensures
        r == (if s.in_stack_trace { 5int } else { 0 }) + (if s.dependency_changed { 4int } else { 0 })
            + (if s.changed_between_pass_and_fail { 3int } else { 0 }) + (
        if s.in_failing_output { 3int } else { 0 }) + (
        if s.changed_before_failure { 2int } else { 0 }) - (
        if s.generated_or_unrelated { 3int } else { 0 }),
{
    investigate::laws::lemma_score(s);
}

/// Each sign that counts is told, and none else.
pub proof fn lemma_evidence_told(s: CauseSignals, r: Vec<String>)
    requires
        call_ensures(investigate::evidence, (&s,), r),
    ensures
        ({
            let lines = text::texts(r@);
            &&& lines.contains("appears in a stack-trace line (+5)"@) <==> s.in_stack_trace
            &&& lines.contains("dependency version changed (+4)"@) <==> s.dependency_changed
            &&& lines.contains("changed between the last pass and the failure (+3)"@)
                <==> s.changed_between_pass_and_fail
            &&& lines.contains("path appears in failing output (+3)"@) <==> s.in_failing_output
            &&& lines.contains("changed immediately before the failing run (+2)"@)
                <==> s.changed_before_failure
            &&& lines.contains("looks generated or unrelated (-3)"@) <==> s.generated_or_unrelated
        }),
{
    investigate::laws::lemma_evidence(s);
}

/// A manifest of one line gives the version of that line.
pub proof fn lemma_version_read(
    manifest: &str,
    r: TextMap<String>,
    n: Seq<char>,
    v: Seq<char>,
    k: int,
)
    requires
        call_ensures(investigate::parse_versions, (manifest,), r),
        investigate::laws::is_package(n),
        investigate::laws::is_ranged(v, k),
        manifest@ == n + " = \""@ + v + "\""@ || manifest@ == "\""@ + n + "\": \""@ + v + "\""@,
        !v.contains('\n'),
    ensures
        r@.contains_key(n),
        r@[n]@ == v,
{
    reveal_strlit(" = \"");
    reveal_strlit("\"");
    reveal_strlit("\": \"");
    let none = Seq::<char>::empty();
    let line = manifest@;
    assert(none + line + none =~= line);
    assert(text::all_in(none, CharClass::WhiteSpace));
    investigate::laws::lemma_manifest_lines(none, n, v, k, none);
    assert(!line.contains('\n')) by {
        if line.contains('\n') {
            let i = line.index_of('\n');
            lemma_no_line_end(n, v, line, i);
        }
    }
    text::lemma_lines_step(line, none);
    assert(text::lines_of(line) =~= seq![line]);
    let nothing = Seq::<Seq<char>>::empty();
    assert(nothing.push(line) =~= seq![line]);
    investigate::laws::lemma_last_version_counts(nothing, line, n);
    assert(investigate::value_texts(r@).contains_key(n));
}

proof fn lemma_no_line_end(n: Seq<char>, v: Seq<char>, line: Seq<char>, i: int)
    requires
        investigate::laws::is_package(n),
        line == n + " = \""@ + v + "\""@ || line == "\""@ + n + "\": \""@ + v + "\""@,
        !v.contains('\n'),
        0 <= i < line.len(),
    ensures
        line[i] != '\n',
{
    reveal_strlit(" = \"");
    reveal_strlit("\"");
    reveal_strlit("\": \"");
    assert(forall|k: int|
        0 <= k < n.len() ==> investigate::laws::is_package_char(#[trigger] n[k]));
    assert(forall|k: int| 0 <= k < v.len() ==> v.contains(#[trigger] v[k]));
    if line == n + " = \""@ + v + "\""@ {
        let a = n.len() as int;
        if i < a {
            assert(line[i] == n[i]);
        } else if i < a + 4 {
            assert(line[i] == " = \""@[i - a]);
        } else if i < a + 4 + v.len() {
            assert(line[i] == v[i - a - 4]);
        } else {
            assert(line[i] == "\""@[0]);
        }
    } else {
        let a = n.len() as int;
        if i < 1 {
            assert(line[i] == "\""@[0]);
        } else if i < a + 1 {
            assert(line[i] == n[i - 1]);
        } else if i < a + 5 {
            assert(line[i] == "\": \""@[i - a - 1]);
        } else if i < a + 5 + v.len() {
            assert(line[i] == v[i - a - 5]);
        } else {
            assert(line[i] == "\""@[0]);
        }
    }
}

/// A version change is told of each package that is in only one of two manifests
/// or has two versions in them, and of no other.
pub proof fn lemma_versions_compared(
    file: &str,
    old: &TextMap<String>,
    new: &TextMap<String>,
    r: Vec<DependencyChange>,
    n: Seq<char>,
)
    requires
        call_ensures(investigate::version_diff, (file, old, new), r),
    ensures
        (exists|i: int| 0 <= i < r@.len() && (#[trigger] r@[i]).name@ == n) <==> (
        old@.contains_key(n) != new@.contains_key(n) || (old@.contains_key(n)
            && new@.contains_key(n) && old@[n]@ != new@[n]@)),
        forall|i: int| 0 <= i < r@.len() ==> (#[trigger] r@[i]).file@ == file@,
{
    let v = exec::dependency_views(r@);
    let a = investigate::value_texts(old@);
    let b = investigate::value_texts(new@);
    investigate::laws::lemma_version_changes(v, file@, a, b, n);
    if exists|i: int| 0 <= i < r@.len() && (#[trigger] r@[i]).name@ == n {
        let i = choose|i: int| 0 <= i < r@.len() && (#[trigger] r@[i]).name@ == n;
        assert(v[i].name == n);
    }
    if exists|i: int| 0 <= i < v.len() && (#[trigger] v[i]).name == n {
        let i = choose|i: int| 0 <= i < v.len() && (#[trigger] v[i]).name == n;
        assert(r@[i].name@ == n);
    }
    assert forall|i: int| 0 <= i < r@.len() implies (#[trigger] r@[i]).file@ == file@ by {
        assert(v[i] == r@[i]@);
        investigate::laws::lemma_version_changes(v, file@, a, b, v[i].name);
    }
}

/// Causes come in the order of their scores, the highest first, and there is one
/// for each change.
pub proof fn lemma_ranked(
    objects: &Loaded,
    changes: &Vec<FileChange>,
    before: &TextSet,
    output: &str,
    r: (Vec<LikelyCause>, Vec<DependencyChange>),
    i: int,
    j: int,
)
    requires
        call_ensures(investigate::rank_causes, (objects, changes, before, output), r),
        0 <= i < j < r.0@.len(),
    ensures
        r.0@.len() == changes@.len(),
        r.0@[i]@.score >= r.0@[j]@.score,
        exists|k: int| 0 <= k < changes@.len() && (#[trigger] changes@[k])@.path == r.0@[i]@.path,
{
    let causes = investigate::cause_views(r.0@);
    let views = diff::change_views(changes@);
    let all = investigate::causes_of(objects@, views, before@.dom(), output@);
    investigate::laws::lemma_ranking_order(causes, all, i, j);
    assert(causes[i] == r.0@[i]@ && causes[j] == r.0@[j]@);
    let k = choose|k: int| 0 <= k < all.len() && all[k] == causes[i];
    investigate::laws::lemma_cause(objects@, views[k], before@.dom(), output@);
    assert(views[k] == changes@[k]@);
}

// ---------------------------------------------------------------------------
// Reports
// ---------------------------------------------------------------------------

/// Each changed file is reported in its place, with its path, the word for its
/// change and its line counts.
pub proof fn lemma_files_reported(
    objects: &Loaded,
    changes: &Vec<FileChange>,
    r: Vec<ChangedFile>,
    i: int,
)
    requires
        call_ensures(ci::changed_files, (objects, changes), r),
        0 <= i < changes@.len(),
    ensures
        r@.len() == changes@.len(),
        r@[i].path@ == changes@[i]@.path,
        changes@[i]@.status is Added ==> r@[i].status@ == "added"@,
        changes@[i]@.status is Modified ==> r@[i].status@ == "modified"@,
        changes@[i]@.status is Deleted ==> r@[i].status@ == "deleted"@,
        changes@[i]@.status is Renamed ==> r@[i].status@ == "renamed"@,
        diff::counts_of(objects@, changes@[i]@.old_hash, changes@[i]@.new_hash) matches Some(
            (added, removed),
        ) ==> r@[i].added == added && r@[i].removed == removed,
{
    let v = ci::changed_views(r@);
    assert(v.len() == r@.len());
    assert(v[i] == ci::reported(objects@, changes@[i]@));
    assert(v[i] == r@[i]@);
}

/// The process that reports ends with 0 exactly if the tests passed.
pub proof fn lemma_report_status(report: &CiReport, code: i32, status: u8)
    requires
        call_ensures(CiReport::exit_code_for_process, (report,), code),
        call_ensures(CiReport::process_status, (report,), status),
    ensures
        code == 0 <==> report.passed,
        status == 0 <==> report.passed,
        !report.passed && report.exit_code is Some && report.exit_code->0 != 0 ==> code
            == report.exit_code->0,
        !report.passed && report.exit_code is Some && 0 < report.exit_code->0 <= 255 ==> status
            == report.exit_code->0,
{
}

/// Changes are reported since the snapshot after the last pass if there was an
/// investigation, and else since the one before the run.
pub proof fn lemma_base(investigated: bool, passing: Option<i64>, pre: i64, r: i64)
    requires
        call_ensures(ci::base_snapshot, (investigated, passing, pre), r),
    ensures
        investigated && passing is Some ==> r == passing->0,
        !investigated || passing is None ==> r == pre,
{
}

/// A report takes over what came of the run.
pub proof fn lemma_report(
    version: &str,
    now: i64,
    command: Option<&str>,
    result: TestResult,
    changed: Vec<ChangedFile>,
    r: CiReport,
)
    requires
        call_ensures(ci::make_report, (version, now, command, result, changed), r),
    ensures
        r.passed == result.passed,
        r.exit_code == result.outcome.exit_code,
        r.timed_out == result.outcome.timed_out,
        r.cancelled == result.outcome.cancelled,
        r.duration_ms == result.outcome.duration_ms,
        r.changed_files == changed,
        command is Some ==> r.command@ == command->0@,
        r.investigated <==> result.investigation is Some,
        result.investigation is Some ==> r.likely_causes@.len()
            == result.investigation->0.causes@.len() && r.dependency_changes@.len()
            == result.investigation->0.dependency_changes@.len(),
        result.investigation is None ==> r.likely_causes@.len() == 0 && r.dependency_changes@.len()
            == 0,
        r.generated_at@ == util::timestamp_text(now as int),
        r.rewind_version@ == version@,
{
    assert(investigate::cause_views(r.likely_causes@).len() == r.likely_causes@.len());
    assert(exec::dependency_views(r.dependency_changes@).len() == r.dependency_changes@.len());
    if result.investigation is Some {
        ci::laws::lemma_found(result.investigation->0);
    }
}

/// The summary says whether the tests passed, and has a row for each changed file.
pub proof fn lemma_summary_rendered(report: &CiReport, md: String, i: int)
    requires
        call_ensures(ci::render_summary_md, (report,), md),
    ensures
        report.passed ==> "# Rewind CI Report — ✅ PASSED\n"@.is_prefix_of(md@),
        !report.passed ==> "# Rewind CI Report — ❌ FAILED\n"@.is_prefix_of(md@),
        text::occurs(md@, "- **Command:** `"@ + report.command@ + "`\n"@),
        0 <= i < report.changed_files@.len() ==> text::occurs(
            md@,
            "| "@ + report.changed_files@[i].status@ + " | `"@ + report.changed_files@[i].path@
                + "` | +"@ + text::dec(report.changed_files@[i].added as nat) + " / -"@ + text::dec(
                report.changed_files@[i].removed as nat,
            ) + " |\n"@,
        ),
{
    ci::laws::lemma_summary_head(*report);
    ci::laws::lemma_summary_files(*report, i);
    if 0 <= i < report.changed_files@.len() {
        assert(ci::changed_views(report.changed_files@)[i] == report.changed_files@[i]@);
    }
}

/// The patch of the changes tells each of them in full: every line of a file that
/// was added stands in it.
pub proof fn lemma_patch_in_full(
    objects: &Loaded,
    changes: &Vec<FileChange>,
    r: String,
    i: int,
    line: Seq<char>,
)
    requires
        call_ensures(ci::changes_patch, (objects, changes), r),
        0 <= i < changes@.len(),
        !(changes@[i]@.status is Deleted),
        diff::side_text(objects@, changes@[i]@.old_hash) is Some,
        diff::side_text(objects@, changes@[i]@.new_hash) is Some,
    ensures
        ({
            let old = diff::side_text(objects@, changes@[i]@.old_hash)->0;
            let new = diff::side_text(objects@, changes@[i]@.new_hash)->0;
            &&& diff::split_lines(new).contains(line) && !diff::split_lines(old).contains(line)
                ==> text::occurs(r@, "+"@ + line)
            &&& diff::split_lines(old).contains(line) && !diff::split_lines(new).contains(line)
                ==> text::occurs(r@, "-"@ + line)
            &&& old.len() == 0 && diff::split_lines(new).contains(line) ==> text::occurs(
                r@,
                "+"@ + line,
            )
        }),
{
    let c = changes@[i]@;
    let old = diff::side_text(objects@, c.old_hash)->0;
    let new = diff::side_text(objects@, c.new_hash)->0;
    assert(ci::tells_change(r@, c.path, old, new));
    let part = choose|part: Seq<char>| #[trigger]
        text::occurs(r@, part) && diff::patch::is_unified(part, c.path, old, new);
    diff::patch::lemma_unified_shows_lines(part, c.path, old, new, line);
    if diff::split_lines(new).contains(line) && (!diff::split_lines(old).contains(line) || old.len()
        == 0) {
        if old.len() == 0 {
            assert(old =~= Seq::<char>::empty());
            diff::patch::lemma_unified_shows_new_file(part, c.path, new, line);
        }
        text::lemma_occurs_trans(r@, part, "+"@ + line);
    }
    if diff::split_lines(old).contains(line) && !diff::split_lines(new).contains(line) {
        text::lemma_occurs_trans(r@, part, "-"@ + line);
    }
}

/// An investigation needs a failure and a pass to compare it with. It fails only if
/// the log of the failure is missing, and then ranks every file that differs.
pub proof fn lemma_investigated(
    failing: &TestRun,
    passing: Option<&TestRun>,
    passing_post: &Vec<SnapshotFile>,
    failing_post: &Vec<SnapshotFile>,
    failing_pre: &Vec<SnapshotFile>,
    objects: &Loaded,
    r: Result<Option<Investigation>, RewindError>,
)
    requires
        call_ensures(
            investigate::investigate,
            (failing, passing, passing_post, failing_post, failing_pre, objects),
            r,
        ),
    ensures
        passing is None ==> r is Ok && r->Ok_0 is None,
        r is Err ==> failing.log_object is Some && !objects@.contains_key(failing.log_object->0@),
        r is Ok && r->Ok_0 is Some ==> {
            let inv = r->Ok_0->0;
            &&& inv.failing_test_run_id == failing.id
            &&& passing is Some && inv.passing_test_run_id == Some(passing->0.id)
            &&& inv.related_command is Some && inv.related_command->0@ == failing.command@
        },
{
    if failing.log_object is Some {
        investigate::laws::lemma_output(objects@, failing.log_object->0@);
    }
}

/// Objects are loaded for each side of each change and for the log, and no others.
pub proof fn lemma_objects_needed(
    changes: &Vec<FileChange>,
    log: &Option<String>,
    r: TextSet,
    i: int,
    h: Seq<char>,
)
    requires
        call_ensures(investigate::objects_needed, (changes, log), r),
    ensures
        *log is Some ==> r@.contains_key((*log)->0@),
        0 <= i < changes@.len() && changes@[i]@.old_hash is Some ==> r@.contains_key(
            changes@[i]@.old_hash->0,
        ),
        0 <= i < changes@.len() && changes@[i]@.new_hash is Some ==> r@.contains_key(
            changes@[i]@.new_hash->0,
        ),
{
    let v = diff::change_views(changes@);
    if *log is Some {
        assert(investigate::reads_object(v, text::opt_text(*log), (*log)->0@));
        assert(r@.dom().contains((*log)->0@));
    }
    if 0 <= i < changes@.len() {
        assert(v[i] == changes@[i]@);
        if changes@[i]@.old_hash is Some {
            assert(investigate::reads_object(v, text::opt_text(*log), v[i].old_hash->0));
            assert(r@.dom().contains(v[i].old_hash->0));
        }
        if changes@[i]@.new_hash is Some {
            assert(investigate::reads_object(v, text::opt_text(*log), v[i].new_hash->0));
            assert(r@.dom().contains(v[i].new_hash->0));
        }
    }
}

/// The summary of a ranking names its first cause.
pub proof fn lemma_summary_names(causes: &Vec<LikelyCause>, total: usize, r: String)
    requires
        call_ensures(investigate::build_summary, (causes, total), r),
        causes@.len() > 0,
    ensures
        text::dec(total as nat).is_prefix_of(r@),
        text::occurs(r@, "most relevant: "@ + causes@[0]@.path + " "@),
        text::occurs(r@, "(relevance "@ + text::dec_signed(causes@[0]@.score) + ")"@),
{
    let v = investigate::cause_views(causes@);
    assert(v[0] == causes@[0]@);
    investigate::laws::lemma_summary(v, total as nat);
}

/// A report goes to the directory named, below the repository unless that is
/// absolute.
pub proof fn lemma_out_dir(root: &str, path: Option<&str>, r: String)
    requires
        call_ensures(ci::resolve_out_dir, (root, path), r),
    ensures
        path is Some && path->0@.len() > 0 && path->0@[0] == '/' ==> r@ == path->0@,
        path is None && root@.len() > 0 && root@.last() != '/' ==> r@ == root@ + "/"@
            + ".rewind-report"@,
{
    reveal_strlit(".rewind-report");
    crate::paths::laws::lemma_joining(root@, ".rewind-report"@);
}

} // verus!
