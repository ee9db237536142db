//! Laws of the reports.

use vstd::prelude::*;

use crate::ci;
use crate::ci::ChangedView;
use crate::ci::CiReport;
use crate::diff;
use crate::diff::ChangeView;
use crate::diff::StatusView;
use crate::exec;
use crate::exec::DependencyView;
use crate::investigate;
use crate::investigate::CauseView;
use crate::investigate::Investigation;
use crate::text;
use crate::util;

verus! {

/// The words for the ways a file changes.
pub proof fn lemma_words(s: StatusView)
    ensures
        s is Added ==> ci::word_of(s) == "added"@,
        s is Modified ==> ci::word_of(s) == "modified"@,
        s is Deleted ==> ci::word_of(s) == "deleted"@,
        s is Renamed ==> ci::word_of(s) == "renamed"@,
{
}

/// A change stands in the report with its path, its word and its line counts,
/// which are zero where there are none.
pub proof fn lemma_reported(objects: Map<Seq<char>, Vec<u8>>, change: ChangeView)
    ensures
        ({
            let f = ci::reported(objects, change);
            &&& f.path == change.path
            &&& f.status == ci::word_of(change.status)
            &&& match diff::counts_of(objects, change.old_hash, change.new_hash) {
                Some((added, removed)) => f.added == added && f.removed == removed,
                None => f.added == 0 && f.removed == 0,
            }
        }),
{
}

// ---------------------------------------------------------------------------
// The summary for people
// ---------------------------------------------------------------------------

proof fn lemma_front(a: Seq<char>, b: Seq<char>)
    ensures
        text::occurs(a + b, a),
        text::occurs(a + b, b),
{
    let none = Seq::<char>::empty();
    assert(a + b =~= none + a + b);
    assert(a + b =~= a + b + none);
    text::lemma_occurs_within(none, a, b);
    text::lemma_occurs_within(a, b, none);
}

/// The parts of the summary stand in it.
proof fn lemma_sections(r: CiReport)
    ensures
        ({
            let md = ci::md_text(r);
            &&& text::occurs(md, ci::md_head(r))
            &&& ci::md_head(r).is_prefix_of(md)
            &&& text::occurs(md, ci::md_changed(ci::changed_views(r.changed_files@)))
            &&& text::occurs(
                md,
                ci::md_dependency_section(exec::dependency_views(r.dependency_changes@)),
            )
            &&& text::occurs(
                md,
                ci::md_cause_section(
                    r.investigated,
                    r.passed,
                    investigate::cause_views(r.likely_causes@),
                ),
            )
        }),
{
    let h = ci::md_head(r);
    let f = ci::md_changed(ci::changed_views(r.changed_files@));
    let d = ci::md_dependency_section(exec::dependency_views(r.dependency_changes@));
    let c = ci::md_cause_section(
        r.investigated,
        r.passed,
        investigate::cause_views(r.likely_causes@),
    );
    lemma_four(h, f, d, c);
}

proof fn lemma_four(a: Seq<char>, b: Seq<char>, c: Seq<char>, d: Seq<char>)
    ensures
        text::occurs(a + b + c + d, a),
        a.is_prefix_of(a + b + c + d),
        text::occurs(a + b + c + d, b),
        text::occurs(a + b + c + d, c),
        text::occurs(a + b + c + d, d),
{
    let all = a + b + c + d;
    let none = Seq::<char>::empty();
    assert(all.subrange(0, a.len() as int) =~= a);
    assert(all =~= none + a + (b + c + d));
    text::lemma_occurs_within(none, a, b + c + d);
    assert(all =~= a + b + (c + d));
    text::lemma_occurs_within(a, b, c + d);
    text::lemma_occurs_within(a + b, c, d);
    assert(all =~= (a + b + c) + d + none);
    text::lemma_occurs_within(a + b + c, d, none);
}

/// The head of the summary says whether the tests passed, what was run, how it
/// ended, how long it took, when that was, and what made the report.
pub proof fn lemma_summary_head(r: CiReport)
    ensures
        ({
            let md = ci::md_text(r);
            &&& r.passed ==> "# Rewind CI Report — ✅ PASSED\n"@.is_prefix_of(md)
            &&& !r.passed ==> "# Rewind CI Report — ❌ FAILED\n"@.is_prefix_of(md)
            &&& text::occurs(md, "- **Command:** `"@ + r.command@ + "`\n"@)
            &&& r.exit_code matches Some(c) ==> text::occurs(
                md,
                "- **Exit code:** "@ + text::dec_signed(c as int) + "\n"@,
            )
            &&& r.exit_code is None ==> text::occurs(md, "- **Exit code:** killed\n"@)
            &&& text::occurs(
                md,
                "- **Duration:** "@ + util::duration_text(r.duration_ms as int) + "\n"@,
            )
            &&& r.timed_out ==> text::occurs(md, "- **Timed out:** yes\n"@)
            &&& r.cancelled ==> text::occurs(md, "- **Cancelled:** yes\n"@)
            &&& text::occurs(md, "- **Generated:** "@ + r.generated_at@ + "\n"@)
            &&& text::occurs(md, "- **Rewind:** v"@ + r.rewind_version@ + "\n"@)
        }),
{
    let md = ci::md_text(r);
    let h = ci::md_head(r);
    lemma_sections(r);
    lemma_head_verdict(r);
    lemma_head_run(r);
    lemma_head_rest(r);
    if r.passed {
        lemma_prefix_of_prefix("# Rewind CI Report — ✅ PASSED\n"@, h, md);
    } else {
        lemma_prefix_of_prefix("# Rewind CI Report — ❌ FAILED\n"@, h, md);
    }
    text::lemma_occurs_trans(md, h, "- **Command:** `"@ + r.command@ + "`\n"@);
    match r.exit_code {
        Some(c) => {
            text::lemma_occurs_trans(
                md,
                h,
                "- **Exit code:** "@ + text::dec_signed(c as int) + "\n"@,
            );
        },
        None => {
            text::lemma_occurs_trans(md, h, "- **Exit code:** killed\n"@);
        },
    }
    text::lemma_occurs_trans(
        md,
        h,
        "- **Duration:** "@ + util::duration_text(r.duration_ms as int) + "\n"@,
    );
    if r.timed_out {
        text::lemma_occurs_trans(md, h, "- **Timed out:** yes\n"@);
    }
    if r.cancelled {
        text::lemma_occurs_trans(md, h, "- **Cancelled:** yes\n"@);
    }
    text::lemma_occurs_trans(md, h, "- **Generated:** "@ + r.generated_at@ + "\n"@);
    text::lemma_occurs_trans(md, h, "- **Rewind:** v"@ + r.rewind_version@ + "\n"@);
}

proof fn lemma_prefix_of_prefix(a: Seq<char>, b: Seq<char>, c: Seq<char>)
    requires
        a.is_prefix_of(b),
        b.is_prefix_of(c),
    ensures
        a.is_prefix_of(c),
{
    assert(c.subrange(0, a.len() as int) =~= b.subrange(0, a.len() as int)) by {
        assert forall|i: int| 0 <= i < a.len() implies c[i] == b[i] by {
            assert(b[i] == c.subrange(0, b.len() as int)[i]);
        }
    }
}

spec fn verdict_of(r: CiReport) -> Seq<char> {
    if r.passed {
        "✅ PASSED"@
    } else {
        "❌ FAILED"@
    }
}

spec fn code_of(r: CiReport) -> Seq<char> {
    match r.exit_code {
        Some(c) => text::dec_signed(c as int),
        None => "killed"@,
    }
}

spec fn late_of(r: CiReport) -> Seq<char> {
    if r.timed_out {
        "- **Timed out:** yes\n"@
    } else {
        ""@
    }
}

spec fn off_of(r: CiReport) -> Seq<char> {
    if r.cancelled {
        "- **Cancelled:** yes\n"@
    } else {
        ""@
    }
}

/// The head, cut into its lines.
proof fn lemma_head_lines(r: CiReport) -> (lines: Seq<Seq<char>>)
    ensures
        lines.len() == 8,
        lines[0] == "# Rewind CI Report — "@ + verdict_of(r) + "\n\n"@,
        lines[1] == "- **Command:** `"@ + r.command@ + "`\n"@,
        lines[2] == "- **Exit code:** "@ + code_of(r) + "\n"@,
        lines[3] == "- **Duration:** "@ + util::duration_text(r.duration_ms as int) + "\n"@,
        lines[4] == late_of(r),
        lines[5] == off_of(r),
        lines[6] == "- **Generated:** "@ + r.generated_at@ + "\n"@,
        lines[7] == "- **Rewind:** v"@ + r.rewind_version@ + "\n\n"@,
        lines.flatten() == ci::md_head(r),
{
    reveal_strlit("\n\n- **Command:** `");
    reveal_strlit("\n\n");
    reveal_strlit("- **Command:** `");
    reveal_strlit("`\n- **Exit code:** ");
    reveal_strlit("`\n");
    reveal_strlit("- **Exit code:** ");
    reveal_strlit("\n- **Duration:** ");
    reveal_strlit("- **Duration:** ");
    reveal_strlit("\n- **Rewind:** v");
    reveal_strlit("- **Rewind:** v");
    reveal_strlit("\n");
    let a = "# Rewind CI Report — "@ + verdict_of(r) + "\n\n"@;
    let b = "- **Command:** `"@ + r.command@ + "`\n"@;
    let c = "- **Exit code:** "@ + code_of(r) + "\n"@;
    let d = "- **Duration:** "@ + util::duration_text(r.duration_ms as int) + "\n"@;
    let e = late_of(r);
    let f = off_of(r);
    let g = "- **Generated:** "@ + r.generated_at@ + "\n"@;
    let h = "- **Rewind:** v"@ + r.rewind_version@ + "\n\n"@;
    let lines = seq![a, b, c, d, e, f, g, h];
    assert("\n\n- **Command:** `"@ =~= "\n\n"@ + "- **Command:** `"@);
    assert("`\n- **Exit code:** "@ =~= "`\n"@ + "- **Exit code:** "@);
    assert("\n- **Duration:** "@ =~= "\n"@ + "- **Duration:** "@);
    assert("\n- **Rewind:** v"@ =~= "\n"@ + "- **Rewind:** v"@);
    assert(ci::md_head(r) =~= a + b + c + d + e + f + g + h);
    lemma_eight(a, b, c, d, e, f, g, h);
    lines
}

proof fn lemma_eight(
    a: Seq<char>,
    b: Seq<char>,
    c: Seq<char>,
    d: Seq<char>,
    e: Seq<char>,
    f: Seq<char>,
    g: Seq<char>,
    h: Seq<char>,
)
    ensures
        seq![a, b, c, d, e, f, g, h].flatten() == a + b + c + d + e + f + g + h,
{
    let lines = seq![a, b, c, d, e, f, g, h];
    lines.lemma_flatten_and_flatten_alt_are_equivalent();
    reveal_with_fuel(Seq::flatten_alt, 9);
    assert(lines.drop_last() =~= seq![a, b, c, d, e, f, g]);
    assert(seq![a, b, c, d, e, f, g].drop_last() =~= seq![a, b, c, d, e, f]);
    assert(seq![a, b, c, d, e, f].drop_last() =~= seq![a, b, c, d, e]);
    assert(seq![a, b, c, d, e].drop_last() =~= seq![a, b, c, d]);
    assert(seq![a, b, c, d].drop_last() =~= seq![a, b, c]);
    assert(seq![a, b, c].drop_last() =~= seq![a, b]);
    assert(seq![a, b].drop_last() =~= seq![a]);
    assert(seq![a].drop_last() =~= Seq::<Seq<char>>::empty());
    assert(Seq::<char>::empty() + a =~= a);
}

proof fn lemma_head_verdict(r: CiReport)
    ensures
        r.passed ==> "# Rewind CI Report — ✅ PASSED\n"@.is_prefix_of(ci::md_head(r)),
        !r.passed ==> "# Rewind CI Report — ❌ FAILED\n"@.is_prefix_of(ci::md_head(r)),
{
    let lines = lemma_head_lines(r);
    reveal_strlit("# Rewind CI Report — ");
    reveal_strlit("✅ PASSED");
    reveal_strlit("❌ FAILED");
    reveal_strlit("# Rewind CI Report — ✅ PASSED\n");
    reveal_strlit("# Rewind CI Report — ❌ FAILED\n");
    reveal_strlit("\n\n");
    let h = ci::md_head(r);
    assert(h =~= lines[0] + lines.drop_first().flatten());
    let want = if r.passed {
        "# Rewind CI Report — ✅ PASSED\n"@
    } else {
        "# Rewind CI Report — ❌ FAILED\n"@
    };
    assert(h.subrange(0, want.len() as int) =~= lines[0].subrange(0, want.len() as int));
    assert(lines[0].subrange(0, want.len() as int) =~= want);
}

proof fn lemma_head_run(r: CiReport)
    ensures
        ({
            let h = ci::md_head(r);
            &&& text::occurs(h, "- **Command:** `"@ + r.command@ + "`\n"@)
            &&& r.exit_code matches Some(c) ==> text::occurs(
                h,
                "- **Exit code:** "@ + text::dec_signed(c as int) + "\n"@,
            )
            &&& r.exit_code is None ==> text::occurs(h, "- **Exit code:** killed\n"@)
            &&& text::occurs(
                h,
                "- **Duration:** "@ + util::duration_text(r.duration_ms as int) + "\n"@,
            )
        }),
{
    let lines = lemma_head_lines(r);
    text::lemma_flatten_holds(lines, 1);
    text::lemma_flatten_holds(lines, 2);
    text::lemma_flatten_holds(lines, 3);
    reveal_strlit("- **Exit code:** killed\n");
    reveal_strlit("- **Exit code:** ");
    reveal_strlit("killed");
    reveal_strlit("\n");
    assert("- **Exit code:** "@ + "killed"@ + "\n"@ =~= "- **Exit code:** killed\n"@);
}

proof fn lemma_head_rest(r: CiReport)
    ensures
        ({
            let h = ci::md_head(r);
            &&& r.timed_out ==> text::occurs(h, "- **Timed out:** yes\n"@)
            &&& r.cancelled ==> text::occurs(h, "- **Cancelled:** yes\n"@)
            &&& text::occurs(h, "- **Generated:** "@ + r.generated_at@ + "\n"@)
            &&& text::occurs(h, "- **Rewind:** v"@ + r.rewind_version@ + "\n"@)
        }),
{
    let lines = lemma_head_lines(r);
    text::lemma_flatten_holds(lines, 4);
    text::lemma_flatten_holds(lines, 5);
    text::lemma_flatten_holds(lines, 6);
    text::lemma_flatten_holds(lines, 7);
    reveal_strlit("\n\n");
    reveal_strlit("\n");
    let last = "- **Rewind:** v"@ + r.rewind_version@ + "\n"@;
    assert(lines[7] =~= last + "\n"@);
    lemma_front(last, "\n"@);
    text::lemma_occurs_trans(ci::md_head(r), lines[7], last);
}

// ---------------------------------------------------------------------------
// Its sections
// ---------------------------------------------------------------------------

proof fn lemma_rows_hold(files: Seq<ChangedView>, i: int)
    requires
        0 <= i < files.len(),
    ensures
        text::occurs(ci::md_rows(files), ci::md_row(files[i])),
    decreases files.len(),
{
    let before = ci::md_rows(files.drop_last());
    let row = ci::md_row(files.last());
    lemma_front(before, row);
    if i < files.len() - 1 {
        lemma_rows_hold(files.drop_last(), i);
        text::lemma_occurs_trans(before + row, before, ci::md_row(files[i]));
    }
}

proof fn lemma_changed_heading(files: Seq<ChangedView>)
    ensures
        text::occurs(
            ci::md_changed(files),
            "## Changed files ("@ + text::dec(files.len()) + ")\n"@,
        ),
{
    reveal_strlit(")\n\n");
    reveal_strlit(")\n");
    let n = text::dec(files.len());
    let head = "## Changed files ("@ + n + ")\n"@;
    let full = "## Changed files ("@ + n + ")\n\n"@;
    assert(full =~= head + full.skip(head.len() as int));
    lemma_front(head, full.skip(head.len() as int));
    let tail = if files.len() == 0 {
        "_No tracked file changes._\n\n"@
    } else {
        "| Status | File | +/- |\n|---|---|---|\n"@ + ci::md_rows(files) + "\n"@
    };
    assert(ci::md_changed(files) =~= full + tail);
    lemma_front(full, tail);
    text::lemma_occurs_trans(ci::md_changed(files), full, head);
}

proof fn lemma_changed_none(files: Seq<ChangedView>)
    requires
        files.len() == 0,
    ensures
        text::occurs(ci::md_changed(files), "_No tracked file changes._"@),
{
    reveal_strlit("_No tracked file changes._\n\n");
    reveal_strlit("_No tracked file changes._");
    let note = "_No tracked file changes._\n\n"@;
    let short = "_No tracked file changes._"@;
    let full = "## Changed files ("@ + text::dec(files.len()) + ")\n\n"@;
    assert(note =~= short + note.skip(short.len() as int));
    lemma_front(short, note.skip(short.len() as int));
    assert(ci::md_changed(files) =~= full + note);
    lemma_front(full, note);
    text::lemma_occurs_trans(ci::md_changed(files), note, short);
}

proof fn lemma_changed_row(files: Seq<ChangedView>, i: int)
    requires
        0 <= i < files.len(),
    ensures
        text::occurs(ci::md_changed(files), ci::md_row(files[i])),
{
    let full = "## Changed files ("@ + text::dec(files.len()) + ")\n\n"@;
    let title = "| Status | File | +/- |\n|---|---|---|\n"@;
    let rows = ci::md_rows(files);
    lemma_rows_hold(files, i);
    assert(ci::md_changed(files) =~= (full + title) + rows + "\n"@);
    text::lemma_occurs_within(full + title, rows, "\n"@);
    text::lemma_occurs_trans(ci::md_changed(files), rows, ci::md_row(files[i]));
}

/// Every changed file has its row in the summary, with its status, its path and
/// its line counts, below a heading that says how many there are.
pub proof fn lemma_summary_files(r: CiReport, i: int)
    ensures
        ({
            let md = ci::md_text(r);
            let files = ci::changed_views(r.changed_files@);
            &&& text::occurs(md, "## Changed files ("@ + text::dec(files.len()) + ")\n"@)
            &&& files.len() == 0 ==> text::occurs(md, "_No tracked file changes._"@)
            &&& 0 <= i < files.len() ==> text::occurs(
                md,
                "| "@ + files[i].status + " | `"@ + files[i].path + "` | +"@ + text::dec(
                    files[i].added,
                ) + " / -"@ + text::dec(files[i].removed) + " |\n"@,
            )
        }),
{
    lemma_sections(r);
    let md = ci::md_text(r);
    let files = ci::changed_views(r.changed_files@);
    let section = ci::md_changed(files);
    lemma_changed_heading(files);
    text::lemma_occurs_trans(
        md,
        section,
        "## Changed files ("@ + text::dec(files.len()) + ")\n"@,
    );
    if files.len() == 0 {
        lemma_changed_none(files);
        text::lemma_occurs_trans(md, section, "_No tracked file changes._"@);
    } else if 0 <= i < files.len() {
        lemma_changed_row(files, i);
        text::lemma_occurs_trans(md, section, ci::md_row(files[i]));
    }
}

proof fn lemma_dependencies_hold(v: Seq<DependencyView>, i: int)
    requires
        0 <= i < v.len(),
    ensures
        text::occurs(ci::md_dependencies(v), ci::md_dependency(v[i])),
    decreases v.len(),
{
    let before = ci::md_dependencies(v.drop_last());
    let line = ci::md_dependency(v.last());
    lemma_front(before, line);
    if i < v.len() - 1 {
        lemma_dependencies_hold(v.drop_last(), i);
        text::lemma_occurs_trans(before + line, before, ci::md_dependency(v[i]));
    }
}

/// Every version change stands in the summary, with the name, the file, and both
/// versions or a dash for one that is missing.
pub proof fn lemma_summary_dependencies(r: CiReport, i: int)
    requires
        0 <= i < r.dependency_changes@.len(),
    ensures
        ({
            let d = exec::dependency_views(r.dependency_changes@)[i];
            text::occurs(
                ci::md_text(r),
                "- `"@ + d.name + "` in `"@ + d.file + "`: "@ + (match d.old {
                    Some(v) => v,
                    None => "—"@,
                }) + " → "@ + (match d.new {
                    Some(v) => v,
                    None => "—"@,
                }) + "\n"@,
            )
        }),
{
    lemma_sections(r);
    let all = exec::dependency_views(r.dependency_changes@);
    let lines = ci::md_dependencies(all);
    let section = ci::md_dependency_section(all);
    lemma_dependencies_hold(all, i);
    text::lemma_occurs_within("## Dependency changes\n\n"@, lines, "\n"@);
    text::lemma_occurs_trans(section, lines, ci::md_dependency(all[i]));
    text::lemma_occurs_trans(ci::md_text(r), section, ci::md_dependency(all[i]));
}

proof fn lemma_causes_hold(v: Seq<CauseView>, i: int)
    requires
        0 <= i < v.len(),
    ensures
        text::occurs(ci::md_causes(v), ci::md_cause((i + 1) as nat, v[i])),
    decreases v.len(),
{
    let before = ci::md_causes(v.drop_last());
    let entry = ci::md_cause(v.len(), v.last());
    lemma_front(before, entry);
    if i < v.len() - 1 {
        lemma_causes_hold(v.drop_last(), i);
        text::lemma_occurs_trans(before + entry, before, ci::md_cause((i + 1) as nat, v[i]));
    }
}

proof fn lemma_evidence_holds(v: Seq<Seq<char>>, i: int)
    requires
        0 <= i < v.len(),
    ensures
        text::occurs(ci::md_evidence(v), "   - "@ + v[i] + "\n"@),
    decreases v.len(),
{
    let before = ci::md_evidence(v.drop_last());
    let line = "   - "@ + v.last() + "\n"@;
    lemma_front(before, line);
    if i < v.len() - 1 {
        lemma_evidence_holds(v.drop_last(), i);
        text::lemma_occurs_trans(before + line, before, "   - "@ + v[i] + "\n"@);
    }
}

/// Each of the first ten causes of an investigated run stands in the summary at
/// its place of the ranking, with its path, its score and all that speaks for it.
pub proof fn lemma_summary_causes(r: CiReport, i: int, k: int)
    requires
        r.investigated,
        0 <= i < r.likely_causes@.len(),
        i < 10,
    ensures
        ({
            let c = investigate::cause_views(r.likely_causes@)[i];
            let md = ci::md_text(r);
            &&& text::occurs(
                md,
                text::dec((i + 1) as nat) + ". `"@ + c.path + "` — relevance "@ + text::dec_signed(
                    c.score,
                ) + "\n"@,
            )
            &&& 0 <= k < c.evidence.len() ==> text::occurs(md, "   - "@ + c.evidence[k] + "\n"@)
        }),
{
    lemma_sections(r);
    let md = ci::md_text(r);
    let all = investigate::cause_views(r.likely_causes@);
    let shown = ci::at_most(all, 10);
    assert(shown[i] == all[i]);
    let c = all[i];
    let entries = ci::md_causes(shown);
    let section = ci::md_cause_section(r.investigated, r.passed, all);
    let entry = ci::md_cause((i + 1) as nat, c);
    lemma_causes_hold(shown, i);
    text::lemma_occurs_within(
        "## Likely causes\n\n_Ranked by relevance score. These are likely causes, not confirmed diagnoses._\n\n"@,
        entries,
        "\n"@,
    );
    text::lemma_occurs_trans(section, entries, entry);
    text::lemma_occurs_trans(md, section, entry);
    let line = text::dec((i + 1) as nat) + ". `"@ + c.path + "` — relevance "@ + text::dec_signed(
        c.score,
    ) + "\n"@;
    lemma_front(line, ci::md_evidence(c.evidence));
    text::lemma_occurs_trans(md, entry, line);
    if 0 <= k < c.evidence.len() {
        let told = "   - "@ + c.evidence[k] + "\n"@;
        lemma_evidence_holds(c.evidence, k);
        text::lemma_occurs_trans(md, entry, ci::md_evidence(c.evidence));
        text::lemma_occurs_trans(md, ci::md_evidence(c.evidence), told);
    }
}

proof fn lemma_ranking_note(causes: Seq<CauseView>, passed: bool)
    ensures
        text::occurs(
            ci::md_cause_section(true, passed, causes),
            "likely causes, not confirmed diagnoses"@,
        ),
{
    reveal_strlit(
        "## Likely causes\n\n_Ranked by relevance score. These are likely causes, not confirmed diagnoses._\n\n",
    );
    reveal_strlit("likely causes, not confirmed diagnoses");
    let head =
        "## Likely causes\n\n_Ranked by relevance score. These are likely causes, not confirmed diagnoses._\n\n"@;
    let said = "likely causes, not confirmed diagnoses"@;
    let before = head.take(56);
    let after = head.skip(56 + said.len() as int);
    assert(head =~= before + said + after);
    text::lemma_occurs_within(before, said, after);
    lemma_cause_head(head, said, ci::md_causes(ci::at_most(causes, 10)));
}

proof fn lemma_cause_head(head: Seq<char>, said: Seq<char>, entries: Seq<char>)
    requires
        text::occurs(head, said),
    ensures
        text::occurs(head + entries + "\n"@, said),
{
    assert(head + entries + "\n"@ =~= head + (entries + "\n"@));
    lemma_front(head, entries + "\n"@);
    text::lemma_occurs_trans(head + (entries + "\n"@), head, said);
}

proof fn lemma_no_ranking_note(causes: Seq<CauseView>)
    ensures
        text::occurs(
            ci::md_cause_section(false, false, causes),
            "_No prior passing run to compare against, so no ranking was produced._"@,
        ),
{
    reveal_strlit(
        "## Likely causes\n\n_No prior passing run to compare against, so no ranking was produced._\n\n",
    );
    reveal_strlit("_No prior passing run to compare against, so no ranking was produced._");
    let all =
        "## Likely causes\n\n_No prior passing run to compare against, so no ranking was produced._\n\n"@;
    let said = "_No prior passing run to compare against, so no ranking was produced._"@;
    let before = all.take(18);
    let after = all.skip(18 + said.len() as int);
    assert(all =~= before + said + after);
    text::lemma_occurs_within(before, said, after);
}

/// A failed run that could not be compared with one that passed says so, and a
/// ranking says that its causes are likely ones.
pub proof fn lemma_summary_without_ranking(r: CiReport)
    ensures
        !r.investigated && !r.passed ==> text::occurs(
            ci::md_text(r),
            "_No prior passing run to compare against, so no ranking was produced._"@,
        ),
        r.investigated ==> text::occurs(
            ci::md_text(r),
            "likely causes, not confirmed diagnoses"@,
        ),
{
    lemma_sections(r);
    let all = investigate::cause_views(r.likely_causes@);
    let section = ci::md_cause_section(r.investigated, r.passed, all);
    if r.investigated {
        lemma_ranking_note(all, r.passed);
        text::lemma_occurs_trans(
            ci::md_text(r),
            section,
            "likely causes, not confirmed diagnoses"@,
        );
    } else if !r.passed {
        lemma_no_ranking_note(all);
        text::lemma_occurs_trans(
            ci::md_text(r),
            section,
            "_No prior passing run to compare against, so no ranking was produced._"@,
        );
    }
}

/// A report takes over all that an investigation found, and nothing where there
/// was none.
pub proof fn lemma_found(inv: Investigation)
    ensures
        ci::found(Some(inv)).0 == exec::dependency_views(inv.dependency_changes@),
        ci::found(Some(inv)).1 == investigate::cause_views(inv.causes@),
        ci::found(None).0.len() == 0,
        ci::found(None).1.len() == 0,
{
}

/// The first of a list, up to a number, are a beginning of it, and all of it if
/// it is not longer.
pub proof fn lemma_at_most<A>(v: Seq<A>, n: nat, i: int)
    ensures
        ci::at_most(v, n).len() <= n,
        v.len() <= n ==> ci::at_most(v, n) == v,
        v.len() > n ==> ci::at_most(v, n).len() == n,
        0 <= i < v.len() && i < n ==> ci::at_most(v, n)[i] == v[i],
{
}

/// The summary tells ten causes at most: those behind them make no difference.
pub proof fn lemma_summary_stops(passed: bool, causes: Seq<CauseView>)
    requires
        causes.len() >= 10,
    ensures
        ci::md_cause_section(true, passed, causes) == ci::md_cause_section(
            true,
            passed,
            causes.take(10),
        ),
{
    assert(ci::at_most(causes.take(10), 10) =~= causes.take(10));
    assert(ci::at_most(causes, 10) =~= causes.take(10));
}

/// The parts of the summary stand in order: its head, the changed files, the version
/// changes if there are any, and the causes.
pub proof fn lemma_summary_order(r: CiReport)
    ensures
        ({
            let md = ci::md_text(r);
            let files = ci::md_changed(ci::changed_views(r.changed_files@));
            let causes = ci::md_cause_section(
                r.investigated,
                r.passed,
                investigate::cause_views(r.likely_causes@),
            );
            &&& (ci::md_head(r) + files).is_prefix_of(md)
            &&& causes.is_suffix_of(md)
            &&& r.dependency_changes@.len() == 0 ==> md == ci::md_head(r) + files + causes
            &&& r.dependency_changes@.len() > 0 ==> (ci::md_head(r) + files
                + "## Dependency changes\n\n"@).is_prefix_of(md)
        }),
{
    reveal_strlit("");
    let md = ci::md_text(r);
    let files = ci::md_changed(ci::changed_views(r.changed_files@));
    let deps = exec::dependency_views(r.dependency_changes@);
    let section = ci::md_dependency_section(deps);
    let causes = ci::md_cause_section(
        r.investigated,
        r.passed,
        investigate::cause_views(r.likely_causes@),
    );
    let top = ci::md_head(r) + files;
    assert(deps.len() == r.dependency_changes@.len());
    assert(md.subrange(0, top.len() as int) =~= top);
    assert(md.subrange(md.len() - causes.len(), md.len() as int) =~= causes);
    if deps.len() == 0 {
        assert(md =~= top + causes);
    } else {
        let head = "## Dependency changes\n\n"@;
        let more = ci::md_dependencies(deps) + "\n"@;
        assert(section =~= head + more);
        assert(md =~= (top + head) + (more + causes));
        assert(md.subrange(0, (top + head).len() as int) =~= top + head);
    }
}

/// Rows, version changes and causes are told in order: what is told of the first ones
/// stands before what is told of one more.
pub proof fn lemma_told_in_order(
    files: Seq<ChangedView>,
    f: ChangedView,
    deps: Seq<DependencyView>,
    d: DependencyView,
    causes: Seq<CauseView>,
    c: CauseView,
)
    ensures
        ci::md_rows(files.push(f)) == ci::md_rows(files) + ci::md_rows(seq![f]),
        ci::md_dependencies(deps.push(d)) == ci::md_dependencies(deps) + ci::md_dependencies(
            seq![d],
        ),
        ci::md_causes(causes).is_prefix_of(ci::md_causes(causes.push(c))),
        text::occurs(
            ci::md_causes(causes.push(c)).skip(ci::md_causes(causes).len() as int),
            text::dec(causes.len() + 1) + ". `"@ + c.path + "`"@,
        ),
{
    let none = Seq::<char>::empty();
    assert(files.push(f).drop_last() =~= files);
    assert(seq![f].drop_last() =~= Seq::<ChangedView>::empty());
    assert(ci::md_rows(seq![f].drop_last()) == none);
    assert(ci::md_rows(seq![f]) =~= ci::md_row(f));
    assert(deps.push(d).drop_last() =~= deps);
    assert(seq![d].drop_last() =~= Seq::<DependencyView>::empty());
    assert(ci::md_dependencies(seq![d].drop_last()) == none);
    assert(ci::md_dependencies(seq![d]) =~= ci::md_dependency(d));
    assert(causes.push(c).drop_last() =~= causes);
    let before = ci::md_causes(causes);
    let entry = ci::md_cause(causes.len() + 1, c);
    let all = ci::md_causes(causes.push(c));
    assert(all == before + entry);
    assert(all.subrange(0, before.len() as int) =~= before);
    assert(all.skip(before.len() as int) =~= entry);
    let told = text::dec(causes.len() + 1) + ". `"@ + c.path + "`"@;
    reveal_strlit("` — relevance ");
    reveal_strlit("`");
    reveal_strlit(" — relevance ");
    assert("` — relevance "@ =~= "`"@ + " — relevance "@);
    let rest = " — relevance "@ + text::dec_signed(c.score) + "\n"@ + ci::md_evidence(c.evidence);
    assert(entry =~= told + rest);
    lemma_front(told, rest);
}

} // verus!
