//! Laws of the investigation.

use vstd::prelude::*;
use vstd::utf8::*;

use crate::diff;
use crate::diff::ChangeView;
use crate::exec;
use crate::exec::DependencyView;
use crate::investigate;
use crate::investigate::CauseSignals;
use crate::investigate::CauseView;
use crate::investigate::weight;
use crate::investigate::Investigation;
use crate::models::SnapshotFile;
use crate::models::TestRun;
use crate::snapshot;
use crate::text;
use crate::text::CharClass;

verus! {

// ---------------------------------------------------------------------------
// Frames
// ---------------------------------------------------------------------------

proof fn lemma_marked_line(a: Seq<char>, m: Seq<char>, b: Seq<char>)
    requires
        investigate::source_markers().contains(m),
        m.len() > 0,
        m[0] == '.',
    ensures
        investigate::is_frame(a + m + b),
{
    let line = a + m + b;
    let l = text::strip_front(line, CharClass::WhiteSpace);
    text::lemma_occurs_within(a, m, b);
    text::lemma_strip_keeps(line, m, CharClass::WhiteSpace);
    let k = investigate::source_markers().index_of(m);
    assert(text::occurs(l, investigate::source_markers()[k]));
}

/// A line that names a line of a source file, as in `name.rs:12`, is a frame,
/// whatever stands before and after it.
pub proof fn lemma_source_reference_is_frame(a: Seq<char>, b: Seq<char>)
    ensures
        investigate::is_frame(a + ".rs:"@ + b),
        investigate::is_frame(a + ".py:"@ + b),
        investigate::is_frame(a + ".py\""@ + b),
        investigate::is_frame(a + ".js:"@ + b),
        investigate::is_frame(a + ".jsx:"@ + b),
        investigate::is_frame(a + ".ts:"@ + b),
        investigate::is_frame(a + ".tsx:"@ + b),
        investigate::is_frame(a + ".go:"@ + b),
        investigate::is_frame(a + ".rb:"@ + b),
        investigate::is_frame(a + ".java:"@ + b),
        investigate::is_frame(a + ".kt:"@ + b),
        investigate::is_frame(a + ".c:"@ + b),
        investigate::is_frame(a + ".cc:"@ + b),
        investigate::is_frame(a + ".cpp:"@ + b),
        investigate::is_frame(a + ".h:"@ + b),
        investigate::is_frame(a + ".ex:"@ + b),
        investigate::is_frame(a + ".exs:"@ + b),
        investigate::is_frame(a + ".php:"@ + b),
        investigate::is_frame(a + ".cs:"@ + b),
        investigate::is_frame(a + ".swift:"@ + b),
{
    reveal_strlit(".rs:");
    assert(investigate::source_markers()[0] == ".rs:"@);
    lemma_marked_line(a, ".rs:"@, b);
    reveal_strlit(".py:");
    assert(investigate::source_markers()[1] == ".py:"@);
    lemma_marked_line(a, ".py:"@, b);
    reveal_strlit(".py\"");
    assert(investigate::source_markers()[2] == ".py\""@);
    lemma_marked_line(a, ".py\""@, b);
    reveal_strlit(".js:");
    assert(investigate::source_markers()[3] == ".js:"@);
    lemma_marked_line(a, ".js:"@, b);
    reveal_strlit(".jsx:");
    assert(investigate::source_markers()[4] == ".jsx:"@);
    lemma_marked_line(a, ".jsx:"@, b);
    reveal_strlit(".ts:");
    assert(investigate::source_markers()[5] == ".ts:"@);
    lemma_marked_line(a, ".ts:"@, b);
    reveal_strlit(".tsx:");
    assert(investigate::source_markers()[6] == ".tsx:"@);
    lemma_marked_line(a, ".tsx:"@, b);
    reveal_strlit(".go:");
    assert(investigate::source_markers()[7] == ".go:"@);
    lemma_marked_line(a, ".go:"@, b);
    reveal_strlit(".rb:");
    assert(investigate::source_markers()[8] == ".rb:"@);
    lemma_marked_line(a, ".rb:"@, b);
    reveal_strlit(".java:");
    assert(investigate::source_markers()[9] == ".java:"@);
    lemma_marked_line(a, ".java:"@, b);
    reveal_strlit(".kt:");
    assert(investigate::source_markers()[10] == ".kt:"@);
    lemma_marked_line(a, ".kt:"@, b);
    reveal_strlit(".c:");
    assert(investigate::source_markers()[11] == ".c:"@);
    lemma_marked_line(a, ".c:"@, b);
    reveal_strlit(".cc:");
    assert(investigate::source_markers()[12] == ".cc:"@);
    lemma_marked_line(a, ".cc:"@, b);
    reveal_strlit(".cpp:");
    assert(investigate::source_markers()[13] == ".cpp:"@);
    lemma_marked_line(a, ".cpp:"@, b);
    reveal_strlit(".h:");
    assert(investigate::source_markers()[14] == ".h:"@);
    lemma_marked_line(a, ".h:"@, b);
    reveal_strlit(".ex:");
    assert(investigate::source_markers()[15] == ".ex:"@);
    lemma_marked_line(a, ".ex:"@, b);
    reveal_strlit(".exs:");
    assert(investigate::source_markers()[16] == ".exs:"@);
    lemma_marked_line(a, ".exs:"@, b);
    reveal_strlit(".php:");
    assert(investigate::source_markers()[17] == ".php:"@);
    lemma_marked_line(a, ".php:"@, b);
    reveal_strlit(".cs:");
    assert(investigate::source_markers()[18] == ".cs:"@);
    lemma_marked_line(a, ".cs:"@, b);
    reveal_strlit(".swift:");
    assert(investigate::source_markers()[19] == ".swift:"@);
    lemma_marked_line(a, ".swift:"@, b);
}

/// A line is a frame if it begins, after white space, as the lines of stack traces
/// do, or if it says anywhere that it is part of one.
pub proof fn lemma_trace_line_is_frame(w: Seq<char>, a: Seq<char>, b: Seq<char>)
    requires
        text::all_in(w, CharClass::WhiteSpace),
    ensures
        investigate::is_frame(w + "at "@ + b),
        investigate::is_frame(w + "File \""@ + b),
        investigate::is_frame(w + "from "@ + b),
        investigate::is_frame(a + "panicked at"@ + b),
        investigate::is_frame(a + "Traceback"@ + b),
        investigate::is_frame(a + "stack backtrace"@ + b),
{
    reveal_strlit("at ");
    reveal_strlit("File \"");
    reveal_strlit("from ");
    lemma_begun_line(w, "at "@, b);
    lemma_begun_line(w, "File \""@, b);
    lemma_begun_line(w, "from "@, b);
    reveal_strlit("panicked at");
    reveal_strlit("Traceback");
    reveal_strlit("stack backtrace");
    text::lemma_occurs_within(a, "panicked at"@, b);
    text::lemma_strip_keeps(a + "panicked at"@ + b, "panicked at"@, CharClass::WhiteSpace);
    text::lemma_occurs_within(a, "Traceback"@, b);
    text::lemma_strip_keeps(a + "Traceback"@ + b, "Traceback"@, CharClass::WhiteSpace);
    text::lemma_occurs_within(a, "stack backtrace"@, b);
    text::lemma_strip_keeps(
        a + "stack backtrace"@ + b,
        "stack backtrace"@,
        CharClass::WhiteSpace,
    );
}

proof fn lemma_begun_line(w: Seq<char>, m: Seq<char>, b: Seq<char>)
    requires
        text::all_in(w, CharClass::WhiteSpace),
        m.len() > 0,
        !text::is_white_space(m[0]),
    ensures
        m.is_prefix_of(text::strip_front(w + m + b, CharClass::WhiteSpace)),
{
    assert(w + m + b =~= w + (m + b));
    assert((m + b)[0] == m[0]);
    text::lemma_strip_front(w, m + b, CharClass::WhiteSpace);
    assert((m + b).subrange(0, m.len() as int) =~= m);
}

/// A line that holds nothing of the kind is no frame.
pub proof fn lemma_other_line_is_no_frame(line: Seq<char>)
    requires
        !text::occurs(line, "at "@),
        !text::occurs(line, "File \""@),
        !text::occurs(line, "from "@),
        !text::occurs(line, "panicked at"@),
        !text::occurs(line, "Traceback"@),
        !text::occurs(line, "stack backtrace"@),
        !text::occurs(line, ".rs:"@),
        !text::occurs(line, ".py:"@),
        !text::occurs(line, ".py\""@),
        !text::occurs(line, ".js:"@),
        !text::occurs(line, ".jsx:"@),
        !text::occurs(line, ".ts:"@),
        !text::occurs(line, ".tsx:"@),
        !text::occurs(line, ".go:"@),
        !text::occurs(line, ".rb:"@),
        !text::occurs(line, ".java:"@),
        !text::occurs(line, ".kt:"@),
        !text::occurs(line, ".c:"@),
        !text::occurs(line, ".cc:"@),
        !text::occurs(line, ".cpp:"@),
        !text::occurs(line, ".h:"@),
        !text::occurs(line, ".ex:"@),
        !text::occurs(line, ".exs:"@),
        !text::occurs(line, ".php:"@),
        !text::occurs(line, ".cs:"@),
        !text::occurs(line, ".swift:"@),
    ensures
        !investigate::is_frame(line),
{
    let l = text::strip_front(line, CharClass::WhiteSpace);
    let w = text::lemma_stripped_front(line, CharClass::WhiteSpace);
    reveal_strlit("panicked at");
    text::lemma_strip_keeps(line, "panicked at"@, CharClass::WhiteSpace);
    reveal_strlit("Traceback");
    text::lemma_strip_keeps(line, "Traceback"@, CharClass::WhiteSpace);
    reveal_strlit("stack backtrace");
    text::lemma_strip_keeps(line, "stack backtrace"@, CharClass::WhiteSpace);
    reveal_strlit(".rs:");
    text::lemma_strip_keeps(line, ".rs:"@, CharClass::WhiteSpace);
    reveal_strlit(".py:");
    text::lemma_strip_keeps(line, ".py:"@, CharClass::WhiteSpace);
    reveal_strlit(".py\"");
    text::lemma_strip_keeps(line, ".py\""@, CharClass::WhiteSpace);
    reveal_strlit(".js:");
    text::lemma_strip_keeps(line, ".js:"@, CharClass::WhiteSpace);
    reveal_strlit(".jsx:");
    text::lemma_strip_keeps(line, ".jsx:"@, CharClass::WhiteSpace);
    reveal_strlit(".ts:");
    text::lemma_strip_keeps(line, ".ts:"@, CharClass::WhiteSpace);
    reveal_strlit(".tsx:");
    text::lemma_strip_keeps(line, ".tsx:"@, CharClass::WhiteSpace);
    reveal_strlit(".go:");
    text::lemma_strip_keeps(line, ".go:"@, CharClass::WhiteSpace);
    reveal_strlit(".rb:");
    text::lemma_strip_keeps(line, ".rb:"@, CharClass::WhiteSpace);
    reveal_strlit(".java:");
    text::lemma_strip_keeps(line, ".java:"@, CharClass::WhiteSpace);
    reveal_strlit(".kt:");
    text::lemma_strip_keeps(line, ".kt:"@, CharClass::WhiteSpace);
    reveal_strlit(".c:");
    text::lemma_strip_keeps(line, ".c:"@, CharClass::WhiteSpace);
    reveal_strlit(".cc:");
    text::lemma_strip_keeps(line, ".cc:"@, CharClass::WhiteSpace);
    reveal_strlit(".cpp:");
    text::lemma_strip_keeps(line, ".cpp:"@, CharClass::WhiteSpace);
    reveal_strlit(".h:");
    text::lemma_strip_keeps(line, ".h:"@, CharClass::WhiteSpace);
    reveal_strlit(".ex:");
    text::lemma_strip_keeps(line, ".ex:"@, CharClass::WhiteSpace);
    reveal_strlit(".exs:");
    text::lemma_strip_keeps(line, ".exs:"@, CharClass::WhiteSpace);
    reveal_strlit(".php:");
    text::lemma_strip_keeps(line, ".php:"@, CharClass::WhiteSpace);
    reveal_strlit(".cs:");
    text::lemma_strip_keeps(line, ".cs:"@, CharClass::WhiteSpace);
    reveal_strlit(".swift:");
    text::lemma_strip_keeps(line, ".swift:"@, CharClass::WhiteSpace);
    lemma_prefix_occurs(w, l, line, "at "@);
    lemma_prefix_occurs(w, l, line, "File \""@);
    lemma_prefix_occurs(w, l, line, "from "@);
    let markers = investigate::source_markers();
    assert forall|i: int| 0 <= i < markers.len() implies !text::occurs(l, #[trigger] markers[i]) by {
        if i == 0 {
            assert(markers[i] == ".rs:"@);
        }
        if i == 1 {
            assert(markers[i] == ".py:"@);
        }
        if i == 2 {
            assert(markers[i] == ".py\""@);
        }
        if i == 3 {
            assert(markers[i] == ".js:"@);
        }
        if i == 4 {
            assert(markers[i] == ".jsx:"@);
        }
        if i == 5 {
            assert(markers[i] == ".ts:"@);
        }
        if i == 6 {
            assert(markers[i] == ".tsx:"@);
        }
        if i == 7 {
            assert(markers[i] == ".go:"@);
        }
        if i == 8 {
            assert(markers[i] == ".rb:"@);
        }
        if i == 9 {
            assert(markers[i] == ".java:"@);
        }
        if i == 10 {
            assert(markers[i] == ".kt:"@);
        }
        if i == 11 {
            assert(markers[i] == ".c:"@);
        }
        if i == 12 {
            assert(markers[i] == ".cc:"@);
        }
        if i == 13 {
            assert(markers[i] == ".cpp:"@);
        }
        if i == 14 {
            assert(markers[i] == ".h:"@);
        }
        if i == 15 {
            assert(markers[i] == ".ex:"@);
        }
        if i == 16 {
            assert(markers[i] == ".exs:"@);
        }
        if i == 17 {
            assert(markers[i] == ".php:"@);
        }
        if i == 18 {
            assert(markers[i] == ".cs:"@);
        }
        if i == 19 {
            assert(markers[i] == ".swift:"@);
        }
    }
}

proof fn lemma_prefix_occurs(w: Seq<char>, l: Seq<char>, line: Seq<char>, m: Seq<char>)
    requires
        line == w + l,
        !text::occurs(line, m),
    ensures
        !m.is_prefix_of(l),
{
    if m.is_prefix_of(l) {
        let rest = l.skip(m.len() as int);
        assert(l =~= m + rest);
        assert(line =~= w + m + rest);
        text::lemma_occurs_within(w, m, rest);
    }
}

// ---------------------------------------------------------------------------
// Scores and evidence
// ---------------------------------------------------------------------------

/// The words of a trace count where a line begins. Elsewhere in a line they make
/// no frame.
pub proof fn lemma_words_count_at_the_start(line: Seq<char>)
    requires
        ({
            let l = text::strip_front(line, CharClass::WhiteSpace);
            &&& !"at "@.is_prefix_of(l)
            &&& !"File \""@.is_prefix_of(l)
            &&& !"from "@.is_prefix_of(l)
        }),
        !text::occurs(line, "panicked at"@),
        !text::occurs(line, "Traceback"@),
        !text::occurs(line, "stack backtrace"@),
        forall|k: int|
            0 <= k < investigate::source_markers().len() ==> !text::occurs(
                line,
                #[trigger] investigate::source_markers()[k],
            ),
    ensures
        !investigate::is_frame(line),
{
    let l = text::strip_front(line, CharClass::WhiteSpace);
    let w = text::lemma_stripped_front(line, CharClass::WhiteSpace);
    let none = Seq::<char>::empty();
    assert(line =~= w + l + none);
    text::lemma_occurs_within(w, l, none);
    if text::occurs(l, "panicked at"@) {
        text::lemma_occurs_trans(line, l, "panicked at"@);
    }
    if text::occurs(l, "Traceback"@) {
        text::lemma_occurs_trans(line, l, "Traceback"@);
    }
    if text::occurs(l, "stack backtrace"@) {
        text::lemma_occurs_trans(line, l, "stack backtrace"@);
    }
    if text::any_occurs(l, investigate::source_markers()) {
        let k = choose|k: int|
            0 <= k < investigate::source_markers().len() && text::occurs(
                l,
                #[trigger] investigate::source_markers()[k],
            );
        text::lemma_occurs_trans(line, l, investigate::source_markers()[k]);
    }
}

/// There are twenty marks of a source file, no more.
pub proof fn lemma_source_markers(m: Seq<char>)
    ensures
        investigate::source_markers().contains(m) ==> m.len() >= 3 && m[0] == '.',
        investigate::source_markers().len() == 20,
{
    reveal_strlit(".rs:");
    reveal_strlit(".py:");
    reveal_strlit(".py\"");
    reveal_strlit(".js:");
    reveal_strlit(".jsx:");
    reveal_strlit(".ts:");
    reveal_strlit(".tsx:");
    reveal_strlit(".go:");
    reveal_strlit(".rb:");
    reveal_strlit(".java:");
    reveal_strlit(".kt:");
    reveal_strlit(".c:");
    reveal_strlit(".cc:");
    reveal_strlit(".cpp:");
    reveal_strlit(".h:");
    reveal_strlit(".ex:");
    reveal_strlit(".exs:");
    reveal_strlit(".php:");
    reveal_strlit(".cs:");
    reveal_strlit(".swift:");
}

/// The score is the sum of what the signals are worth: each adds its own number,
/// whatever the others are, and without signals there is none.
pub proof fn lemma_score(s: CauseSignals)
    ensures
        investigate::score_of(CauseSignals { in_stack_trace: true, ..s }) == investigate::score_of(
            CauseSignals { in_stack_trace: false, ..s },
        ) + 5,
        investigate::score_of(CauseSignals { dependency_changed: true, ..s }) == investigate::score_of(
            CauseSignals { dependency_changed: false, ..s },
        ) + 4,
        investigate::score_of(CauseSignals { changed_between_pass_and_fail: true, ..s }) == investigate::score_of(
            CauseSignals { changed_between_pass_and_fail: false, ..s },
        ) + 3,
        investigate::score_of(CauseSignals { in_failing_output: true, ..s }) == investigate::score_of(
            CauseSignals { in_failing_output: false, ..s },
        ) + 3,
        investigate::score_of(CauseSignals { changed_before_failure: true, ..s }) == investigate::score_of(
            CauseSignals { changed_before_failure: false, ..s },
        ) + 2,
        investigate::score_of(CauseSignals { generated_or_unrelated: true, ..s }) == investigate::score_of(
            CauseSignals { generated_or_unrelated: false, ..s },
        ) - 3,
        !s.in_stack_trace && !s.dependency_changed && !s.changed_between_pass_and_fail
            && !s.in_failing_output && !s.changed_before_failure && !s.generated_or_unrelated
            ==> investigate::score_of(s) == 0,
{
}

/// The lines of evidence.
spec fn told(s: CauseSignals) -> Seq<(bool, Seq<char>)> {
    seq![
        (s.in_stack_trace, "appears in a stack-trace line (+5)"@),
        (s.dependency_changed, "dependency version changed (+4)"@),
        (s.changed_between_pass_and_fail, "changed between the last pass and the failure (+3)"@),
        (s.in_failing_output, "path appears in failing output (+3)"@),
        (s.changed_before_failure, "changed immediately before the failing run (+2)"@),
        (s.generated_or_unrelated, "looks generated or unrelated (-3)"@),
    ]
}

spec fn told_up_to(s: CauseSignals, n: int) -> Seq<Seq<char>>
    decreases n,
{
    if n <= 0 {
        Seq::empty()
    } else if told(s)[n - 1].0 {
        told_up_to(s, n - 1).push(told(s)[n - 1].1)
    } else {
        told_up_to(s, n - 1)
    }
}

proof fn lemma_told_has(s: CauseSignals, n: int, k: int)
    requires
        0 <= n <= 6,
        0 <= k < n,
        told(s)[k].0,
    ensures
        told_up_to(s, n).contains(told(s)[k].1),
    decreases n,
{
    let all = told_up_to(s, n);
    if k == n - 1 {
        assert(all[all.len() - 1] == told(s)[k].1);
    } else {
        lemma_told_has(s, n - 1, k);
        let i = told_up_to(s, n - 1).index_of(told(s)[k].1);
        assert(all[i] == told(s)[k].1);
    }
}

proof fn lemma_told_from(s: CauseSignals, n: int, i: int) -> (k: int)
    requires
        0 <= n <= 6,
        0 <= i < told_up_to(s, n).len(),
    ensures
        0 <= k < n,
        told(s)[k].0,
        told_up_to(s, n)[i] == told(s)[k].1,
    decreases n,
{
    if n <= 0 {
        0
    } else if told(s)[n - 1].0 && i == told_up_to(s, n).len() - 1 {
        n - 1
    } else {
        lemma_told_from(s, n - 1, i)
    }
}

#[verifier::spinoff_prover]
#[verifier::rlimit(60)]
proof fn lemma_evidence_is_told(s: CauseSignals)
    ensures
        investigate::evidence_of(s) == told_up_to(s, 6),
{
    reveal_with_fuel(told_up_to, 7);
    reveal_with_fuel(text::dec, 2);
    reveal_strlit("appears in a stack-trace line (+");
    reveal_strlit("appears in a stack-trace line (+5)");
    reveal_strlit("dependency version changed (+");
    reveal_strlit("dependency version changed (+4)");
    reveal_strlit("changed between the last pass and the failure (+");
    reveal_strlit("changed between the last pass and the failure (+3)");
    reveal_strlit("path appears in failing output (+");
    reveal_strlit("path appears in failing output (+3)");
    reveal_strlit("changed immediately before the failing run (+");
    reveal_strlit("changed immediately before the failing run (+2)");
    reveal_strlit("looks generated or unrelated (");
    reveal_strlit("looks generated or unrelated (-3)");
    reveal_strlit(")");
    assert("appears in a stack-trace line (+"@ + text::dec_signed(5) + ")"@
        =~= "appears in a stack-trace line (+5)"@);
    assert("dependency version changed (+"@ + text::dec_signed(4) + ")"@
        =~= "dependency version changed (+4)"@);
    assert("changed between the last pass and the failure (+"@ + text::dec_signed(3) + ")"@
        =~= "changed between the last pass and the failure (+3)"@);
    assert("path appears in failing output (+"@ + text::dec_signed(3) + ")"@
        =~= "path appears in failing output (+3)"@);
    assert("changed immediately before the failing run (+"@ + text::dec_signed(2) + ")"@
        =~= "changed immediately before the failing run (+2)"@);
    assert("looks generated or unrelated ("@ + text::dec_signed(-3) + ")"@
        =~= "looks generated or unrelated (-3)"@);
    assert(investigate::evidence_of(s) =~= told_up_to(s, 6));
}

proof fn lemma_told_count(s: CauseSignals)
    ensures
        told_up_to(s, 6).len() == (if s.in_stack_trace { 1int } else { 0int }) + (
        if s.dependency_changed { 1int } else { 0int }) + (
        if s.changed_between_pass_and_fail { 1int } else { 0int }) + (
        if s.in_failing_output { 1int } else { 0int }) + (
        if s.changed_before_failure { 1int } else { 0int }) + (
        if s.generated_or_unrelated { 1int } else { 0int }),
{
    reveal_with_fuel(told_up_to, 7);
}

proof fn lemma_told_apart(s: CauseSignals, j: int, k: int)
    requires
        0 <= j < 6,
        0 <= k < 6,
        told(s)[j].1 == told(s)[k].1,
    ensures
        j == k,
{
    reveal_strlit("appears in a stack-trace line (+5)");
    reveal_strlit("dependency version changed (+4)");
    reveal_strlit("changed between the last pass and the failure (+3)");
    reveal_strlit("path appears in failing output (+3)");
    reveal_strlit("changed immediately before the failing run (+2)");
    reveal_strlit("looks generated or unrelated (-3)");
    assert(told(s)[0].1.len() == 34);
    assert(told(s)[1].1.len() == 31);
    assert(told(s)[2].1.len() == 50);
    assert(told(s)[3].1.len() == 35);
    assert(told(s)[4].1.len() == 47);
    assert(told(s)[5].1.len() == 33);
    assert(j == 0 || j == 1 || j == 2 || j == 3 || j == 4 || j == 5);
    assert(k == 0 || k == 1 || k == 2 || k == 3 || k == 4 || k == 5);
}

/// There is a line of evidence for each signal that is there, with what it adds
/// to the score, and for no other.
pub proof fn lemma_evidence(s: CauseSignals)
    ensures
        ({
            let lines = investigate::evidence_of(s);
            &&& lines.contains("appears in a stack-trace line (+5)"@) <==> s.in_stack_trace
            &&& lines.contains("dependency version changed (+4)"@) <==> s.dependency_changed
            &&& lines.contains("changed between the last pass and the failure (+3)"@)
                <==> s.changed_between_pass_and_fail
            &&& lines.contains("path appears in failing output (+3)"@) <==> s.in_failing_output
            &&& lines.contains("changed immediately before the failing run (+2)"@)
                <==> s.changed_before_failure
            &&& lines.contains("looks generated or unrelated (-3)"@) <==> s.generated_or_unrelated
            &&& lines.len() == (if s.in_stack_trace { 1int } else { 0int }) + (
            if s.dependency_changed { 1int } else { 0int }) + (
            if s.changed_between_pass_and_fail { 1int } else { 0int }) + (
            if s.in_failing_output { 1int } else { 0int }) + (
            if s.changed_before_failure { 1int } else { 0int }) + (
            if s.generated_or_unrelated { 1int } else { 0int })
        }),
{
    lemma_evidence_is_told(s);
    lemma_told_count(s);
    let lines = told_up_to(s, 6);
    assert forall|k: int| 0 <= k < 6 implies (lines.contains(told(s)[k].1) <==> #[trigger] told(
        s,
    )[k].0) by {
        if told(s)[k].0 {
            lemma_told_has(s, 6, k);
        }
        if lines.contains(told(s)[k].1) {
            let j = lemma_told_from(s, 6, lines.index_of(told(s)[k].1));
            lemma_told_apart(s, j, k);
        }
    }
    assert(told(s)[0].0 == s.in_stack_trace);
    assert(told(s)[1].0 == s.dependency_changed);
    assert(told(s)[2].0 == s.changed_between_pass_and_fail);
    assert(told(s)[3].0 == s.in_failing_output);
    assert(told(s)[4].0 == s.changed_before_failure);
    assert(told(s)[5].0 == s.generated_or_unrelated);
}

// ---------------------------------------------------------------------------
// Mentions
// ---------------------------------------------------------------------------

proof fn lemma_bytes_at_least(s: Seq<char>)
    ensures
        encode_utf8(s).len() >= s.len(),
    decreases s.len(),
{
    if s.len() > 0 {
        lemma_bytes_at_least(s.drop_first());
    }
}

/// A text names the file `n` of the directory `d` if it holds the path, or the
/// name if that has at least three characters, and only if it holds the name.
pub proof fn lemma_mentions(t: Seq<char>, d: Seq<char>, n: Seq<char>)
    requires
        !n.contains('/'),
    ensures
        text::occurs(t, d + "/"@ + n) ==> investigate::mentions(t, d + "/"@ + n),
        n.len() >= 3 && text::occurs(t, n) ==> investigate::mentions(t, d + "/"@ + n),
        investigate::mentions(t, d + "/"@ + n) ==> text::occurs(t, n),
        text::occurs(t, n) ==> investigate::mentions(t, n),
        investigate::mentions(t, n) ==> text::occurs(t, n),
{
    reveal_strlit("/");
    let path = d + "/"@ + n;
    let k = d.len() + 1;
    assert(path[k - 1] == '/');
    assert forall|j: int| k <= j < path.len() implies path[j] != '/' by {
        assert(path[j] == n[j - k]);
    }
    text::lemma_base_name(path, k as int);
    assert(path.skip(k as int) =~= n);
    assert forall|j: int| 0 <= j < n.len() implies n[j] != '/' by {
        assert(n.contains(n[j]));
    }
    text::lemma_base_name(n, 0);
    assert(n.skip(0) =~= n);
    lemma_bytes_at_least(n);
    let none = Seq::<char>::empty();
    assert(path =~= (d + "/"@) + n + none);
    text::lemma_occurs_within(d + "/"@, n, none);
    if text::occurs(t, path) {
        text::lemma_occurs_trans(t, path, n);
    }
}

/// The lines that name a path, in their order, as far as there is room: each is a
/// line of the output that names it, but for white space at its end, and as long
/// as there is room none that names it is left out.
pub proof fn lemma_naming_lines(lines: Seq<Seq<char>>, path: Seq<char>, max: nat)
    ensures
        ({
            let kept = investigate::naming_lines(lines, path, max);
            &&& kept.len() <= max
            &&& forall|i: int|
                0 <= i < kept.len() ==> exists|j: int|
                    0 <= j < lines.len() && investigate::mentions(#[trigger] lines[j], path)
                        && #[trigger] kept[i] == text::strip_back(lines[j], CharClass::WhiteSpace)
            &&& kept.len() < max ==> forall|j: int|
                0 <= j < lines.len() && investigate::mentions(#[trigger] lines[j], path)
                    ==> kept.contains(text::strip_back(lines[j], CharClass::WhiteSpace))
        }),
    decreases lines.len(),
{
    let kept = investigate::naming_lines(lines, path, max);
    if lines.len() > 0 {
        let front = lines.drop_last();
        let before = investigate::naming_lines(front, path, max);
        lemma_naming_lines(front, path, max);
        assert forall|i: int| 0 <= i < kept.len() implies exists|j: int|
            0 <= j < lines.len() && investigate::mentions(#[trigger] lines[j], path)
                && #[trigger] kept[i] == text::strip_back(lines[j], CharClass::WhiteSpace) by {
            if i < before.len() {
                assert(before[i] == kept[i]);
                let j = choose|j: int|
                    0 <= j < front.len() && investigate::mentions(#[trigger] front[j], path)
                        && before[i] == text::strip_back(front[j], CharClass::WhiteSpace);
                assert(lines[j] == front[j]);
            } else {
                assert(investigate::mentions(lines[lines.len() - 1], path));
            }
        }
        if kept.len() < max {
            assert forall|j: int|
                0 <= j < lines.len() && investigate::mentions(#[trigger] lines[j], path) implies
                kept.contains(text::strip_back(lines[j], CharClass::WhiteSpace)) by {
                if j < front.len() {
                    assert(front[j] == lines[j]);
                    let i = before.index_of(text::strip_back(front[j], CharClass::WhiteSpace));
                    assert(kept[i] == before[i]);
                } else {
                    assert(kept[kept.len() - 1] == text::strip_back(
                        lines[j],
                        CharClass::WhiteSpace,
                    ));
                }
            }
        }
    }
}

/// The excerpt is all of the lines if there are no more than fit, and else the
/// last ones that fit.
pub proof fn lemma_tail(a: Seq<Seq<char>>, b: Seq<Seq<char>>, max: nat)
    requires
        b.len() == max || (a.len() == 0 && b.len() <= max),
    ensures
        investigate::tail_of(a + b, max) == text::joined(b, "\n"@),
{
    assert((a + b).skip(a.len() as int) =~= b);
}

// ---------------------------------------------------------------------------
// Generated files
// ---------------------------------------------------------------------------

/// A path looks generated if it holds one of the usual marks, or ends as the names
/// of generated files do, in letters of either case.
pub proof fn lemma_generated(path: Seq<char>, a: Seq<char>, b: Seq<char>)
    ensures
        text::lower(path) == a + "/generated/"@ + b ==> investigate::looks_generated(path),
        text::lower(path) == a + "generated/"@ + b ==> investigate::looks_generated(path),
        text::lower(path) == a + ".generated."@ + b ==> investigate::looks_generated(path),
        text::lower(path) == a + "/__generated__/"@ + b ==> investigate::looks_generated(path),
        text::lower(path) == a + "/.gen/"@ + b ==> investigate::looks_generated(path),
        text::lower(path) == a + "/gen/"@ + b ==> investigate::looks_generated(path),
        text::lower(path) == a + "/snapshots/"@ + b ==> investigate::looks_generated(path),
        text::lower(path) == a + "__snapshots__"@ + b ==> investigate::looks_generated(path),
        text::lower(path) == a + ".min.js"@ ==> investigate::looks_generated(path),
        text::lower(path) == a + ".min.css"@ ==> investigate::looks_generated(path),
        text::lower(path) == a + ".map"@ ==> investigate::looks_generated(path),
        text::lower(path) == a + ".pb.go"@ ==> investigate::looks_generated(path),
        text::lower(path) == a + "_pb2.py"@ ==> investigate::looks_generated(path),
        text::lower(path) == a + ".g.dart"@ ==> investigate::looks_generated(path),
        text::lower(path) == a + ".freezed.dart"@ ==> investigate::looks_generated(path),
        text::lower(path) == a + ".d.ts"@ ==> investigate::looks_generated(path),
{
    let markers = investigate::generated_markers();
    let suffixes = investigate::generated_suffixes();
    assert(markers[0] == "/generated/"@);
    text::lemma_occurs_within(a, "/generated/"@, b);
    assert(markers[1] == "generated/"@);
    text::lemma_occurs_within(a, "generated/"@, b);
    assert(markers[2] == ".generated."@);
    text::lemma_occurs_within(a, ".generated."@, b);
    assert(markers[3] == "/__generated__/"@);
    text::lemma_occurs_within(a, "/__generated__/"@, b);
    assert(markers[4] == "/.gen/"@);
    text::lemma_occurs_within(a, "/.gen/"@, b);
    assert(markers[5] == "/gen/"@);
    text::lemma_occurs_within(a, "/gen/"@, b);
    assert(markers[6] == "/snapshots/"@);
    text::lemma_occurs_within(a, "/snapshots/"@, b);
    assert(markers[7] == "__snapshots__"@);
    text::lemma_occurs_within(a, "__snapshots__"@, b);
    reveal_strlit(".min.js");
    assert(suffixes[0] == ".min.js"@);
    if text::lower(path) == a + ".min.js"@ {
        lemma_base_keeps_end(a, ".min.js"@);
    }
    reveal_strlit(".min.css");
    assert(suffixes[1] == ".min.css"@);
    if text::lower(path) == a + ".min.css"@ {
        lemma_base_keeps_end(a, ".min.css"@);
    }
    reveal_strlit(".map");
    assert(suffixes[2] == ".map"@);
    if text::lower(path) == a + ".map"@ {
        lemma_base_keeps_end(a, ".map"@);
    }
    reveal_strlit(".pb.go");
    assert(suffixes[3] == ".pb.go"@);
    if text::lower(path) == a + ".pb.go"@ {
        lemma_base_keeps_end(a, ".pb.go"@);
    }
    reveal_strlit("_pb2.py");
    assert(suffixes[4] == "_pb2.py"@);
    if text::lower(path) == a + "_pb2.py"@ {
        lemma_base_keeps_end(a, "_pb2.py"@);
    }
    reveal_strlit(".g.dart");
    assert(suffixes[5] == ".g.dart"@);
    if text::lower(path) == a + ".g.dart"@ {
        lemma_base_keeps_end(a, ".g.dart"@);
    }
    reveal_strlit(".freezed.dart");
    assert(suffixes[6] == ".freezed.dart"@);
    if text::lower(path) == a + ".freezed.dart"@ {
        lemma_base_keeps_end(a, ".freezed.dart"@);
    }
    reveal_strlit(".d.ts");
    assert(suffixes[7] == ".d.ts"@);
    if text::lower(path) == a + ".d.ts"@ {
        lemma_base_keeps_end(a, ".d.ts"@);
    }
}

proof fn lemma_base_keeps_end(a: Seq<char>, end: Seq<char>)
    requires
        forall|i: int| 0 <= i < end.len() ==> end[i] != '/',
    ensures
        end.is_suffix_of(text::base_name(a + end)),
    decreases end.len(),
{
    let path = a + end;
    if end.len() == 0 {
        assert(end =~= text::base_name(path).subrange(
            text::base_name(path).len() as int,
            text::base_name(path).len() as int,
        ));
    } else {
        let front = end.drop_last();
        assert forall|i: int| 0 <= i < front.len() implies front[i] != '/' by {
            assert(front[i] == end[i]);
        }
        lemma_base_keeps_end(a, front);
        assert(path.drop_last() =~= a + front);
        assert(path.last() == end.last());
        let base = text::base_name(a + front);
        let whole = base.push(end.last());
        assert(text::base_name(path) == whole);
        let tail = whole.subrange(whole.len() - end.len(), whole.len() as int);
        let old_tail = base.subrange(base.len() - front.len(), base.len() as int);
        assert forall|i: int| 0 <= i < end.len() implies end[i] == tail[i] by {
            if i < front.len() {
                assert(front[i] == old_tail[i]);
            }
        }
        assert(end =~= tail);
    }
}

/// A path that holds none of the marks and has none of the endings does not look
/// generated.
pub proof fn lemma_not_generated(path: Seq<char>)
    requires
        !text::occurs(text::lower(path), "/generated/"@),
        !text::occurs(text::lower(path), "generated/"@),
        !text::occurs(text::lower(path), ".generated."@),
        !text::occurs(text::lower(path), "/__generated__/"@),
        !text::occurs(text::lower(path), "/.gen/"@),
        !text::occurs(text::lower(path), "/gen/"@),
        !text::occurs(text::lower(path), "/snapshots/"@),
        !text::occurs(text::lower(path), "__snapshots__"@),
        !text::occurs(text::lower(path), ".min.js"@),
        !text::occurs(text::lower(path), ".min.css"@),
        !text::occurs(text::lower(path), ".map"@),
        !text::occurs(text::lower(path), ".pb.go"@),
        !text::occurs(text::lower(path), "_pb2.py"@),
        !text::occurs(text::lower(path), ".g.dart"@),
        !text::occurs(text::lower(path), ".freezed.dart"@),
        !text::occurs(text::lower(path), ".d.ts"@),
    ensures
        !investigate::looks_generated(path),
{
    let p = text::lower(path);
    let base = text::base_name(p);
    let markers = investigate::generated_markers();
    let suffixes = investigate::generated_suffixes();
    lemma_base_occurs(p);
    assert forall|i: int| 0 <= i < markers.len() implies !text::occurs(p, #[trigger] markers[i]) by {
        if i == 0 {
            assert(markers[i] == "/generated/"@);
        }
        if i == 1 {
            assert(markers[i] == "generated/"@);
        }
        if i == 2 {
            assert(markers[i] == ".generated."@);
        }
        if i == 3 {
            assert(markers[i] == "/__generated__/"@);
        }
        if i == 4 {
            assert(markers[i] == "/.gen/"@);
        }
        if i == 5 {
            assert(markers[i] == "/gen/"@);
        }
        if i == 6 {
            assert(markers[i] == "/snapshots/"@);
        }
        if i == 7 {
            assert(markers[i] == "__snapshots__"@);
        }
    }
    assert forall|i: int| 0 <= i < suffixes.len() implies !(#[trigger] suffixes[i]).is_suffix_of(
        base,
    ) by {
        if suffixes[i].is_suffix_of(base) {
            let none = Seq::<char>::empty();
            let front = base.take(base.len() - suffixes[i].len());
            assert(base =~= front + suffixes[i] + none);
            text::lemma_occurs_within(front, suffixes[i], none);
            text::lemma_occurs_trans(p, base, suffixes[i]);
        }
        if i == 0 {
            assert(suffixes[i] == ".min.js"@);
        }
        if i == 1 {
            assert(suffixes[i] == ".min.css"@);
        }
        if i == 2 {
            assert(suffixes[i] == ".map"@);
        }
        if i == 3 {
            assert(suffixes[i] == ".pb.go"@);
        }
        if i == 4 {
            assert(suffixes[i] == "_pb2.py"@);
        }
        if i == 5 {
            assert(suffixes[i] == ".g.dart"@);
        }
        if i == 6 {
            assert(suffixes[i] == ".freezed.dart"@);
        }
        if i == 7 {
            assert(suffixes[i] == ".d.ts"@);
        }
    }
}

proof fn lemma_base_occurs(path: Seq<char>)
    ensures
        text::occurs(path, text::base_name(path)),
    decreases path.len(),
{
    let base = text::base_name(path);
    let none = Seq::<char>::empty();
    let n = path.len() - base.len();
    lemma_base_is_end(path);
    assert(path =~= path.take(n) + base + none);
    text::lemma_occurs_within(path.take(n), base, none);
}

proof fn lemma_base_is_end(path: Seq<char>)
    ensures
        text::base_name(path).len() <= path.len(),
        text::base_name(path) == path.skip(path.len() - text::base_name(path).len()),
    decreases path.len(),
{
    let base = text::base_name(path);
    if path.len() > 0 && path.last() != '/' {
        let front = path.drop_last();
        lemma_base_is_end(front);
        assert(base =~= path.skip(path.len() - base.len()));
    } else {
        assert(base =~= path.skip(path.len() as int));
    }
}

// ---------------------------------------------------------------------------
// Dependency versions
// ---------------------------------------------------------------------------

/// A name of letters, digits and the marks that names of packages have, which does
/// not begin with a slash.
pub open spec fn is_package(n: Seq<char>) -> bool {
    &&& n.len() > 0
    &&& n[0] != '/'
    &&& forall|i: int| 0 <= i < n.len() ==> is_package_char(#[trigger] n[i])
}

/// A character of the name of a package.
pub open spec fn is_package_char(c: char) -> bool {
    ||| 'a' <= c && c <= 'z'
    ||| 'A' <= c && c <= 'Z'
    ||| '0' <= c && c <= '9'
    ||| c == '-'
    ||| c == '_'
    ||| c == '.'
    ||| c == '/'
    ||| c == '@'
}

/// A version that begins with a digit and goes on without marks that manifests
/// give a meaning.
pub open spec fn is_plain_version(v: Seq<char>) -> bool {
    &&& v.len() > 0
    &&& '0' <= v[0] && v[0] <= '9'
    &&& forall|i: int| 0 <= i < v.len() ==> is_version_char(#[trigger] v[i])
}

/// A character of a plain version.
pub open spec fn is_version_char(c: char) -> bool {
    ||| 'a' <= c && c <= 'z'
    ||| 'A' <= c && c <= 'Z'
    ||| '0' <= c && c <= '9'
    ||| c == '.'
    ||| c == '-'
    ||| c == '+'
    ||| c == '_'
}

/// A mark that stands before a version to make it a range.
pub open spec fn is_range_mark(c: char) -> bool {
    c == '^' || c == '~' || c == '>' || c == '<' || c == '=' || c == ' '
}

/// A version with the first `k` characters marks of a range.
pub open spec fn is_ranged(v: Seq<char>, k: int) -> bool {
    &&& 0 <= k < v.len()
    &&& forall|i: int| 0 <= i < k ==> is_range_mark(#[trigger] v[i])
    &&& is_plain_version(v.skip(k))
}

proof fn lemma_ranged_char(v: Seq<char>, k: int, i: int)
    requires
        is_ranged(v, k),
        0 <= i < v.len(),
    ensures
        is_range_mark(v[i]) || is_version_char(v[i]),
        is_version_char(v.last()),
{
    if i >= k {
        assert(v.skip(k)[i - k] == v[i]);
    }
    assert(v.skip(k)[v.len() - k - 1] == v.last());
}

proof fn lemma_clean(class: CharClass, s: Seq<char>)
    requires
        s.len() > 0,
        !class.has_char(s[0]),
        !class.has_char(s.last()),
    ensures
        text::strip_both(s, class) == s,
        text::strip_back(s, class) == s,
        text::strip_front(s, class) == s,
{
    let none = Seq::<char>::empty();
    assert(none + s + none =~= s);
    assert(s + none =~= s);
    assert(none + s =~= s);
    text::lemma_strip_both(none, s, none, class);
    text::lemma_strip_back(s, none, class);
    text::lemma_strip_front(none, s, class);
}

proof fn lemma_between(class: CharClass, a: Seq<char>, s: Seq<char>, b: Seq<char>)
    requires
        text::all_in(a, class),
        text::all_in(b, class),
        s.len() > 0,
        !class.has_char(s[0]),
        !class.has_char(s.last()),
    ensures
        text::strip_both(a + s + b, class) == s,
{
    text::lemma_strip_both(a, s, b, class);
}

/// The name and the version are ones.
proof fn lemma_pair_parts(n: Seq<char>, v: Seq<char>, k: int)
    requires
        is_package(n),
        is_ranged(v, k),
    ensures
        investigate::is_name(n),
        investigate::is_version(v),
{
    reveal_strlit("^~><= ");
    assert forall|i: int| 0 <= i < n.len() implies investigate::is_ident_char(#[trigger] n[i]) by {
        assert(is_package_char(n[i]));
    }
    let class = CharClass::AnyOf("^~><= ");
    let marks = "^~><= "@;
    assert(marks[0] == '^' && marks[1] == '~' && marks[2] == '>' && marks[3] == '<' && marks[4]
        == '=' && marks[5] == ' ');
    assert(text::all_in(v.take(k), class)) by {
        assert forall|i: int| 0 <= i < v.take(k).len() implies class.has_char(
            #[trigger] v.take(k)[i],
        ) by {
            assert(is_range_mark(v[i]));
        }
    }
    assert(v.take(k) + v.skip(k) =~= v);
    text::lemma_strip_front(v.take(k), v.skip(k), class);
}

proof fn lemma_plain_is_ranged(v: Seq<char>)
    requires
        is_plain_version(v),
    ensures
        is_ranged(v, 0),
{
    assert(v.skip(0) =~= v);
}

#[verifier::spinoff_prover]
#[verifier::rlimit(60)]
proof fn lemma_pinned_line(n: Seq<char>, v: Seq<char>)
    requires
        is_package(n),
        is_plain_version(v),
    ensures
        investigate::line_version(n + "=="@ + v) == Some((n, v)),
{
    reveal_strlit("==");
    reveal_strlit("=");
    reveal_strlit(":");
    reveal_strlit(",");
    reveal_strlit("\"");
    reveal_strlit("#");
    reveal_strlit("//");
    let line = n + "=="@ + v;
    lemma_plain_is_ranged(v);
    lemma_pair_parts(n, v, 0);
    assert(is_package_char(n[0]) && is_package_char(n[n.len() - 1]));
    assert(is_version_char(v[0]) && is_version_char(v[v.len() - 1]));
    assert(line[0] == n[0] && line.last() == v.last());
    lemma_clean(CharClass::WhiteSpace, line);
    lemma_clean(CharClass::AnyOf(","), line);
    assert(!line.contains(':')) by {
        if line.contains(':') {
            let i = line.index_of(':');
            assert(i < n.len() ==> is_package_char(n[i]));
            assert(i >= n.len() + 2 ==> is_version_char(v[i - n.len() - 2]));
        }
    }
    assert(!n.contains('=')) by {
        if n.contains('=') {
            assert(is_package_char(n[n.index_of('=')]));
        }
    }
    text::lemma_split_without(line, ":"@);
    assert(line =~= n + "="@ + ("="@ + v));
    text::lemma_split_at_first(n, "="@, "="@ + v);
    assert(("="@ + v).subrange(0, 1) =~= "="@);
    text::lemma_split_at_first(n, "=="@, v);
    lemma_clean(CharClass::WhiteSpace, n);
    lemma_clean(CharClass::WhiteSpace, v);
    lemma_clean(CharClass::AnyOf("\""), v);
    lemma_not_comment(line);
}

proof fn lemma_not_comment(line: Seq<char>)
    requires
        line.len() > 0,
        line[0] != '#',
        line[0] != '/',
    ensures
        !"#"@.is_prefix_of(line),
        !"//"@.is_prefix_of(line),
{
    reveal_strlit("#");
    reveal_strlit("//");
    if "#"@.is_prefix_of(line) {
        assert("#"@[0] == line.subrange(0, 1)[0]);
    }
    if "//"@.is_prefix_of(line) {
        assert("//"@[0] == line.subrange(0, 2)[0]);
    }
}

#[verifier::spinoff_prover]
#[verifier::rlimit(60)]
proof fn lemma_equals_line(n: Seq<char>, v: Seq<char>, k: int, quote: char)
    requires
        is_package(n),
        is_ranged(v, k),
        quote == '"' || quote == '\'',
    ensures
        investigate::line_version(n + seq![' ', '=', ' ', quote] + v + seq![quote]) == Some((n, v)),
{
    reveal_strlit("=");
    reveal_strlit(":");
    reveal_strlit(",");
    reveal_strlit("\"");
    reveal_strlit("'");
    let q = seq![quote];
    let sp = seq![' '];
    let line = n + seq![' ', '=', ' ', quote] + v + q;
    lemma_pair_parts(n, v, k);
    assert(is_package_char(n[0]) && is_package_char(n[n.len() - 1]));
    lemma_ranged_char(v, k, 0);
    assert(line[0] == n[0] && line.last() == quote);
    lemma_clean(CharClass::WhiteSpace, line);
    lemma_clean(CharClass::AnyOf(","), line);
    assert(!line.contains(':')) by {
        if line.contains(':') {
            let i = line.index_of(':');
            assert(i < n.len() ==> is_package_char(n[i]));
            if n.len() + 4 <= i < n.len() + 4 + v.len() {
                lemma_ranged_char(v, k, i - n.len() - 4);
            }
        }
    }
    assert(!(n + sp).contains('=')) by {
        if (n + sp).contains('=') {
            let i = (n + sp).index_of('=');
            assert(i < n.len() ==> is_package_char(n[i]));
        }
    }
    text::lemma_split_without(line, ":"@);
    let b = sp + (q + v + q);
    assert(line =~= (n + sp) + "="@ + b);
    text::lemma_split_at_first(n + sp, "="@, b);
    if "="@.is_prefix_of(b) {
        assert(b.subrange(0, 1)[0] == "="@[0]);
    }
    let none = Seq::<char>::empty();
    assert(none + n + sp =~= n + sp);
    lemma_between(CharClass::WhiteSpace, none, n, sp);
    assert(sp + (q + v + q) + none =~= b);
    assert((q + v + q)[0] == quote && (q + v + q).last() == quote);
    lemma_between(CharClass::WhiteSpace, sp, q + v + q, none);
    assert("\""@[0] == '"' && "'"@[0] == '\'');
    if quote == '"' {
        assert(text::all_in(q, CharClass::AnyOf("\"")));
        lemma_between(CharClass::AnyOf("\""), q, v, q);
        lemma_clean(CharClass::AnyOf("'"), v);
    } else {
        lemma_clean(CharClass::AnyOf("\""), q + v + q);
        assert(text::all_in(q, CharClass::AnyOf("'")));
        lemma_between(CharClass::AnyOf("'"), q, v, q);
    }
    lemma_not_comment(line);
}

#[verifier::spinoff_prover]
#[verifier::rlimit(60)]
proof fn lemma_colon_line(n: Seq<char>, v: Seq<char>, k: int, comma: bool)
    requires
        is_package(n),
        is_ranged(v, k),
    ensures
        investigate::line_version("\""@ + n + "\": \""@ + v + "\""@ + (if comma { ","@ } else { ""@ }))
            == Some((n, v)),
{
    reveal_strlit("\": \"");
    reveal_strlit(":");
    reveal_strlit(",");
    reveal_strlit("");
    reveal_strlit("\"");
    let q = seq!['"'];
    let sp = seq![' '];
    let none = Seq::<char>::empty();
    let end = if comma { ","@ } else { ""@ };
    let line = "\""@ + n + "\": \""@ + v + "\""@ + end;
    let core = "\""@ + n + "\": \""@ + v + "\""@;
    lemma_pair_parts(n, v, k);
    lemma_ranged_char(v, k, 0);
    assert(is_package_char(n[0]) && is_package_char(n[n.len() - 1]));
    assert(line[0] == '"');
    assert(core.last() == '"');
    lemma_clean(CharClass::WhiteSpace, line);
    text::lemma_strip_back(core, end, CharClass::AnyOf(","));
    let a = q + n + q;
    let b = sp + (q + v + q);
    assert(core =~= a + ":"@ + b);
    assert(!a.contains(':')) by {
        if a.contains(':') {
            let i = a.index_of(':');
            assert(1 <= i < n.len() + 1 ==> is_package_char(n[i - 1]));
        }
    }
    text::lemma_split_at_first(a, ":"@, b);
    assert(a[0] == '"' && a.last() == '"');
    lemma_clean(CharClass::WhiteSpace, a);
    lemma_between(CharClass::AnyOf("\""), q, n, q);
    assert(sp + (q + v + q) + none =~= b);
    assert((q + v + q)[0] == '"' && (q + v + q).last() == '"');
    lemma_between(CharClass::WhiteSpace, sp, q + v + q, none);
    lemma_between(CharClass::AnyOf("\""), q, v, q);
    lemma_not_comment(line);
}

/// A line of a manifest that gives the version of a package, in any of the usual
/// forms and with white space around it, is read as that. A version may have the
/// marks of a range before it, but for one that is pinned.
pub proof fn lemma_manifest_lines(w: Seq<char>, n: Seq<char>, v: Seq<char>, k: int, x: Seq<char>)
    requires
        is_package(n),
        is_ranged(v, k),
        text::all_in(w, CharClass::WhiteSpace),
        text::all_in(x, CharClass::WhiteSpace),
    ensures
        k == 0 ==> investigate::line_version(w + (n + "=="@ + v) + x) == Some((n, v)),
        investigate::line_version(w + (n + " = \""@ + v + "\""@) + x) == Some((n, v)),
        investigate::line_version(w + (n + " = '"@ + v + "'"@) + x) == Some((n, v)),
        investigate::line_version(w + ("\""@ + n + "\": \""@ + v + "\""@ + ","@) + x) == Some(
            (n, v),
        ),
        investigate::line_version(w + ("\""@ + n + "\": \""@ + v + "\""@) + x) == Some((n, v)),
{
    reveal_strlit("\": \"");
    reveal_strlit(" = \"");
    reveal_strlit(" = '");
    reveal_strlit("==");
    reveal_strlit(",");
    reveal_strlit("");
    reveal_strlit("\"");
    reveal_strlit("'");
    assert(is_package_char(n[0]) && is_package_char(n[n.len() - 1]));
    lemma_ranged_char(v, k, 0);
    let a = n + "=="@ + v;
    let b = n + " = \""@ + v + "\""@;
    let e = n + " = '"@ + v + "'"@;
    let c = "\""@ + n + "\": \""@ + v + "\""@ + ","@;
    let d = "\""@ + n + "\": \""@ + v + "\""@;
    assert(d + ""@ =~= d);
    assert(" = \""@ =~= seq![' ', '=', ' ', '"'] && "\""@ =~= seq!['"']);
    assert(" = '"@ =~= seq![' ', '=', ' ', '\''] && "'"@ =~= seq!['\'']);
    if k == 0 {
        assert(v.skip(0) =~= v);
        lemma_pinned_line(n, v);
        assert(a[0] == n[0] && a.last() == v.last());
        lemma_trimmed_line(w, a, x);
    }
    lemma_equals_line(n, v, k, '"');
    lemma_equals_line(n, v, k, '\'');
    lemma_colon_line(n, v, k, true);
    lemma_colon_line(n, v, k, false);
    assert(b[0] == n[0] && b.last() == '"');
    assert(e[0] == n[0] && e.last() == '\'');
    assert(c[0] == '"' && c.last() == ',');
    assert(d[0] == '"' && d.last() == '"');
    lemma_trimmed_line(w, b, x);
    lemma_trimmed_line(w, e, x);
    lemma_trimmed_line(w, c, x);
    lemma_trimmed_line(w, d, x);
}

/// A value that does not begin with a digit is no version.
pub proof fn lemma_other_values(n: Seq<char>, s: Seq<char>)
    requires
        is_package(n),
        s.len() > 0,
        forall|i: int| 0 <= i < s.len() ==> is_version_char(#[trigger] s[i]),
        !('0' <= s[0] && s[0] <= '9'),
    ensures
        investigate::line_version(n + " = \""@ + s + "\""@) is None,
{
    reveal_strlit(" = \"");
    reveal_strlit("\"");
    reveal_strlit("=");
    reveal_strlit("==");
    reveal_strlit(":");
    reveal_strlit(",");
    reveal_strlit("'");
    let q = seq!['"'];
    let sp = seq![' '];
    let none = Seq::<char>::empty();
    let line = n + " = \""@ + s + "\""@;
    assert(is_package_char(n[0]) && is_package_char(n[n.len() - 1]));
    assert(is_version_char(s[0]) && is_version_char(s[s.len() - 1]));
    assert(line[0] == n[0] && line.last() == '"');
    lemma_clean(CharClass::WhiteSpace, line);
    lemma_clean(CharClass::AnyOf(","), line);
    assert forall|i: int| 0 <= i < line.len() implies #[trigger] line[i] != ':' && (line[i] == '='
        ==> i == n.len() + 1) by {
        assert(i < n.len() ==> is_package_char(n[i]));
        assert(n.len() + 4 <= i < n.len() + 4 + s.len() ==> is_version_char(s[i - n.len() - 4]));
    }
    assert(!line.contains(':'));
    text::lemma_split_without(line, ":"@);
    let b = sp + (q + s + q);
    assert(line =~= (n + sp) + "="@ + b);
    assert(!(n + sp).contains('=')) by {
        if (n + sp).contains('=') {
            let i = (n + sp).index_of('=');
            assert(line[i] == '=');
        }
    }
    text::lemma_split_at_first(n + sp, "="@, b);
    assert(sp + (q + s + q) + none =~= b);
    assert((q + s + q)[0] == '"' && (q + s + q).last() == '"');
    lemma_between(CharClass::WhiteSpace, sp, q + s + q, none);
    lemma_between(CharClass::AnyOf("\""), q, s, q);
    lemma_clean(CharClass::AnyOf("'"), s);
    lemma_no_version(s);
    assert(!text::occurs(line, "=="@)) by {
        if text::occurs(line, "=="@) {
            let i = choose|i: int| text::occurs_at(line, "=="@, i);
            assert(line.subrange(i, i + 2)[0] == '=' && line.subrange(i, i + 2)[1] == '=');
            assert(line[i] == '=' && line[i + 1] == '=');
        }
    }
}

proof fn lemma_no_version(s: Seq<char>)
    requires
        s.len() > 0,
        is_version_char(s[0]),
        !('0' <= s[0] && s[0] <= '9'),
    ensures
        !investigate::is_version(s),
{
    reveal_strlit("^~><= ");
    let none = Seq::<char>::empty();
    assert(none + s =~= s);
    text::lemma_strip_front(none, s, CharClass::AnyOf("^~><= "));
}

proof fn lemma_trimmed_line(w: Seq<char>, line: Seq<char>, x: Seq<char>)
    requires
        text::all_in(w, CharClass::WhiteSpace),
        text::all_in(x, CharClass::WhiteSpace),
        line.len() > 0,
        !text::is_white_space(line[0]),
        !text::is_white_space(line.last()),
    ensures
        investigate::line_version(w + line + x) == investigate::line_version(line),
{
    text::lemma_strip_both(w, line, x, CharClass::WhiteSpace);
    lemma_clean(CharClass::WhiteSpace, line);
}

/// Comments and empty lines give no version.
pub proof fn lemma_comments_give_none(w: Seq<char>, b: Seq<char>)
    requires
        text::all_in(w, CharClass::WhiteSpace),
    ensures
        investigate::line_version(w) is None,
        investigate::line_version(w + "#"@ + b) is None,
        investigate::line_version(w + "//"@ + b) is None,
{
    reveal_strlit("#");
    reveal_strlit("//");
    let none = Seq::<char>::empty();
    assert(w + none =~= w);
    text::lemma_strip_front(w, none, CharClass::WhiteSpace);
    let s = "#"@ + b;
    let t = "//"@ + b;
    assert(w + "#"@ + b =~= w + s);
    assert(w + "//"@ + b =~= w + t);
    text::lemma_strip_front(w, s, CharClass::WhiteSpace);
    text::lemma_strip_front(w, t, CharClass::WhiteSpace);
    lemma_strip_back_keeps(s, 1);
    lemma_strip_back_keeps(t, 2);
    let a = text::strip_back(s, CharClass::WhiteSpace);
    let c = text::strip_back(t, CharClass::WhiteSpace);
    assert(a.subrange(0, 1) =~= "#"@) by {
        assert(a.take(1)[0] == s.take(1)[0]);
    }
    assert(c.subrange(0, 2) =~= "//"@) by {
        assert(c.take(2)[0] == t.take(2)[0]);
        assert(c.take(2)[1] == t.take(2)[1]);
    }
}

proof fn lemma_strip_back_keeps(s: Seq<char>, n: int)
    requires
        0 < n <= s.len(),
        !text::is_white_space(s[n - 1]),
    ensures
        text::strip_back(s, CharClass::WhiteSpace).len() >= n,
        text::strip_back(s, CharClass::WhiteSpace).take(n) == s.take(n),
    decreases s.len(),
{
    if text::is_white_space(s.last()) {
        lemma_strip_back_keeps(s.drop_last(), n);
        assert(s.drop_last().take(n) =~= s.take(n));
    }
}

/// The last line of a manifest that gives a version of a name counts, and lines
/// that give none change nothing.
pub proof fn lemma_last_version_counts(lines: Seq<Seq<char>>, line: Seq<char>, n: Seq<char>)
    ensures
        ({
            let before = investigate::versions_in(lines);
            let after = investigate::versions_in(lines.push(line));
            match investigate::line_version(line) {
                Some((k, v)) => {
                    &&& after.contains_key(k) && after[k] == v
                    &&& n != k ==> after.contains_key(n) == before.contains_key(n)
                    &&& n != k && before.contains_key(n) ==> after[n] == before[n]
                },
                None => after == before,
            }
        }),
        !investigate::versions_in(Seq::empty()).contains_key(n),
{
    assert(lines.push(line).drop_last() =~= lines);
}

/// A version change is told of exactly the names that one side has and the other
/// lacks or has otherwise, each with both versions.
pub proof fn lemma_version_changes(
    out: Seq<DependencyView>,
    file: Seq<char>,
    old: Map<Seq<char>, Seq<char>>,
    new: Map<Seq<char>, Seq<char>>,
    n: Seq<char>,
)
    requires
        investigate::is_version_diff(out, file, old, new),
    ensures
        (exists|i: int| 0 <= i < out.len() && (#[trigger] out[i]).name == n) <==> (
        old.contains_key(n) != new.contains_key(n) || (old.contains_key(n) && new.contains_key(n)
            && old[n] != new[n])),
        forall|i: int|
            0 <= i < out.len() && (#[trigger] out[i]).name == n ==> {
                &&& out[i].file == file
                &&& out[i].old is Some <==> old.contains_key(n)
                &&& old.contains_key(n) ==> out[i].old == Some(old[n])
                &&& out[i].new is Some <==> new.contains_key(n)
                &&& new.contains_key(n) ==> out[i].new == Some(new[n])
            },
{
    let names = investigate::dependency_names(out);
    assert(names.contains(n) <==> investigate::value_of(old, n) != investigate::value_of(new, n));
    if names.contains(n) {
        let i = names.index_of(n);
        assert(out[i].name == n);
    }
    if exists|i: int| 0 <= i < out.len() && (#[trigger] out[i]).name == n {
        let i = choose|i: int| 0 <= i < out.len() && (#[trigger] out[i]).name == n;
        assert(names[i] == n);
    }
}

/// The files that give versions are known by their names, in any directory.
pub proof fn lemma_manifests(d: Seq<char>, n: Seq<char>)
    requires
        !n.contains('/'),
    ensures
        exec::dependency_manifests().contains(text::base_name(d + "/"@ + n)) <==> (
        n == "Cargo.toml"@ || n == "Cargo.lock"@ || n == "package.json"@
        || n == "package-lock.json"@ || n == "yarn.lock"@ || n == "pnpm-lock.yaml"@
        || n == "requirements.txt"@ || n == "Pipfile"@ || n == "Pipfile.lock"@
        || n == "poetry.lock"@ || n == "pyproject.toml"@ || n == "go.mod"@ || n == "go.sum"@
        || n == "Gemfile"@ || n == "Gemfile.lock"@ || n == "composer.json"@
        || n == "composer.lock"@ || n == "pom.xml"@ || n == "build.gradle"@),
{
    reveal_strlit("/");
    let path = d + "/"@ + n;
    let k = d.len() + 1;
    assert(path[k - 1] == '/');
    assert forall|j: int| k <= j < path.len() implies path[j] != '/' by {
        assert(path[j] == n[j - k]);
    }
    text::lemma_base_name(path, k as int);
    assert(path.skip(k as int) =~= n);
    let all = exec::dependency_manifests();
    assert(all[0] == "Cargo.toml"@);
    assert(all[1] == "Cargo.lock"@);
    assert(all[2] == "package.json"@);
    assert(all[3] == "package-lock.json"@);
    assert(all[4] == "yarn.lock"@);
    assert(all[5] == "pnpm-lock.yaml"@);
    assert(all[6] == "requirements.txt"@);
    assert(all[7] == "Pipfile"@);
    assert(all[8] == "Pipfile.lock"@);
    assert(all[9] == "poetry.lock"@);
    assert(all[10] == "pyproject.toml"@);
    assert(all[11] == "go.mod"@);
    assert(all[12] == "go.sum"@);
    assert(all[13] == "Gemfile"@);
    assert(all[14] == "Gemfile.lock"@);
    assert(all[15] == "composer.json"@);
    assert(all[16] == "composer.lock"@);
    assert(all[17] == "pom.xml"@);
    assert(all[18] == "build.gradle"@);
    if all.contains(n) {
        let i = all.index_of(n);
        assert(0 <= i < 19);
    }
}

// ---------------------------------------------------------------------------
// Likely causes
// ---------------------------------------------------------------------------

/// What makes up a likely cause: the path and the status of the change, a score
/// of three points with those that the signals add, the lines that the new
/// version adds unless the file is gone, at most four lines of output that name
/// it, and the version changes it brings.
pub proof fn lemma_cause(
    objects: Map<Seq<char>, Vec<u8>>,
    change: ChangeView,
    before: Set<Seq<char>>,
    output: Seq<char>,
)
    ensures
        ({
            let c = investigate::cause_of(objects, change, before, output);
            let framed = exists|i: int|
                0 <= i < text::lines_of(output).len() && investigate::is_frame(
                    #[trigger] text::lines_of(output)[i],
                ) && investigate::mentions(text::lines_of(output)[i], change.path);
            &&& c.path == change.path
            &&& c.status == change.status
            &&& c.score == 3 + (if framed { 5int } else { 0 }) + (
            if c.dependency_changes.len() > 0 { 4int } else { 0 }) + (
            if investigate::mentions(output, change.path) { 3int } else { 0 }) + (
            if before.contains(change.path) { 2int } else { 0 }) - (
            if investigate::looks_generated(change.path) { 3int } else { 0 })
            &&& change.status is Deleted ==> c.changed_lines.len() == 0
            &&& !(change.status is Deleted) ==> c.changed_lines == diff::changed_lines_of(
                objects,
                change.old_hash,
                change.new_hash,
            )
            &&& c.relevant_output.len() <= 4
            &&& c.relevant_output.len() < 4 ==> forall|j: int|
                0 <= j < text::lines_of(output).len() && investigate::mentions(
                    #[trigger] text::lines_of(output)[j],
                    change.path,
                ) ==> c.relevant_output.contains(
                    text::strip_back(text::lines_of(output)[j], CharClass::WhiteSpace),
                )
            &&& c.evidence.contains("changed between the last pass and the failure (+3)"@)
            &&& c.evidence.contains("appears in a stack-trace line (+5)"@) <==> framed
            &&& c.evidence.contains("path appears in failing output (+3)"@)
                <==> investigate::mentions(output, change.path)
            &&& c.evidence.contains("dependency version changed (+4)"@)
                <==> c.dependency_changes.len() > 0
            &&& c.evidence.contains("changed immediately before the failing run (+2)"@)
                <==> before.contains(change.path)
            &&& c.evidence.contains("looks generated or unrelated (-3)"@)
                <==> investigate::looks_generated(change.path)
        }),
{
    let signals = investigate::signals_of(objects, change, before, output);
    lemma_evidence(signals);
    lemma_naming_lines(text::lines_of(output), change.path, 4);
}

/// A changed file that a frame of the output names by its path has eight points
/// more for that: five for the frame and three for standing in the output.
pub proof fn lemma_named_frame_counts(
    objects: Map<Seq<char>, Vec<u8>>,
    change: ChangeView,
    before: Set<Seq<char>>,
    output: Seq<char>,
    line: Seq<char>,
)
    requires
        text::lines_of(output).contains(line),
        investigate::is_frame(line),
        text::occurs(line, change.path),
    ensures
        ({
            let c = investigate::cause_of(objects, change, before, output);
            c.score == 11 + (if c.dependency_changes.len() > 0 { 4int } else { 0 }) + (
            if before.contains(change.path) { 2int } else { 0 }) - (
            if investigate::looks_generated(change.path) { 3int } else { 0 })
        }),
{
    let lines = text::lines_of(output);
    let i = lines.index_of(line);
    text::lemma_line_occurs(output, i);
    text::lemma_occurs_trans(output, line, change.path);
    lemma_cause(objects, change, before, output);
    assert(investigate::is_frame(lines[i]));
}

/// A ranking holds every cause once, the higher scores first, and among equal
/// scores the path that comes first in the order of characters.
pub proof fn lemma_ranking_order(causes: Seq<CauseView>, all: Seq<CauseView>, i: int, j: int)
    requires
        investigate::is_ranking(causes, all),
        0 <= i < j < causes.len(),
    ensures
        causes[i].score >= causes[j].score,
        causes[i].score == causes[j].score ==> text::lt(causes[i].path, causes[j].path),
        causes.len() == all.len(),
        all.contains(causes[i]),
{
    causes.to_multiset_ensures();
    all.to_multiset_ensures();
    assert(investigate::outranks(causes[i], causes[j]));
    assert(causes.contains(causes[i]));
    assert(causes.to_multiset().count(causes[i]) > 0);
}

/// The summary says how many files changed, and names the first cause of the
/// ranking with its score.
pub proof fn lemma_summary(causes: Seq<CauseView>, total: nat)
    ensures
        causes.len() == 0 ==> text::occurs(
            investigate::summary_of(causes, total),
            "No tracked file changes"@,
        ),
        causes.len() > 0 ==> {
            let s = investigate::summary_of(causes, total);
            &&& text::dec(total).is_prefix_of(s)
            &&& text::occurs(s, "most relevant: "@ + causes[0].path + " "@)
            &&& text::occurs(s, "(relevance "@ + text::dec_signed(causes[0].score) + ")"@)
        },
{
    let s = investigate::summary_of(causes, total);
    let none = Seq::<char>::empty();
    if causes.len() == 0 {
        reveal_strlit("No tracked file changes");
        reveal_strlit("No tracked file changes between the last passing and failing runs.");
        let rest = s.skip("No tracked file changes"@.len() as int);
        assert(s =~= none + "No tracked file changes"@ + rest);
        text::lemma_occurs_within(none, "No tracked file changes"@, rest);
    } else {
        reveal_strlit(" changed file(s); most relevant: ");
        reveal_strlit(" changed file(s); ");
        reveal_strlit("most relevant: ");
        reveal_strlit(" (relevance ");
        reveal_strlit("(relevance ");
        reveal_strlit(" ");
        reveal_strlit(")");
        let n = text::dec(total);
        let path = causes[0].path;
        let num = text::dec_signed(causes[0].score);
        assert(s.subrange(0, n.len() as int) =~= n);
        let a = n + " changed file(s); "@;
        let t = "most relevant: "@ + path + " "@;
        let b = "(relevance "@ + num + ")"@;
        assert(s =~= a + t + b);
        text::lemma_occurs_within(a, t, b);
        assert(s =~= (a + t) + b + none);
        text::lemma_occurs_within(a + t, b, none);
    }
}

/// A run is investigated only if it failed, and then against a run that passed;
/// what is compared is the state after each of the two.
pub proof fn lemma_compared(failing: TestRun, passing: Option<&TestRun>)
    ensures
        investigate::compared(failing, passing) is Some <==> failing.passed == Some(false)
            && passing is Some && failing.post_snapshot_id is Some
            && passing->0.post_snapshot_id is Some,
        investigate::compared(failing, passing) matches Some(c) ==> {
            &&& Some(c.failing_post) == failing.post_snapshot_id
            &&& Some(c.passing_post) == passing->0.post_snapshot_id
            &&& c.failing_pre == failing.pre_snapshot_id
        },
{
}

/// A path had changed before the failing run exactly if there is a snapshot from
/// before it in which the path is new or differs, or from which it is gone
/// without having been renamed.
pub proof fn lemma_changed_before(
    failing: TestRun,
    passing_post: Seq<SnapshotFile>,
    failing_pre: Seq<SnapshotFile>,
    p: Seq<char>,
)
    ensures
        ({
            let old = snapshot::by_path(snapshot::file_views(passing_post));
            let new = snapshot::by_path(snapshot::file_views(failing_pre));
            let changed = investigate::changed_before(failing, passing_post, failing_pre).contains(p);
            &&& failing.pre_snapshot_id is None ==> !changed
            &&& failing.pre_snapshot_id is Some && new.contains_key(p) ==> (changed
                <==> !old.contains_key(p) || old[p].hash != new[p].hash)
            &&& failing.pre_snapshot_id is Some && !new.contains_key(p) && changed
                ==> old.contains_key(p)
            &&& failing.pre_snapshot_id is Some && old.contains_key(p) && !new.contains_key(p)
                && !changed ==> exists|to: Seq<char>| #[trigger]
                new.contains_key(to) && !old.contains_key(to) && new[to].hash == old[p].hash
        }),
{
    let old = snapshot::by_path(snapshot::file_views(passing_post));
    let new = snapshot::by_path(snapshot::file_views(failing_pre));
    if old.contains_key(p) && !new.contains_key(p) && diff::change_of(old, new, p) is None {
        let to = choose|to: Seq<char>| diff::is_rename(old, new, p, to);
        assert(new.contains_key(to));
    }
}

proof fn lemma_dependencies_listed(causes: Seq<CauseView>, i: int, k: int)
    requires
        0 <= i < causes.len(),
        0 <= k < causes[i].dependency_changes.len(),
    ensures
        investigate::all_dependencies(causes).contains(causes[i].dependency_changes[k]),
    decreases causes.len(),
{
    let before = investigate::all_dependencies(causes.drop_last());
    let last = causes.last().dependency_changes;
    if i == causes.len() - 1 {
        assert((before + last)[before.len() + k] == last[k]);
    } else {
        lemma_dependencies_listed(causes.drop_last(), i, k);
        let d = causes[i].dependency_changes[k];
        let j = choose|j: int| 0 <= j < before.len() && before[j] == d;
        assert((before + last)[j] == d);
    }
}

/// An investigation compares the two runs that it names, ranks every file that
/// changed between them, lists every version that changed in them, and keeps the
/// end of the failing output.
pub proof fn lemma_investigation(
    inv: Investigation,
    failing: TestRun,
    passing: TestRun,
    objects: Map<Seq<char>, Vec<u8>>,
    changes: Seq<ChangeView>,
    before: Set<Seq<char>>,
    output: Seq<char>,
    i: int,
    k: int,
) -> (j: int)
    requires
        investigate::investigates(inv, failing, passing, objects, changes, before, output),
    ensures
        inv.failing_test_run_id == failing.id,
        inv.passing_test_run_id == Some(passing.id),
        inv.related_command is Some && inv.related_command->0@ == failing.command@,
        inv.causes@.len() == changes.len(),
        0 <= i < changes.len() ==> {
            &&& 0 <= j < inv.causes@.len()
            &&& investigate::cause_views(inv.causes@)[j] == investigate::cause_of(
                objects,
                changes[i],
                before,
                output,
            )
            &&& inv.causes@[j].path@ == changes[i].path
            &&& 0 <= k < inv.causes@[j]@.dependency_changes.len() ==> exec::dependency_views(
                inv.dependency_changes@,
            ).contains(inv.causes@[j]@.dependency_changes[k])
        },
        text::lines_of(output).len() <= 60 ==> inv.failing_output_excerpt@ == text::joined(
            text::lines_of(output),
            "\n"@,
        ),
        text::lines_of(output).len() > 60 ==> inv.failing_output_excerpt@ == text::joined(
            text::lines_of(output).skip(text::lines_of(output).len() - 60),
            "\n"@,
        ),
{
    let all = investigate::causes_of(objects, changes, before, output);
    let causes = investigate::cause_views(inv.causes@);
    let lines = text::lines_of(output);
    causes.to_multiset_ensures();
    all.to_multiset_ensures();
    assert(causes.len() == all.len());
    if lines.len() <= 60 {
        let none = Seq::<Seq<char>>::empty();
        assert(none + lines =~= lines);
        lemma_tail(none, lines, 60);
    } else {
        let k = lines.len() - 60;
        assert(lines.take(k) + lines.skip(k) =~= lines);
        lemma_tail(lines.take(k), lines.skip(k), 60);
    }
    if 0 <= i < changes.len() {
        let c = all[i];
        assert(all.contains(c));
        assert(all.to_multiset().count(c) > 0);
        assert(causes.contains(c));
        let j = choose|j: int| 0 <= j < causes.len() && causes[j] == c;
        if 0 <= k < c.dependency_changes.len() {
            lemma_dependencies_listed(all, i, k);
        }
        j
    } else {
        0
    }
}

/// A log that was kept is read as text, and one that cannot be found is told
/// apart from a run that wrote none.
pub proof fn lemma_output(objects: Map<Seq<char>, Vec<u8>>, h: Seq<char>)
    ensures
        investigate::output_of(objects, None) == Some(Seq::<char>::empty()),
        objects.contains_key(h) ==> investigate::output_of(objects, Some(h)) == Some(
            text::lossy(objects[h]@),
        ),
        !objects.contains_key(h) ==> investigate::output_of(objects, Some(h)) is None,
{
}

/// The text of a manifest is its content, byte for byte, and empty where it has none.
pub proof fn lemma_manifest_text(objects: Map<Seq<char>, Vec<u8>>, h: Seq<char>, t: Seq<char>)
    ensures
        objects.contains_key(h) && objects[h]@ == encode_utf8(t) ==> investigate::manifest_text(
            objects,
            Some(h),
        ) == t,
        investigate::manifest_text(objects, None).len() == 0,
        !objects.contains_key(h) ==> investigate::manifest_text(objects, Some(h)).len() == 0,
{
    if objects.contains_key(h) && objects[h]@ == encode_utf8(t) {
        encode_utf8_valid_utf8(t);
        encode_utf8_decode_utf8(t);
    }
}

/// A line gives a version only of a package, and but for one that is pinned the
/// version begins with a digit behind the marks of a range.
pub proof fn lemma_version_form(line: Seq<char>)
    requires
        investigate::line_version(line) is Some,
    ensures
        ({
            let (n, v) = investigate::line_version(line)->0;
            &&& n.len() > 0
            &&& forall|i: int| 0 <= i < n.len() ==> is_package_char(#[trigger] n[i])
            &&& v.len() > 0
            &&& !text::occurs(text::trimmed(line), "=="@) ==> exists|k: int|
                0 <= k < v.len() && '0' <= #[trigger] v[k] && v[k] <= '9' && (forall|i: int|
                    0 <= i < k ==> is_range_mark(#[trigger] v[i]))
        }),
{
    reveal_strlit("^~><= ");
    let (n, v) = investigate::line_version(line)->0;
    assert(investigate::is_name(n));
    assert forall|i: int| 0 <= i < n.len() implies is_package_char(#[trigger] n[i]) by {
        assert(investigate::is_ident_char(n[i]));
    }
    if !text::occurs(text::trimmed(line), "=="@) {
        assert(investigate::is_version(v));
        let class = CharClass::AnyOf("^~><= ");
        let rest = text::strip_front(v, class);
        let w = text::lemma_stripped_front(v, class);
        let k = w.len() as int;
        assert(v[k] == rest[0]);
        assert forall|i: int| 0 <= i < k implies is_range_mark(#[trigger] v[i]) by {
            assert(v[i] == w[i]);
            assert(class.has_char(w[i]));
        }
    }
}

proof fn lemma_stack_words()
    ensures
        investigate::telling(true, "appears in a stack-trace line (+"@, weight::STACK_TRACE).len() == 1,
        "appears in a stack-trace line"@.is_prefix_of(
            investigate::telling(true, "appears in a stack-trace line (+"@, weight::STACK_TRACE)[0],
        ),
{
    reveal_strlit("appears in a stack-trace line (+");
    reveal_strlit("appears in a stack-trace line");
    lemma_begins_with(
        investigate::telling(true, "appears in a stack-trace line (+"@, weight::STACK_TRACE)[0],
        "appears in a stack-trace line"@,
    );
}

proof fn lemma_dependency_words()
    ensures
        investigate::telling(true, "dependency version changed (+"@, weight::DEPENDENCY).len() == 1,
        "dependency version changed"@.is_prefix_of(
            investigate::telling(true, "dependency version changed (+"@, weight::DEPENDENCY)[0],
        ),
{
    reveal_strlit("dependency version changed (+");
    reveal_strlit("dependency version changed");
    lemma_begins_with(
        investigate::telling(true, "dependency version changed (+"@, weight::DEPENDENCY)[0],
        "dependency version changed"@,
    );
}

proof fn lemma_change_words()
    ensures
        investigate::telling(true, "changed between the last pass and the failure (+"@, weight::CHANGED_PASS_TO_FAIL).len() == 1,
        "changed between"@.is_prefix_of(
            investigate::telling(true, "changed between the last pass and the failure (+"@, weight::CHANGED_PASS_TO_FAIL)[0],
        ),
{
    reveal_strlit("changed between the last pass and the failure (+");
    reveal_strlit("changed between");
    lemma_begins_with(
        investigate::telling(true, "changed between the last pass and the failure (+"@, weight::CHANGED_PASS_TO_FAIL)[0],
        "changed between"@,
    );
}

proof fn lemma_output_words()
    ensures
        investigate::telling(true, "path appears in failing output (+"@, weight::IN_OUTPUT).len() == 1,
        "path appears"@.is_prefix_of(
            investigate::telling(true, "path appears in failing output (+"@, weight::IN_OUTPUT)[0],
        ),
{
    reveal_strlit("path appears in failing output (+");
    reveal_strlit("path appears");
    lemma_begins_with(
        investigate::telling(true, "path appears in failing output (+"@, weight::IN_OUTPUT)[0],
        "path appears"@,
    );
}

proof fn lemma_generated_words()
    ensures
        investigate::telling(true, "looks generated or unrelated ("@, weight::GENERATED).len() == 1,
        "looks generated"@.is_prefix_of(
            investigate::telling(true, "looks generated or unrelated ("@, weight::GENERATED)[0],
        ),
{
    reveal_strlit("looks generated or unrelated (");
    reveal_strlit("looks generated");
    lemma_begins_with(
        investigate::telling(true, "looks generated or unrelated ("@, weight::GENERATED)[0],
        "looks generated"@,
    );
}

proof fn lemma_six(
    a: Seq<Seq<char>>,
    b: Seq<Seq<char>>,
    c: Seq<Seq<char>>,
    d: Seq<Seq<char>>,
    e: Seq<Seq<char>>,
    f: Seq<Seq<char>>,
)
    ensures
        ({
            let none = Seq::<Seq<char>>::empty();
            let all = a + b + c + d + e + f;
            &&& a.len() == 1 ==> all[0] == a[0] && all.drop_first() == none + b + c + d + e + f
            &&& a.len() == 0 && b.len() == 1 ==> all[0] == b[0] && all.drop_first() == a + none + c
                + d + e + f
            &&& a.len() == 0 && b.len() == 0 && c.len() == 1 ==> all[0] == c[0]
                && all.drop_first() == a + b + none + d + e + f
            &&& a.len() == 0 && b.len() == 0 && c.len() == 0 && d.len() == 1 ==> all[0] == d[0]
                && all.drop_first() == a + b + c + none + e + f
            &&& f.len() == 1 ==> all.last() == f[0]
        }),
{
    let none = Seq::<Seq<char>>::empty();
    let all = a + b + c + d + e + f;
    if a.len() == 1 {
        assert(all.drop_first() =~= none + b + c + d + e + f);
    } else if a.len() == 0 && b.len() == 1 {
        assert(all.drop_first() =~= a + none + c + d + e + f);
    } else if a.len() == 0 && b.len() == 0 && c.len() == 1 {
        assert(all.drop_first() =~= a + b + none + d + e + f);
    } else if a.len() == 0 && b.len() == 0 && c.len() == 0 && d.len() == 1 {
        assert(all.drop_first() =~= a + b + c + none + e + f);
    }
}

/// What speaks for a cause is told in order: the trace, the versions, the change, the
/// output, the time of the change, and last that it looks generated.
pub proof fn lemma_evidence_in_order(s: CauseSignals)
    ensures
        s.in_stack_trace ==> {
            &&& investigate::evidence_of(s).drop_first() == investigate::evidence_of(
                CauseSignals { in_stack_trace: false, ..s },
            )
            &&& "appears in a stack-trace line"@.is_prefix_of(investigate::evidence_of(s)[0])
        },
        !s.in_stack_trace && s.dependency_changed ==> {
            &&& investigate::evidence_of(s).drop_first() == investigate::evidence_of(
                CauseSignals { dependency_changed: false, ..s },
            )
            &&& "dependency version changed"@.is_prefix_of(investigate::evidence_of(s)[0])
        },
        !s.in_stack_trace && !s.dependency_changed && s.changed_between_pass_and_fail ==> {
            &&& investigate::evidence_of(s).drop_first() == investigate::evidence_of(
                CauseSignals { changed_between_pass_and_fail: false, ..s },
            )
            &&& "changed between"@.is_prefix_of(investigate::evidence_of(s)[0])
        },
        !s.in_stack_trace && !s.dependency_changed && !s.changed_between_pass_and_fail
            && s.in_failing_output ==> {
            &&& investigate::evidence_of(s).drop_first() == investigate::evidence_of(
                CauseSignals { in_failing_output: false, ..s },
            )
            &&& "path appears"@.is_prefix_of(investigate::evidence_of(s)[0])
        },
        s.generated_or_unrelated ==> "looks generated"@.is_prefix_of(
            investigate::evidence_of(s).last(),
        ),
{
    let a = investigate::telling(
        s.in_stack_trace,
        "appears in a stack-trace line (+"@,
        weight::STACK_TRACE,
    );
    let b = investigate::telling(
        s.dependency_changed,
        "dependency version changed (+"@,
        weight::DEPENDENCY,
    );
    let c = investigate::telling(
        s.changed_between_pass_and_fail,
        "changed between the last pass and the failure (+"@,
        weight::CHANGED_PASS_TO_FAIL,
    );
    let d = investigate::telling(
        s.in_failing_output,
        "path appears in failing output (+"@,
        weight::IN_OUTPUT,
    );
    let e = investigate::telling(
        s.changed_before_failure,
        "changed immediately before the failing run (+"@,
        weight::CHANGED_BEFORE,
    );
    let f = investigate::telling(
        s.generated_or_unrelated,
        "looks generated or unrelated ("@,
        weight::GENERATED,
    );
    lemma_six(a, b, c, d, e, f);
    if s.in_stack_trace {
        lemma_stack_words();
    } else if s.dependency_changed {
        lemma_dependency_words();
    } else if s.changed_between_pass_and_fail {
        lemma_change_words();
    } else if s.in_failing_output {
        lemma_output_words();
    }
    if s.generated_or_unrelated {
        lemma_generated_words();
    }
}

proof fn lemma_begins_with(s: Seq<char>, t: Seq<char>)
    requires
        t.len() <= s.len(),
        forall|i: int| 0 <= i < t.len() ==> s[i] == t[i],
    ensures
        t.is_prefix_of(s),
{
    assert(s.subrange(0, t.len() as int) =~= t);
}

} // verus!
