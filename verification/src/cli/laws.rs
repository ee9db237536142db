//! Laws of what the command line tells.

use vstd::prelude::*;

use crate::cli;
use crate::diff;
use crate::diff::ChangeView;
use crate::error::ErrorView;
use crate::exec::CommandOutcome;
use crate::investigate::CauseView;
use crate::models::Snapshot;
use crate::restore::PlanView;
use crate::text;
use crate::util;

verus! {

/// Only being outside a repository is told in other words. Every other error
/// stays what it is.
pub proof fn lemma_opening_error(e: ErrorView)
    ensures
        !(e is NotAGitRepo) ==> cli::opening_error(e) == e,
        e is NotAGitRepo ==> (cli::opening_error(e) matches ErrorView::Other(m) && text::occurs(
            m,
            "not inside a Git repository"@,
        )),
{
    if e is NotAGitRepo {
        reveal_strlit(
            "not inside a Git repository.\n  Run `rewind init --git` here to create one, or `cd` into an existing repository.",
        );
        reveal_strlit("not inside a Git repository");
        let m =
            "not inside a Git repository.\n  Run `rewind init --git` here to create one, or `cd` into an existing repository."@;
        let t = "not inside a Git repository"@;
        assert(m.subrange(0, t.len() as int) =~= t);
        assert(text::occurs_at(m, t, 0));
    }
}

/// Each kind of project has its test command. Where there are several, the order
/// is Rust, Node, Python, Go, Ruby, make, and a project without any of their
/// files has none.
pub proof fn lemma_test_commands(present: Set<Seq<char>>)
    ensures
        ({
            let c = cli::usual_test_command(present);
            let rust = present.contains("Cargo.toml"@);
            let node = present.contains("package.json"@);
            let python = present.contains("pyproject.toml"@) || present.contains("pytest.ini"@)
                || present.contains("tox.ini"@);
            let go = present.contains("go.mod"@);
            let ruby = present.contains("Gemfile"@);
            let make = present.contains("Makefile"@);
            &&& c == Some("cargo test"@) <==> rust
            &&& c == Some("npm test"@) <==> node && !rust
            &&& c == Some("pytest"@) <==> python && !rust && !node
            &&& c == Some("go test ./..."@) <==> go && !rust && !node && !python
            &&& c == Some("bundle exec rake test"@) <==> ruby && !rust && !node && !python && !go
            &&& c == Some("make test"@) <==> make && !rust && !node && !python && !go && !ruby
            &&& c is None <==> forall|i: int|
                0 <= i < cli::project_files().len() ==> !present.contains(
                    #[trigger] cli::project_files()[i],
                )
        }),
{
    reveal_strlit("cargo test");
    reveal_strlit("npm test");
    reveal_strlit("pytest");
    reveal_strlit("go test ./...");
    reveal_strlit("bundle exec rake test");
    reveal_strlit("make test");
    assert("cargo test"@[0] == 'c' && "npm test"@[0] == 'n' && "pytest"@[0] == 'p');
    assert("go test ./..."@[0] == 'g' && "bundle exec rake test"@[0] == 'b');
    assert("make test"@[0] == 'm');
    let f = cli::project_files();
    assert(f[0] == "Cargo.toml"@ && f[1] == "package.json"@ && f[2] == "pyproject.toml"@);
    assert(f[3] == "pytest.ini"@ && f[4] == "tox.ini"@ && f[5] == "go.mod"@);
    assert(f[6] == "Gemfile"@ && f[7] == "Makefile"@);
}

/// The words on how a run ended.
pub proof fn lemma_endings(outcome: CommandOutcome)
    ensures
        cli::ending(outcome) == "ok"@ <==> outcome.exit_code == Some(0i32) && !outcome.cancelled
            && !outcome.timed_out,
        outcome.cancelled ==> cli::ending(outcome) == "cancelled"@,
        outcome.timed_out && !outcome.cancelled ==> cli::ending(outcome) == "timed out"@,
        !outcome.cancelled && !outcome.timed_out ==> {
            &&& outcome.exit_code is Some && outcome.exit_code != Some(0i32) ==> cli::ending(outcome)
                == "exit "@ + text::dec_signed(outcome.exit_code->0 as int)
            &&& outcome.exit_code is None ==> cli::ending(outcome) == "killed"@
        },
{
    reveal_strlit("ok");
    reveal_strlit("cancelled");
    reveal_strlit("timed out");
    reveal_strlit("exit ");
    reveal_strlit("killed");
    assert("ok"@[0] == 'o' && "cancelled"@[0] == 'c' && "timed out"@[0] == 't');
    assert("killed"@[0] == 'k');
    if !outcome.cancelled && !outcome.timed_out && outcome.exit_code is Some {
        let s = "exit "@ + text::dec_signed(outcome.exit_code->0 as int);
        assert(s[0] == 'e');
    }
}

proof fn lemma_has_push(a: Seq<Seq<char>>, x: Seq<char>, b: Seq<Seq<char>>)
    ensures
        (a.push(x) + b).contains(x),
{
    assert((a.push(x) + b)[a.len() as int] == x);
}

proof fn lemma_has_front(a: Seq<Seq<char>>, b: Seq<Seq<char>>, x: Seq<char>)
    requires
        a.contains(x),
    ensures
        (a + b).contains(x),
{
    let k = choose|k: int| 0 <= k < a.len() && a[k] == x;
    assert((a + b)[k] == x);
}

proof fn lemma_has_back(a: Seq<Seq<char>>, b: Seq<Seq<char>>, k: int)
    requires
        0 <= k < b.len(),
    ensures
        (a + b).contains(b[k]),
{
    assert((a + b)[a.len() + k] == b[k]);
}

/// Each cause of a ranking has its line, with its place, its path and its score,
/// and each thing that speaks for it has one too.
pub proof fn lemma_ranking_shows(causes: Seq<CauseView>, i: int, k: int)
    requires
        0 <= i < causes.len(),
    ensures
        cli::ranking_lines(causes).contains(
            "  "@ + text::dec((i + 1) as nat) + ". "@ + causes[i].path + " — relevance "@
                + text::dec_signed(causes[i].score),
        ),
        0 <= k < causes[i].evidence.len() ==> cli::ranking_lines(causes).contains(
            "       - "@ + causes[i].evidence[k],
        ),
    decreases causes.len(),
{
    let front = causes.drop_last();
    let before = cli::ranking_lines(front);
    let line = cli::cause_line(causes.len(), causes.last());
    let told = cli::evidence_lines(causes.last().evidence);
    if i == causes.len() - 1 {
        lemma_has_push(before, line, told);
        if 0 <= k < causes[i].evidence.len() {
            lemma_has_back(before.push(line), told, k);
        }
    } else {
        lemma_ranking_shows(front, i, k);
        let want = "  "@ + text::dec((i + 1) as nat) + ". "@ + causes[i].path + " — relevance "@
            + text::dec_signed(causes[i].score);
        assert(before.push(line) =~= before + seq![line]);
        lemma_has_front(before, seq![line], want);
        lemma_has_front(before.push(line), told, want);
        if 0 <= k < causes[i].evidence.len() {
            let e = "       - "@ + causes[i].evidence[k];
            lemma_has_front(before, seq![line], e);
            lemma_has_front(before.push(line), told, e);
        }
    }
}

/// Each change of a comparison has its line, with its letter, its path and its
/// line counts. With patches, each line of the patch of a change between texts
/// stands there too, set in.
pub proof fn lemma_listing_shows(
    objects: Map<Seq<char>, Vec<u8>>,
    changes: Seq<ChangeView>,
    patch: bool,
    i: int,
    k: int,
)
    requires
        0 <= i < changes.len(),
    ensures
        ({
            let c = changes[i];
            let counts = diff::change_counts(objects, c);
            cli::listing(objects, changes, patch).contains(
                "  "@ + seq![diff::status_letter(c.status)] + " "@ + c.path + "  (+"@ + text::dec(
                    counts.0,
                ) + " -"@ + text::dec(counts.1) + ")"@,
            )
        }),
        patch ==> match (
            diff::side_text(objects, changes[i].old_hash),
            diff::side_text(objects, changes[i].new_hash),
        ) {
            (Some(old), Some(new)) => {
                let lines = text::lines_of(diff::patch_of(changes[i].path, old, new));
                0 <= k < lines.len() ==> cli::listing(objects, changes, patch).contains(
                    "    "@ + lines[k],
                )
            },
            _ => true,
        },
    decreases changes.len(),
{
    let c = changes[i];
    let counts = diff::change_counts(objects, c);
    let front = changes.drop_last();
    let before = cli::listing(objects, front, patch);
    let line = cli::change_line(objects, changes.last());
    let tail = if patch {
        cli::patch_lines(objects, changes.last())
    } else {
        Seq::empty()
    };
    let want = cli::change_line(objects, c);
    assert("  "@.push(diff::status_letter(c.status)) =~= "  "@ + seq![
        diff::status_letter(c.status),
    ]);
    if i == changes.len() - 1 {
        lemma_has_push(before, line, tail);
        if patch {
            if let (Some(old), Some(new)) = (
                diff::side_text(objects, c.old_hash),
                diff::side_text(objects, c.new_hash),
            ) {
                let lines = text::lines_of(diff::patch_of(c.path, old, new));
                if 0 <= k < lines.len() {
                    lemma_has_back(before.push(line), tail, k);
                }
            }
        }
    } else {
        lemma_listing_shows(objects, front, patch, i, k);
        assert(before.push(line) =~= before + seq![line]);
        lemma_has_front(before, seq![line], want);
        lemma_has_front(before.push(line), tail, want);
        if patch {
            if let (Some(old), Some(new)) = (
                diff::side_text(objects, c.old_hash),
                diff::side_text(objects, c.new_hash),
            ) {
                let lines = text::lines_of(diff::patch_of(c.path, old, new));
                if 0 <= k < lines.len() {
                    lemma_has_front(before, seq![line], "    "@ + lines[k]);
                    lemma_has_front(before.push(line), tail, "    "@ + lines[k]);
                }
            }
        }
    }
}

/// Without patches a comparison has one line for each change.
pub proof fn lemma_listing_is_short(objects: Map<Seq<char>, Vec<u8>>, changes: Seq<ChangeView>)
    ensures
        cli::listing(objects, changes, false).len() == changes.len(),
    decreases changes.len(),
{
    if changes.len() > 0 {
        lemma_listing_is_short(objects, changes.drop_last());
    }
}

/// A plan is told path by path, each with what will happen to it, and in numbers.
pub proof fn lemma_plan_told(id: int, plan: PlanView, i: int)
    ensures
        ({
            let lines = cli::plan_text(id, plan);
            &&& lines.len() == plan.create.len() + plan.overwrite.len() + plan.delete.len() + 2
            &&& lines[0] == "Restore plan (snapshot #"@ + text::dec_signed(id) + "):"@
            &&& 0 <= i < plan.create.len() ==> lines.contains("  create    "@ + plan.create[i].path)
            &&& 0 <= i < plan.overwrite.len() ==> lines.contains(
                "  overwrite "@ + plan.overwrite[i].path,
            )
            &&& 0 <= i < plan.delete.len() ==> lines.contains("  delete    "@ + plan.delete[i])
            &&& lines.last() == "  "@ + text::dec(plan.create.len() + plan.overwrite.len())
                + " file(s) to write, "@ + text::dec(plan.delete.len()) + " to delete"@
        }),
{
    let lines = cli::plan_text(id, plan);
    let c = plan.create.len() as int;
    let o = plan.overwrite.len() as int;
    if 0 <= i < c {
        assert(lines[1 + i] == "  create    "@ + plan.create[i].path);
    }
    if 0 <= i < o {
        assert(lines[1 + c + i] == "  overwrite "@ + plan.overwrite[i].path);
    }
    if 0 <= i < plan.delete.len() {
        assert(lines[1 + c + o + i] == "  delete    "@ + plan.delete[i]);
    }
}

/// The line of a snapshot names its number, its kind, its time and the number of
/// its files.
pub proof fn lemma_snapshot_line(s: Snapshot)
    ensures
        ({
            let line = cli::snapshot_line(s);
            &&& ("  #"@ + text::dec_signed(s.id as int)).is_prefix_of(line)
            &&& text::occurs(line, s.kind@)
            &&& text::occurs(line, util::timestamp_text(s.created_at as int))
            &&& ("("@ + text::dec_signed(s.file_count as int) + " files)"@).is_suffix_of(line)
        }),
{
    let line = cli::snapshot_line(s);
    let id = text::dec_signed(s.id as int);
    let a = "  #"@ + text::padded(id, 4) + " "@;
    let kind = text::padded(s.kind@, 14);
    let t = util::timestamp_text(s.created_at as int);
    let n = text::dec_signed(s.file_count as int);
    let end = "("@ + n + " files)"@;
    reveal_strlit("  (");
    reveal_strlit("(");
    reveal_strlit("  ");
    assert("  ("@ =~= "  "@ + "("@);
    text::laws::lemma_padded(id, 4, 0);
    text::laws::lemma_padded(s.kind@, 14, 0);
    let head = "  #"@ + id;
    assert(line.subrange(0, head.len() as int) =~= head) by {
        assert(text::padded(id, 4).subrange(0, id.len() as int) =~= id);
        assert(forall|k: int| 0 <= k < id.len() ==> text::padded(id, 4)[k] == id[k]) by {
            assert forall|k: int| 0 <= k < id.len() implies text::padded(id, 4)[k] == id[k] by {
                assert(text::padded(id, 4).subrange(0, id.len() as int)[k] == id[k]);
            }
        }
    }
    let kind_rest = kind.skip(s.kind@.len() as int);
    assert(kind =~= s.kind@ + kind_rest);
    let after_kind = kind_rest + " "@ + t + "  "@ + end;
    assert(line =~= a + s.kind@ + after_kind);
    text::lemma_occurs_within(a, s.kind@, after_kind);
    assert(line =~= (a + kind + " "@) + t + ("  "@ + end));
    text::lemma_occurs_within(a + kind + " "@, t, "  "@ + end);
    assert(line.subrange(line.len() - end.len(), line.len() as int) =~= end);
}

/// The last test run is told by its result, and by a word of its own where there
/// is none.
pub proof fn lemma_verdict_words()
    ensures
        cli::verdict_word(Some(Some(true))) == "passed"@,
        cli::verdict_word(Some(Some(false))) == "failed"@,
        cli::verdict_word(Some(None)) == "incomplete"@,
        cli::verdict_word(None) == "none yet"@,
{
}

/// Being outside a repository comes with a hint, and any other error with its
/// message.
pub proof fn lemma_no_repository(dir: Seq<char>, e: ErrorView)
    ensures
        ({
            let lines = cli::no_repository_text(dir, e);
            &&& e is NotAGitRepo ==> lines.len() == 2 && text::occurs(lines[0], dir)
            &&& !(e is NotAGitRepo) ==> lines.len() == 1 && text::occurs(
                lines[0],
                crate::error::error_message(e),
            )
        }),
{
    if e is NotAGitRepo {
        text::lemma_occurs_within("  repository:   NOT a Git repository ("@, dir, ")"@);
    } else {
        let m = crate::error::error_message(e);
        let head = "  repository:   error: "@;
        assert(head + m =~= head + m + Seq::<char>::empty());
        text::lemma_occurs_within(head, m, Seq::<char>::empty());
    }
}

/// A command that passed exits with 0, and one that did not is never told as
/// having passed: its own code is handed on where it fits.
pub proof fn lemma_exit_codes(code: Option<i32>, passed: bool, r: u8)
    requires
        call_ensures(cli::exit_from_code, (code, passed), r),
    ensures
        passed ==> r == 0,
        !passed && code != Some(0i32) ==> r != 0,
        !passed && code is Some && 0 <= code->0 <= 255 ==> r == code->0,
        !passed && code is Some && code->0 > 255 ==> r == 255,
        !passed && code is Some && code->0 < 0 ==> r == 1,
        !passed && code is None ==> r == 1,
{
}

/// Causes and changes are listed in order: what is listed of the first ones stands
/// before what is listed of one more.
pub proof fn lemma_listed_in_order(
    causes: Seq<CauseView>,
    c: CauseView,
    objects: Map<Seq<char>, Vec<u8>>,
    changes: Seq<ChangeView>,
    change: ChangeView,
    patch: bool,
)
    ensures
        cli::ranking_lines(causes).is_prefix_of(cli::ranking_lines(causes.push(c))),
        cli::ranking_lines(causes.push(c)).len() == cli::ranking_lines(causes).len() + 1
            + c.evidence.len(),
        cli::listing(objects, changes, patch).is_prefix_of(
            cli::listing(objects, changes.push(change), patch),
        ),
{
    assert(causes.push(c).drop_last() =~= causes);
    assert(changes.push(change).drop_last() =~= changes);
    let a = cli::ranking_lines(causes);
    let b = cli::ranking_lines(causes.push(c));
    assert(b.subrange(0, a.len() as int) =~= a);
    let x = cli::listing(objects, changes, patch);
    let y = cli::listing(objects, changes.push(change), patch);
    assert(y.subrange(0, x.len() as int) =~= x);
}

} // verus!
