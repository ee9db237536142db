//! Laws of the interactive interface.

use vstd::prelude::*;

use crate::ci;
use crate::cli;
use crate::diff;
use crate::diff::ChangeView;
use crate::investigate;
use crate::investigate::CauseView;
use crate::investigate::Investigation;
use crate::models::Event;
use crate::models::Snapshot;
use crate::models::TestRun;
use crate::paths;
use crate::restore::PlanView;
use crate::text;
use crate::tui::app;
use crate::tui::app::ActionView;
use crate::tui::app::AppView;
use crate::tui::app::Focus;
use crate::tui::app::Mode;
use crate::tui::capture;
use crate::tui::capture::HookView;
use crate::tui::detail;
use crate::tui::detail::RequestView;
use crate::tui::keys;
use crate::tui::keys::Key;
use crate::tui::keys::KeyPress;
use crate::tui::ui;
use crate::tui::ui::Area;
use crate::tui::ui::Panes;
use crate::util;

verus! {

// ---------------------------------------------------------------------------
// Keys
// ---------------------------------------------------------------------------

/// A key without modifiers.
pub open spec fn bare(k: Key) -> KeyPress {
    KeyPress { key: k, ctrl: false, alt: false }
}

/// The interface in navigation mode, with nothing over the timeline.
pub open spec fn navigates(s: AppView) -> bool {
    s.mode == Mode::Nav && s.overlay is Closed
}

/// Down and up move the selection by one where there is an event to move to, and
/// undo each other there. The first and the last event are one key away.
pub proof fn lemma_selection_moves(s: AppView, has_test: bool)
    requires
        navigates(s),
        s.well_formed(),
        s.focus == Focus::Timeline,
    ensures
        ({
            let down = app::key_pressed(s, bare(Key::Char('j')), has_test);
            let up = app::key_pressed(s, bare(Key::Char('k')), has_test);
            let back = app::key_pressed(down.0, bare(Key::Char('k')), has_test);
            let first = app::key_pressed(s, bare(Key::Char('g')), has_test);
            let last = app::key_pressed(s, bare(Key::Char('G')), has_test);
            &&& s.selected + 1 < s.events.len() ==> down.0.selected == s.selected + 1 && back.0 == s
            &&& s.selected + 1 >= s.events.len() ==> down.0 == s
            &&& s.selected > 0 ==> up.0.selected == s.selected - 1
            &&& s.selected == 0 ==> up.0 == s
            &&& first.0.selected == 0
            &&& s.events.len() > 0 ==> last.0.selected == s.events.len() - 1
            &&& app::key_pressed(s, bare(Key::Down), has_test) == down
            &&& app::key_pressed(s, bare(Key::Up), has_test) == up
            &&& down.1 is ShowDetail && up.1 is ShowDetail && first.1 is ShowDetail
                && last.1 is ShowDetail
        }),
{
}

/// With the focus on the detail, down and up scroll it by one line and leave the
/// selection alone.
pub proof fn lemma_detail_scrolls(s: AppView, has_test: bool)
    requires
        navigates(s),
        s.focus == Focus::Detail,
        0 <= s.detail.scroll < u16::MAX,
    ensures
        ({
            let down = app::key_pressed(s, bare(Key::Char('j')), has_test);
            let up = app::key_pressed(down.0, bare(Key::Char('k')), has_test);
            &&& down.0.detail.scroll == s.detail.scroll + 1
            &&& down.0.detail.lines == s.detail.lines
            &&& down.0.selected == s.selected
            &&& down.1 is Nothing
            &&& up.0 == s
            &&& s.detail.scroll == 0 ==> app::key_pressed(s, bare(Key::Char('k')), has_test).0 == s
        }),
{
}

/// What each key of the timeline is for.
pub proof fn lemma_key_actions(s: AppView, has_test: bool)
    requires
        navigates(s),
    ensures
        app::key_pressed(s, bare(Key::Char('c')), has_test) == (s, ActionView::Checkpoint),
        app::key_pressed(s, bare(Key::Char('u')), has_test) == (s, ActionView::Undo),
        app::key_pressed(s, bare(Key::Char('q')), has_test).0.should_quit,
        app::key_pressed(s, bare(Key::Char('?')), has_test).0.overlay is Help,
        app::key_pressed(s, bare(Key::Char('/')), has_test).0.overlay is Search,
        app::key_pressed(s, bare(Key::Char('/')), has_test).0.search_input.len() == 0,
        app::key_pressed(s, bare(Key::Char('t')), has_test).1 is Test <==> has_test,
        !has_test ==> app::key_pressed(s, bare(Key::Char('t')), has_test).0.overlay is Message,
        app::key_pressed(s, bare(Key::Enter), has_test).1 is ShowDetail,
        app::key_pressed(s, bare(Key::Enter), has_test).0.focus == Focus::Detail,
        app::key_pressed(s, bare(Key::Tab), has_test).0.focus != s.focus,
        app::key_pressed(
            app::key_pressed(s, bare(Key::Tab), has_test).0,
            bare(Key::Tab),
            has_test,
        ).0 == s,
{
}

/// A restore is planned for the snapshot that is selected, and for nothing else.
pub proof fn lemma_restore_key(s: AppView, has_test: bool)
    requires
        navigates(s),
    ensures
        ({
            let r = app::key_pressed(s, bare(Key::Char('r')), has_test);
            &&& r.1 is PlanRestore ==> {
                &&& s.selected_event() matches Some(e)
                &&& e.kind@ == "snapshot"@ || e.kind@ == "checkpoint"@
                &&& e.ref_id matches Some(id)
                &&& r.1 == ActionView::PlanRestore(id as int)
            }
            &&& s.selected_event() matches Some(e) ==> ((e.kind@ == "snapshot"@ || e.kind@
                == "checkpoint"@) && e.ref_id is Some ==> r.1 is PlanRestore)
            &&& r.0.events == s.events && r.0.selected == s.selected
        }),
{
}

/// The answer to the question whether to restore closes it. Only a yes restores,
/// and what it restores is what was planned.
pub proof fn lemma_answer_closes(s: AppView, k: Key, has_test: bool)
    requires
        s.mode == Mode::Nav,
        s.overlay is ConfirmRestore,
    ensures
        ({
            let r = app::key_pressed(s, bare(k), has_test);
            &&& r.0.overlay is Closed
            &&& r.0.pending_restore is None
            &&& k == Key::Char('y') || k == Key::Char('Y') ==> (s.pending_restore matches Some(
                (id, plan),
            ) ==> r.1 == ActionView::Restore(id, plan))
            &&& k != Key::Char('y') && k != Key::Char('Y') ==> r.1 is Nothing
        }),
{
}

/// A search is for what has been typed, without the space around it, and an empty
/// one finds nothing.
pub proof fn lemma_search_keys(s: AppView, c: char, has_test: bool)
    requires
        s.mode == Mode::Nav,
        s.overlay is Search,
    ensures
        ({
            let typed = app::key_pressed(s, bare(Key::Char(c)), has_test);
            let erased = app::key_pressed(typed.0, bare(Key::Backspace), has_test);
            let left = app::key_pressed(s, bare(Key::Esc), has_test);
            let ran = app::key_pressed(s, bare(Key::Enter), has_test);
            &&& typed.0.search_input == s.search_input.push(c)
            &&& text::trimmed(s.search_input.push(c)).len() > 0 ==> typed.1 == ActionView::Search(
                text::trimmed(s.search_input.push(c)),
            )
            &&& text::trimmed(s.search_input.push(c)).len() == 0 ==> typed.1 is Nothing
                && typed.0.search_results.len() == 0
            &&& erased.0.search_input == s.search_input
            &&& left.0.overlay is Closed && left.0.search_input.len() == 0
                && left.0.search_results.len() == 0 && left.1 is Nothing
            &&& text::trimmed(s.search_input).len() > 0 ==> ran == (
                s,
                ActionView::Search(text::trimmed(s.search_input)),
            )
        }),
{
    assert(s.search_input.push(c).drop_last() =~= s.search_input);
}

/// A paste goes to the shell as it is, to the search behind what was typed, and
/// nowhere else.
pub proof fn lemma_paste(s: AppView, t: Seq<char>)
    ensures
        s.mode == Mode::Shell ==> app::pasted(s, t) == (
            s,
            ActionView::Send(vstd::utf8::encode_utf8(t)),
        ),
        s.mode == Mode::Nav && s.overlay is Search ==> app::pasted(s, t).0.search_input
            == s.search_input + t,
        s.mode == Mode::Nav && !(s.overlay is Search) ==> app::pasted(s, t) == (
            s,
            ActionView::Nothing,
        ),
{
}

/// New events replace the old ones and keep the selection where it is, or at the
/// last event if there are fewer now.
pub proof fn lemma_refresh(s: AppView, events: Seq<Event>, run: Option<TestRun>)
    requires
        s.well_formed(),
    ensures
        ({
            let r = app::refreshed(s, events, run);
            &&& r.well_formed()
            &&& r.events == events
            &&& s.selected < events.len() ==> r.selected == s.selected
            &&& events.len() > 0 && s.selected >= events.len() ==> r.selected == events.len() - 1
            &&& r.mode == s.mode && r.focus == s.focus && r.overlay == s.overlay
        }),
{
}

/// The words on the last test run.
pub proof fn lemma_last_test_words(run: TestRun)
    ensures
        app::last_test_word(None) == "none"@,
        run.cancelled ==> app::last_test_word(Some(run)) == "cancelled"@,
        !run.cancelled && run.passed == Some(true) ==> app::last_test_word(Some(run)) == "passed"@,
        !run.cancelled && run.passed == Some(false) ==> app::last_test_word(Some(run)) == "failed"@,
        !run.cancelled && run.passed is None ==> app::last_test_word(Some(run)) == "incomplete"@,
{
}

// ---------------------------------------------------------------------------
// Bytes
// ---------------------------------------------------------------------------

/// A character goes to the shell in UTF-8, a letter with control as its number in
/// the alphabet whichever its case, and Alt puts an escape in front.
pub proof fn lemma_key_bytes(c: char, k: Key, ctrl: bool)
    ensures
        keys::bytes_for(bare(Key::Char(c))) == Some(vstd::utf8::encode_utf8(seq![c])),
        'a' <= c && c <= 'z' ==> keys::bytes_for(
            KeyPress { key: Key::Char(c), ctrl: true, alt: false },
        ) == Some(seq![(c as u8 - 96) as u8]),
        'A' <= c && c <= 'Z' ==> keys::bytes_for(
            KeyPress { key: Key::Char(c), ctrl: true, alt: false },
        ) == Some(seq![(c as u8 - 64) as u8]),
        match keys::bytes_for(KeyPress { key: k, ctrl, alt: false }) {
            Some(b) => keys::bytes_for(KeyPress { key: k, ctrl, alt: true }) == Some(
                seq![0x1bu8] + b,
            ),
            None => keys::bytes_for(KeyPress { key: k, ctrl, alt: true }) is None,
        },
{
}

/// The keys that move send the escape sequences of a terminal: an escape, a
/// bracket and a letter of their own.
pub proof fn lemma_cursor_keys()
    ensures
        keys::bytes_for(bare(Key::Enter)) == Some(seq![13u8]),
        keys::bytes_for(bare(Key::Tab)) == Some(seq![9u8]),
        keys::bytes_for(bare(Key::Backspace)) == Some(seq![127u8]),
        keys::bytes_for(bare(Key::Esc)) == Some(seq![27u8]),
        keys::bytes_for(bare(Key::Up)) == Some(seq![27u8, 91u8, 65u8]),
        keys::bytes_for(bare(Key::Down)) == Some(seq![27u8, 91u8, 66u8]),
        keys::bytes_for(bare(Key::Right)) == Some(seq![27u8, 91u8, 67u8]),
        keys::bytes_for(bare(Key::Left)) == Some(seq![27u8, 91u8, 68u8]),
        keys::bytes_for(bare(Key::Home)) == Some(seq![27u8, 91u8, 72u8]),
        keys::bytes_for(bare(Key::End)) == Some(seq![27u8, 91u8, 70u8]),
        keys::bytes_for(bare(Key::BackTab)) == Some(seq![27u8, 91u8, 90u8]),
        keys::bytes_for(bare(Key::Insert)) == Some(seq![27u8, 91u8, 50u8, 126u8]),
        keys::bytes_for(bare(Key::Delete)) == Some(seq![27u8, 91u8, 51u8, 126u8]),
        keys::bytes_for(bare(Key::PageUp)) == Some(seq![27u8, 91u8, 53u8, 126u8]),
        keys::bytes_for(bare(Key::PageDown)) == Some(seq![27u8, 91u8, 54u8, 126u8]),
{
}

/// There are twelve function keys. The first four send the letters from P on, and
/// no two send the same.
pub proof fn lemma_function_keys(n: u8, m: u8)
    ensures
        keys::bytes_for(bare(Key::Function(n))) is Some <==> 1 <= n <= 12,
        1 <= n <= 4 ==> keys::bytes_for(bare(Key::Function(n))) == Some(
            seq![27u8, 79u8, (79 + n) as u8],
        ),
        5 <= n <= 12 ==> {
            let b = keys::bytes_for(bare(Key::Function(n)))->0;
            &&& b.len() == 5
            &&& b[0] == 27 && b[1] == 91 && b[4] == 126
            &&& (b[2] - 48) * 10 + (b[3] - 48) == if n == 5 {
                15int
            } else if n <= 10 {
                n + 11
            } else {
                n + 12
            }
        },
        1 <= n <= 12 && 1 <= m <= 12 && n != m ==> keys::bytes_for(bare(Key::Function(n)))
            != keys::bytes_for(bare(Key::Function(m))),
{
    lemma_function_sequence(n);
    lemma_function_sequence(m);
}

proof fn lemma_function_sequence(n: u8)
    ensures
        keys::bytes_for(bare(Key::Function(n))) is Some <==> 1 <= n <= 12,
        1 <= n <= 4 ==> keys::bytes_for(bare(Key::Function(n))) == Some(
            seq![27u8, 79u8, (79 + n) as u8],
        ),
        5 <= n <= 12 ==> {
            let b = keys::bytes_for(bare(Key::Function(n)))->0;
            &&& b.len() == 5
            &&& b[0] == 27 && b[1] == 91 && b[4] == 126
            &&& (b[2] - 48) * 10 + (b[3] - 48) == if n == 5 {
                15int
            } else if n <= 10 {
                n + 11
            } else {
                n + 12
            }
        },
        1 <= n <= 4 ==> keys::bytes_for(bare(Key::Function(n)))->0.len() == 3
            && keys::bytes_for(bare(Key::Function(n)))->0[2] == 79 + n,
{
}

/// Commands are captured in bash and in zsh, wherever they are installed.
pub proof fn lemma_hooks(at: Seq<char>, dir: Seq<char>, name: Seq<char>)
    requires
        paths::laws::is_name(name),
    ensures
        capture::hook_of(paths::joined(at, "bash"@), dir) == (HookView::Bash {
            script_path: paths::joined(dir, "rewind-init.bash"@),
        }),
        capture::hook_of(paths::joined(at, "zsh"@), dir) == (HookView::Zsh {
            script_path: paths::joined(dir, ".zshrc"@),
        }),
        name != "bash"@ && name != "zsh"@ ==> capture::hook_of(paths::joined(at, name), dir)
            is Absent,
{
    reveal_strlit("bash");
    reveal_strlit("zsh");
    assert("bash"@.len() == 4 && "zsh"@.len() == 3);
    assert(!"bash"@.contains('/'));
    assert(!"zsh"@.contains('/'));
    paths::laws::lemma_last_part(at, "bash"@);
    paths::laws::lemma_last_part(at, "zsh"@);
    paths::laws::lemma_last_part(at, name);
}

// ---------------------------------------------------------------------------
// Details
// ---------------------------------------------------------------------------

/// A test run, a snapshot or checkpoint and a command that an event refers to are
/// looked up by their number. Other events are told by their summary alone.
pub proof fn lemma_requests(e: Event)
    ensures
        detail::request_of(None) is Ready,
        e.ref_id matches Some(id) ==> {
            &&& e.kind@ == "test"@ ==> detail::request_of(Some(e)) == RequestView::Test(id as int)
            &&& e.kind@ == "snapshot"@ || e.kind@ == "checkpoint"@ ==> detail::request_of(Some(e))
                == RequestView::Snapshot(id as int)
            &&& e.kind@ == "command"@ ==> detail::request_of(Some(e)) == (RequestView::Command {
                id: id as int,
                summary: e.summary@,
            })
        },
        e.kind@ == "restore"@ || e.kind@ == "session_start"@ || e.kind@ == "session_end"@ ==> (
        detail::request_of(Some(e)) matches RequestView::Ready(d) && d.lines == seq![e.summary@]
            && d.scroll == 0),
{
    reveal_strlit("test");
    reveal_strlit("snapshot");
    reveal_strlit("checkpoint");
    reveal_strlit("command");
    reveal_strlit("restore");
    reveal_strlit("session_start");
    reveal_strlit("session_end");
    reveal_strlit("investigation");
    assert("test"@.len() == 4 && "snapshot"@.len() == 8 && "checkpoint"@.len() == 10);
    assert("command"@.len() == 7 && "restore"@.len() == 7 && "session_start"@.len() == 13);
    assert("session_end"@.len() == 11 && "investigation"@.len() == 13);
    assert("command"@[0] == 'c' && "restore"@[0] == 'r');
    assert("session_start"@[0] == 's' && "investigation"@[0] == 'i');
}

/// The summary of an investigation is told piece by piece, cut at semicolons.
pub proof fn lemma_wrapped(pieces: Seq<Seq<char>>, i: int)
    requires
        0 <= i < pieces.len(),
        forall|k: int| 0 <= k < pieces.len() ==> !(#[trigger] pieces[k]).contains(';'),
    ensures
        detail::wrapped(text::joined(pieces, seq![';'])).len() == pieces.len(),
        detail::wrapped(text::joined(pieces, seq![';']))[i] == text::trimmed(pieces[i]),
{
    text::laws::lemma_joined_pieces(pieces, ';');
}

/// The detail of a command has its summary first, and the last forty lines of its
/// output, set in, in order.
pub proof fn lemma_command_detail(summary: Seq<char>, bytes: Seq<u8>, i: int)
    ensures
        ({
            let lines = text::lines_of(text::lossy(bytes));
            let d = detail::command_text(summary, Some(bytes));
            let shown: int = if lines.len() <= 40 {
                lines.len() as int
            } else {
                40
            };
            &&& d.lines[0] == summary
            &&& d.lines.len() == 3 + shown
            &&& 0 <= i < shown ==> d.lines[3 + i] == "  "@ + lines[lines.len() - shown + i]
            &&& d.scroll == 0
            &&& detail::command_text(summary, None).lines.len() == 2
        }),
{
}

proof fn lemma_part(a: Seq<Seq<char>>, b: Seq<Seq<char>>, c: Seq<Seq<char>>, k: int)
    ensures
        0 <= k < b.len() ==> (a + b + c).contains(b[k]),
        0 <= k < c.len() ==> (a + b + c).contains(c[k]),
        0 <= k < a.len() ==> (a + b + c).contains(a[k]),
{
    if 0 <= k < b.len() {
        assert((a + b + c)[a.len() + k] == b[k]);
    }
    if 0 <= k < c.len() {
        assert((a + b + c)[a.len() + b.len() + k] == c[k]);
    }
    if 0 <= k < a.len() {
        assert((a + b + c)[k] == a[k]);
    }
}

/// The detail of a snapshot tells its number, its kind, its label, how many files
/// it has and when it was taken, and the first two hundred changes since the
/// snapshot before it.
pub proof fn lemma_snapshot_detail(
    s: Snapshot,
    objects: Map<Seq<char>, Vec<u8>>,
    changes: Seq<ChangeView>,
    i: int,
)
    ensures
        ({
            let lines = detail::snapshot_text(s, objects, changes);
            &&& lines[0] == "snapshot #"@ + text::dec_signed(s.id as int) + "  ("@ + s.kind@ + ")"@
            &&& lines[1] == "label:  "@ + s.label@
            &&& lines[2] == "files:  "@ + text::dec_signed(s.file_count as int)
            &&& lines[3] == "time:   "@ + util::timestamp_text(s.created_at as int)
            &&& s.git_branch matches Some(b) ==> lines[4] == "branch: "@ + b@
            &&& s.parent_id is Some && 0 <= i < changes.len() && i < 200 ==> lines.contains(
                "  "@ + seq![diff::status_letter(changes[i].status)] + " "@ + changes[i].path
                    + " (+"@ + text::dec(diff::change_counts(objects, changes[i]).0) + " -"@
                    + text::dec(diff::change_counts(objects, changes[i]).1) + ")"@,
            )
            &&& s.parent_id is Some && changes.len() == 0 ==> lines.contains("  (no changes)"@)
        }),
{
    let lines = detail::snapshot_text(s, objects, changes);
    let head = seq![
        "snapshot #"@ + text::dec_signed(s.id as int) + "  ("@ + s.kind@ + ")"@,
        "label:  "@ + s.label@,
        "files:  "@ + text::dec_signed(s.file_count as int),
        "time:   "@ + util::timestamp_text(s.created_at as int),
    ];
    let branch = match s.git_branch {
        Some(b) => seq!["branch: "@ + b@],
        None => Seq::empty(),
    };
    let told = detail::change_lines(objects, changes);
    let end = seq![""@, "Press `r` to restore this snapshot."@];
    assert(lines[0] == head[0] && lines[1] == head[1] && lines[2] == head[2] && lines[3] == head[3]);
    if let Some(p) = s.parent_id {
        let title = seq![""@, "changes vs snapshot #"@ + text::dec_signed(p as int) + ":"@];
        assert(lines =~= (head + branch + title) + told + end);
        if 0 <= i < changes.len() && i < 200 {
            lemma_part(head + branch + title, told, end, i);
            let c = changes[i];
            assert(told[i] == detail::change_line(objects, c));
            assert("  "@.push(diff::status_letter(c.status)) =~= "  "@ + seq![
                diff::status_letter(c.status),
            ]);
        }
        if changes.len() == 0 {
            lemma_part(head + branch + title, told, end, 0);
        }
    }
}

/// Each cause that the detail of a test ranks has its line, with its place, its
/// path and its score, and so have its evidence and its first six changed lines.
pub proof fn lemma_detail_ranking(causes: Seq<CauseView>, i: int, k: int)
    requires
        0 <= i < causes.len(),
    ensures
        ({
            let lines = detail::ranking_lines(causes);
            &&& lines.contains(
                "  "@ + text::dec((i + 1) as nat) + ". "@ + causes[i].path + " — relevance "@
                    + text::dec_signed(causes[i].score),
            )
            &&& 0 <= k < causes[i].evidence.len() ==> lines.contains(
                "       - "@ + causes[i].evidence[k],
            )
            &&& 0 <= k < causes[i].changed_lines.len() && k < 6 ==> lines.contains(
                "       changed line "@ + text::dec(causes[i].changed_lines[k] as nat),
            )
        }),
    decreases causes.len(),
{
    let front = causes.drop_last();
    let before = detail::ranking_lines(front);
    let c = causes.last();
    let line = cli::cause_line(causes.len(), c);
    let told = cli::evidence_lines(c.evidence);
    let changed = detail::changed_line_lines(c.changed_lines);
    let all = detail::ranking_lines(causes);
    assert(all =~= before.push(line) + told + changed);
    if i == causes.len() - 1 {
        assert(all[before.len() as int] == line);
        lemma_part(before.push(line), told, changed, k);
        if 0 <= k < c.changed_lines.len() && k < 6 {
            assert(changed[k] == "       changed line "@ + text::dec(c.changed_lines[k] as nat));
        }
    } else {
        lemma_detail_ranking(front, i, k);
        assert(front[i] == causes[i]);
        assert forall|x: Seq<char>| before.contains(x) implies all.contains(x) by {
            let j = choose|j: int| 0 <= j < before.len() && before[j] == x;
            assert(all[j] == x);
        }
    }
}

/// The detail of a test run tells its command and its result, its exit code and
/// its time where they are known, and of a failure either the first twelve likely
/// causes or that there is nothing to compare with.
pub proof fn lemma_test_detail(run: TestRun, inv: Option<Investigation>, i: int)
    ensures
        ({
            let lines = detail::test_text(run, inv);
            &&& lines[0] == "command: "@ + run.command@
            &&& lines[1] == "result:  "@ + detail::result_word(run.passed)
            &&& run.exit_code matches Some(c) ==> lines.contains(
                "exit:    "@ + text::dec_signed(c as int),
            )
            &&& run.passed == Some(false) && inv is None ==> lines.contains(
                "  no prior passing run to compare against"@,
            )
            &&& run.passed == Some(false) && inv is Some && 0 <= i < inv->0.causes@.len() && i < 12
                ==> lines.contains(
                "  "@ + text::dec((i + 1) as nat) + ". "@ + investigate::cause_views(
                    inv->0.causes@,
                )[i].path + " — relevance "@ + text::dec_signed(
                    investigate::cause_views(inv->0.causes@)[i].score,
                ),
            )
            &&& run.passed != Some(false) ==> lines.len() <= 4
        }),
{
    let lines = detail::test_text(run, inv);
    let head = seq!["command: "@ + run.command@, "result:  "@ + detail::result_word(run.passed)];
    let exit = match run.exit_code {
        Some(code) => seq!["exit:    "@ + text::dec_signed(code as int)],
        None => Seq::empty(),
    };
    let time = match run.duration_ms {
        Some(d) => seq!["time:    "@ + util::duration_text(d as int % 0x1_0000_0000_0000_0000)],
        None => Seq::empty(),
    };
    let title = seq![""@, "Likely causes (relevance score — likely, not confirmed):"@];
    assert(lines[0] == head[0] && lines[1] == head[1]);
    if run.exit_code is Some {
        assert(lines[2] == exit[0]);
    }
    if run.passed == Some(false) {
        match inv {
            None => {
                let said = seq!["  no prior passing run to compare against"@];
                assert(lines =~= (head + exit) + (time + title) + said);
                lemma_part(head + exit, time + title, said, 0);
            },
            Some(found) => {
                let told = detail::investigation_text(found);
                assert(lines =~= (head + exit) + (time + title) + told);
                if 0 <= i < found.causes@.len() && i < 12 {
                    let all = investigate::cause_views(found.causes@);
                    let shown = ci::at_most(all, 12);
                    assert(shown[i] == all[i]);
                    lemma_detail_ranking(shown, i, 0);
                    let want = "  "@ + text::dec((i + 1) as nat) + ". "@ + all[i].path
                        + " — relevance "@ + text::dec_signed(all[i].score);
                    let ranked = detail::ranking_lines(shown);
                    let j = choose|j: int| 0 <= j < ranked.len() && ranked[j] == want;
                    assert(told[j] == want);
                    lemma_part(head + exit, time + title, told, j);
                }
            },
        }
    }
}

/// The words for the result of a test.
pub proof fn lemma_result_words()
    ensures
        detail::result_word(Some(true)) == "passed"@,
        detail::result_word(Some(false)) == "failed"@,
        detail::result_word(None) == "incomplete"@,
{
}

// ---------------------------------------------------------------------------
// What is drawn
// ---------------------------------------------------------------------------

/// Every kind of event has a sign of its own, and an unknown kind a dot.
pub proof fn lemma_signs(kind: Seq<char>)
    ensures
        kind == "session_start"@ ==> ui::glyph_of(kind) == "▶"@,
        kind == "session_end"@ ==> ui::glyph_of(kind) == "■"@,
        kind == "command"@ ==> ui::glyph_of(kind) == "$"@,
        kind == "test"@ ==> ui::glyph_of(kind) == "✓"@,
        kind == "snapshot"@ ==> ui::glyph_of(kind) == "◆"@,
        kind == "checkpoint"@ ==> ui::glyph_of(kind) == "⚑"@,
        kind == "restore"@ ==> ui::glyph_of(kind) == "↺"@,
        kind == "investigation"@ ==> ui::glyph_of(kind) == "?"@,
        !seq![
            "session_start"@,
            "session_end"@,
            "command"@,
            "test"@,
            "snapshot"@,
            "checkpoint"@,
            "restore"@,
            "investigation"@,
        ].contains(kind) ==> ui::glyph_of(kind) == "·"@,
{
    reveal_strlit("test");
    reveal_strlit("snapshot");
    reveal_strlit("checkpoint");
    reveal_strlit("command");
    reveal_strlit("restore");
    reveal_strlit("session_start");
    reveal_strlit("session_end");
    reveal_strlit("investigation");
    assert("test"@.len() == 4 && "snapshot"@.len() == 8 && "checkpoint"@.len() == 10);
    assert("command"@.len() == 7 && "restore"@.len() == 7 && "session_start"@.len() == 13);
    assert("session_end"@.len() == 11 && "investigation"@.len() == 13);
    assert("command"@[0] == 'c' && "restore"@[0] == 'r');
    assert("session_start"@[0] == 's' && "investigation"@[0] == 'i');
    let known = seq![
        "session_start"@,
        "session_end"@,
        "command"@,
        "test"@,
        "snapshot"@,
        "checkpoint"@,
        "restore"@,
        "investigation"@,
    ];
    assert(known[0] == "session_start"@ && known[1] == "session_end"@ && known[2] == "command"@);
    assert(known[3] == "test"@ && known[4] == "snapshot"@ && known[5] == "checkpoint"@);
    assert(known[6] == "restore"@ && known[7] == "investigation"@);
}

/// The line of an event begins with its time and its sign, and tells its summary
/// as far as there is room.
pub proof fn lemma_event_line(e: Event, max: nat)
    ensures
        ({
            let line = ui::event_text(e, max);
            let head = util::clock_text(e.created_at as int) + " "@ + ui::glyph_of(e.kind@) + " "@;
            &&& head.is_prefix_of(line)
            &&& line.len() <= head.len() + max
            &&& e.summary@.len() <= max ==> line == head + e.summary@
        }),
{
    let line = ui::event_text(e, max);
    let head = util::clock_text(e.created_at as int) + " "@ + ui::glyph_of(e.kind@) + " "@;
    assert(line.subrange(0, head.len() as int) =~= head);
    util::lemma_truncated(e.summary@, max, 0);
}

/// The header names the repository, says whether the session is recorded, how the
/// last test went, and how many files have changed if any have.
pub proof fn lemma_header(s: AppView)
    ensures
        ({
            let h = ui::header_text(s);
            &&& h[2].text == s.repo_name
            &&& s.recording ==> h[4].text == "recording"@
            &&& !s.recording ==> h[4].text == "paused"@
            &&& h[6].text == s.last_test_status
            &&& s.last_test_status == "passed"@ ==> h[6].tint is Green
            &&& s.last_test_status == "failed"@ ==> h[6].tint is Red
            &&& s.dirty.len() == 0 ==> h.len() == 7
            &&& s.dirty.len() > 0 ==> h.len() == 9 && h[8].text == text::dec(s.dirty.len())
                + " changed"@
        }),
{
    reveal_strlit("passed");
    reveal_strlit("failed");
    assert("passed"@[0] == 'p' && "failed"@[0] == 'f');
}

/// The status line names the mode and tells the status as far as there is room.
pub proof fn lemma_status_line(s: AppView, width: int)
    ensures
        ({
            let t = ui::status_text(s, width);
            &&& s.mode == Mode::Shell ==> t[0].text == " SHELL "@
            &&& s.mode == Mode::Nav ==> t[0].text == " NAV "@
            &&& s.status.len() + 24 <= width ==> t[2].text == s.status
            &&& width >= 24 ==> t[2].text.len() + 24 <= width
        }),
{
    util::lemma_truncated(s.status, ui::less_by(width, 24) as nat, 0);
}

/// The first fourteen events that were found are listed, in the order in which
/// they were found.
pub proof fn lemma_found(results: Seq<Event>, i: int)
    ensures
        0 <= i < results.len() && i < 14 ==> ui::found_text(results)[i].text == ui::event_text(
            results[i],
            56,
        ),
        ui::found_text(results).len() <= 14,
        results.len() > 0 && results.len() <= 14 ==> ui::found_text(results).len()
            == results.len(),
{
}

/// The question whether to restore names the snapshot, tells how much will be
/// written and deleted, and lists the first four paths of each sort.
pub proof fn lemma_question(id: int, plan: PlanView, i: int)
    ensures
        ({
            let lines = ui::confirm_text(id, plan);
            &&& lines[0] == "Snapshot #"@ + text::dec_signed(id)
            &&& lines[1] == "  "@ + text::dec(plan.create.len() + plan.overwrite.len())
                + " to write, "@ + text::dec(plan.delete.len()) + " to delete"@
            &&& 0 <= i < plan.create.len() && i < 4 ==> lines.contains("  + "@ + plan.create[i].path)
            &&& 0 <= i < plan.overwrite.len() && i < 4 ==> lines.contains(
                "  ~ "@ + plan.overwrite[i].path,
            )
            &&& 0 <= i < plan.delete.len() && i < 4 ==> lines.contains("  - "@ + plan.delete[i])
        }),
{
    let lines = ui::confirm_text(id, plan);
    let created = ui::some_of("  + "@, crate::restore::paths_of(plan.create));
    let overwritten = ui::some_of("  ~ "@, crate::restore::paths_of(plan.overwrite));
    let deleted = ui::some_of("  - "@, plan.delete);
    let c = created.len() as int;
    let o = overwritten.len() as int;
    if 0 <= i < plan.create.len() && i < 4 {
        assert(created[i] == "  + "@ + plan.create[i].path);
        assert(lines[3 + i] == created[i]);
    }
    if 0 <= i < plan.overwrite.len() && i < 4 {
        assert(overwritten[i] == "  ~ "@ + plan.overwrite[i].path);
        assert(lines[3 + c + i] == overwritten[i]);
    }
    if 0 <= i < plan.delete.len() && i < 4 {
        assert(deleted[i] == "  - "@ + plan.delete[i]);
        assert(lines[3 + c + o + i] == deleted[i]);
    }
}

/// The inside of a panel is one cell smaller on every side, and empty if there is
/// no room.
pub proof fn lemma_inside(outer: Area, inner: Area)
    requires
        ui::is_inside(outer, inner),
        outer.x + outer.width < u16::MAX,
        outer.y + outer.height < u16::MAX,
    ensures
        outer.width >= 2 ==> inner.x == outer.x + 1 && inner.x + inner.width + 1 == outer.x
            + outer.width,
        outer.height >= 2 ==> inner.y == outer.y + 1 && inner.y + inner.height + 1 == outer.y
            + outer.height,
        outer.width < 2 ==> inner.width == 0,
        outer.height < 2 ==> inner.height == 0,
{
}

/// The middle of three takes all that the outer two leave, never less than it
/// needs while there is room, and never more than there is.
pub proof fn lemma_middle(room: int, first: int, middle: int, last: int)
    requires
        0 <= room,
        0 <= first,
        0 <= middle,
        0 <= last,
    ensures
        ({
            let m = ui::middle_length(room, first, middle, last);
            &&& 0 <= m <= room
            &&& room >= middle ==> m >= middle
            &&& room >= first + middle + last ==> first + m + last == room
            &&& middle <= room <= first + middle + last ==> m == middle
        }),
{
}

/// Panels that are laid out neither overlap nor leave a gap: side by side and on
/// top of each other they are as large as the screen.
pub proof fn lemma_panes_fill(area: Area, p: Panes)
    requires
        ui::is_laid_out(area, p),
        area.x + area.width <= u16::MAX,
        area.y + area.height <= u16::MAX,
    ensures
        p.timeline.width + p.shell.width + p.detail.width == area.width,
        p.header.height + p.shell.height + p.status.height == area.height,
        p.timeline.x <= p.shell.x <= p.detail.x,
        p.header.y <= p.shell.y <= p.status.y,
{
}

/// The interface starts in the shell, recording, with nothing selected or over it.
pub proof fn lemma_start(repo_name: Seq<char>)
    ensures
        ({
            let s = app::at_start(repo_name);
            &&& s.well_formed()
            &&& s.mode == Mode::Shell
            &&& s.overlay is Closed
            &&& s.recording && s.shell_alive && !s.should_quit
            &&& s.repo_name == repo_name
            &&& s.events.len() == 0 && s.pending_restore is None
            &&& s.last_test_status == app::last_test_word(None)
        }),
{
}

/// The detail of a failure shows the last fifteen lines of the failing output, set
/// in.
pub proof fn lemma_failing_output(inv: Investigation, i: int)
    requires
        inv.failing_output_excerpt@.len() > 0,
    ensures
        ({
            let lines = text::lines_of(inv.failing_output_excerpt@);
            let told = detail::investigation_text(inv);
            let shown: int = if lines.len() <= 15 {
                lines.len() as int
            } else {
                15
            };
            0 <= i < shown ==> told.len() >= shown && told[told.len() - shown + i] == "  "@
                + lines[lines.len() - shown + i]
        }),
{
}

/// The detail of a failure ranks twelve causes at most, and names six changed lines
/// of each at most.
pub proof fn lemma_ranking_stops(inv: Investigation, lines: Seq<int>)
    ensures
        inv.causes@.len() > 0 && inv.failing_output_excerpt@.len() == 0
            ==> detail::investigation_text(inv) == detail::ranking_lines(
            if inv.causes@.len() <= 12 {
                investigate::cause_views(inv.causes@)
            } else {
                investigate::cause_views(inv.causes@).take(12)
            },
        ),
        lines.len() <= 6 ==> detail::changed_line_lines(lines).len() == lines.len(),
        lines.len() > 6 ==> detail::changed_line_lines(lines).len() == 6,
{
    if inv.causes@.len() > 0 && inv.failing_output_excerpt@.len() == 0 {
        let r = detail::ranking_lines(
            ci::at_most(investigate::cause_views(inv.causes@), 12),
        );
        assert(r + Seq::<Seq<char>>::empty() =~= r);
    }
}

/// The detail of a snapshot lists two hundred changes at most.
pub proof fn lemma_changes_stop(objects: Map<Seq<char>, Vec<u8>>, changes: Seq<ChangeView>)
    ensures
        0 < changes.len() <= 200 ==> detail::change_lines(objects, changes).len() == changes.len(),
        changes.len() > 200 ==> detail::change_lines(objects, changes).len() == 200,
{
}

/// The question whether to restore lists four paths of each sort at most.
pub proof fn lemma_question_is_short(id: int, plan: PlanView)
    ensures
        ui::confirm_text(id, plan).len() <= 16,
        plan.create.len() <= 4 && plan.overwrite.len() <= 4 && plan.delete.len() <= 4
            ==> ui::confirm_text(id, plan).len() == 4 + plan.create.len() + plan.overwrite.len()
            + plan.delete.len(),
{
}

} // verus!
