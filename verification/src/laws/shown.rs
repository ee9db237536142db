//! Laws of what is shown, and of the texts it is made of.

use vstd::prelude::*;

use crate::cli;
use crate::diff;
use crate::diff::FileChange;
use crate::error::ErrorView;
use crate::error::RewindError;
use crate::exec::CommandOutcome;
use crate::investigate;
use crate::investigate::Investigation;
use crate::models::Event;
use crate::models::Restore;
use crate::models::Snapshot;
use crate::models::TestRun;
use crate::objects::Loaded;
use crate::paths;
use crate::paths::StoragePaths;
use crate::repo::GitState;
use crate::restore::RestorePlan;
use crate::restore::RestoreStats;
use crate::session::NewEvent;
use crate::session::RestoreOutcome;
use crate::session::SnapshotRequest;
use crate::text;
use crate::text::CharClass;
use crate::text_map::TextMap;
use crate::tui::app::Action;
use crate::tui::app::ActionView;
use crate::tui::app::App;
use crate::tui::app::Focus;
use crate::tui::app::Mode;
use crate::tui::app;
use crate::tui::capture;
use crate::tui::detail;
use crate::tui::detail::Detail;
use crate::tui::keys::Key;
use crate::tui::keys;
use crate::tui::keys::KeyPress;
use crate::tui::ui;
use crate::tui::ui::Area;
use crate::tui::ui::Piece;
use crate::util;

verus! {

// ---------------------------------------------------------------------------
// Texts
// ---------------------------------------------------------------------------

/// A number is written with the digits that stand for it.
pub proof fn lemma_number_written(n: u128, r: String)
    requires
        call_ensures(text::show_dec, (n,), r),
    ensures
        text::laws::value(r@, 10) == n,
        r@.len() > 0,
        n > 0 ==> r@[0] != '0',
{
    text::laws::lemma_dec(n as nat);
}

/// A text put in lower case differs in the letters A to Z only.
pub proof fn lemma_lower_case(s: &str, r: String, i: int)
    requires
        call_ensures(text::to_lower, (s,), r),
        0 <= i < s@.len(),
    ensures
        r@.len() == s@.len(),
        'A' <= s@[i] && s@[i] <= 'Z' ==> r@[i] as u32 == s@[i] as u32 + 32,
        !('A' <= s@[i] && s@[i] <= 'Z') ==> r@[i] == s@[i],
{
    text::laws::lemma_lower(s@, s@, i);
}

/// The lines of a text hold no line end and stand in it.
pub proof fn lemma_lines(s: &str, r: Vec<String>, i: int)
    requires
        call_ensures(text::lines, (s,), r),
        0 <= i < r@.len(),
    ensures
        !r@[i]@.contains('\n'),
        text::occurs(s@, r@[i]@),
{
    assert(text::texts(r@)[i] == r@[i]@);
    text::lemma_line_occurs(s@, i);
}

/// The pieces of a text hold no separator, and joined they are the text again.
pub proof fn lemma_split_and_join(s: &str, sep: char, r: Vec<String>, sep_text: &str, back: String)
    requires
        call_ensures(text::split_char, (s, sep), r),
        call_ensures(text::join, (&r, sep_text), back),
        sep_text@ == seq![sep],
    ensures
        back@ == s@,
{
    text::laws::lemma_pieces(s@, sep);
}

/// The base name of a path is what follows its last slash.
pub proof fn lemma_base_name(path: &str, r: &str, dir: Seq<char>, name: Seq<char>)
    requires
        call_ensures(text::basename, (path,), r),
        path@ == dir + "/"@ + name,
        !name.contains('/'),
    ensures
        r@ == name,
{
    text::laws::lemma_base_name_below(dir, name);
}

/// A duration is written in the unit that suits it.
pub proof fn lemma_duration_written(ms: u64, r: String) -> (p: (nat, nat))
    requires
        call_ensures(util::format_duration_ms, (ms,), r),
    ensures
        ms < 1000 ==> r@ == text::dec(ms as nat) + "ms"@,
        1000 <= ms < 60_000 ==> {
            &&& p.1 < 100
            &&& -5 <= (p.0 * 100 + p.1) * 10 - ms <= 5
            &&& r@ == text::dec(p.0) + "."@ + text::dec_two(p.1) + "s"@
        },
        60_000 <= ms ==> {
            &&& p.1 < 60
            &&& 0 <= ms - (p.0 * 60 + p.1) * 1000 < 1000
            &&& r@ == text::dec(p.0) + "m"@ + text::dec_two(p.1) + "s"@
        },
{
    util::lemma_duration(ms as int)
}

/// A time of day is written as hours, minutes and seconds of two digits each.
pub proof fn lemma_clock_written(millis: i64, r: String) -> (p: (nat, nat, nat))
    requires
        call_ensures(util::format_clock, (millis,), r),
        -377705116800 <= millis / 1000 <= 253402300799,
    ensures
        p.0 < 24 && p.1 < 60 && p.2 < 60,
        p.0 * 3600 + p.1 * 60 + p.2 == (millis / 1000) % 86400,
        r@ == text::dec_two(p.0) + ":"@ + text::dec_two(p.1) + ":"@ + text::dec_two(p.2),
{
    util::lemma_clock(millis as int)
}

/// A text that fits is not cut, and one that does not ends in an ellipsis.
pub proof fn lemma_cut(s: &str, max: usize, r: String, i: int)
    requires
        call_ensures(util::truncate, (s, max), r),
    ensures
        s@.len() <= max ==> r@ == s@,
        s@.len() > max > 0 ==> r@.len() == max && r@.last() == '…' && (0 <= i < max - 1 ==> r@[i]
            == s@[i]),
        max == 0 ==> r@.len() == 0,
{
    util::lemma_truncated(s@, max as nat, i);
}

/// A path below a root is found again from the two of them.
pub proof fn lemma_path_found_again(
    root: &str,
    rel: &str,
    path: String,
    joined: &str,
    r: Option<String>,
)
    requires
        call_ensures(paths::join, (root, rel), path),
        joined@ == path@,
        call_ensures(paths::rel_string, (root, joined), r),
        paths::laws::all_names(text::pieces_of(rel@, '/')),
    ensures
        r is Some && r->0@ == rel@,
{
    text::laws::lemma_pieces(rel@, '/');
    paths::laws::lemma_relative_undoes_joining(root@, text::pieces_of(rel@, '/'));
}

/// What belongs to a repository is kept in one directory, named by the hash of its
/// place.
pub proof fn lemma_storage(base: &str, canonical: &str, r: StoragePaths)
    requires
        call_ensures(StoragePaths::for_repo_in, (base, canonical), r),
    ensures
        r.repo_root@ == canonical@,
        r.root@ == paths::joined(paths::joined(base@, "rewind"@), r.repo_hash@),
        r.db@ == paths::joined(r.root@, "rewind.db"@),
        r.objects@ == paths::joined(r.root@, "objects"@),
        r.logs@ == paths::joined(r.root@, "logs"@),
        r.repo_hash@ == crate::objects::blake3_hex(vstd::utf8::encode_utf8(canonical@)).take(32),
{
}

/// The message of an error holds what the error holds.
pub proof fn lemma_error_told(e: &RewindError, r: String)
    requires
        call_ensures(RewindError::message, (e,), r),
    ensures
        *e is Other ==> r@ == e->Other_0@,
        *e is Io ==> text::occurs(r@, e->Io_0@),
        *e is Git ==> text::occurs(r@, e->Git_0@),
        *e is Config ==> text::occurs(r@, e->Config_0@),
        *e is ObjectMissing ==> text::occurs(r@, e->ObjectMissing_0@),
        *e is PathEscapesRoot ==> text::occurs(r@, e->path@) && text::occurs(r@, e->root@),
{
    let none = Seq::<char>::empty();
    match e {
        RewindError::Io(s) => crate::error::lemma_messages(s@, none, none),
        RewindError::Git(s) => crate::error::lemma_messages(s@, none, none),
        RewindError::Config(s) => crate::error::lemma_messages(s@, none, none),
        RewindError::ObjectMissing(s) => crate::error::lemma_messages(s@, none, none),
        RewindError::PathEscapesRoot { path, root } => crate::error::lemma_messages(
            none,
            path@,
            root@,
        ),
        _ => {},
    }
}

// ---------------------------------------------------------------------------
// The command line
// ---------------------------------------------------------------------------

/// The line after a run names the command, says how it ended and how long it took.
pub proof fn lemma_footer(command: &str, outcome: &CommandOutcome, r: String)
    requires
        call_ensures(cli::outcome_footer, (command, outcome), r),
    ensures
        ("[rewind] `"@ + command@ + "` "@).is_prefix_of(r@),
        outcome.cancelled ==> text::occurs(r@, "cancelled"@),
        !outcome.cancelled && outcome.timed_out ==> text::occurs(r@, "timed out"@),
        !outcome.cancelled && !outcome.timed_out && outcome.exit_code == Some(0i32)
            ==> text::occurs(r@, "` ok in "@),
        (" in "@ + util::duration_text(outcome.duration_ms as int)).is_suffix_of(r@),
{
    let head = "[rewind] `"@ + command@ + "` "@;
    let word = cli::ending(*outcome);
    let tail = " in "@ + util::duration_text(outcome.duration_ms as int);
    assert(r@ =~= head + word + tail);
    assert(r@.subrange(0, head.len() as int) =~= head);
    assert(r@.subrange(r@.len() - tail.len(), r@.len() as int) =~= tail);
    text::lemma_occurs_within(head, word, tail);
    cli::laws::lemma_endings(*outcome);
    if !outcome.cancelled && !outcome.timed_out && outcome.exit_code == Some(0i32) {
        reveal_strlit("` ok in ");
        reveal_strlit("` ");
        reveal_strlit("ok");
        reveal_strlit(" in ");
        let a = "[rewind] `"@ + command@;
        let b = util::duration_text(outcome.duration_ms as int);
        assert("` ok in "@ =~= "` "@ + "ok"@ + " in "@);
        assert(r@ =~= a + "` ok in "@ + b);
        text::lemma_occurs_within(a, "` ok in "@, b);
    }
}

/// The first eight causes are listed at their places, and having none is said.
pub proof fn lemma_causes_listed(inv: &Investigation, r: Vec<String>, i: int)
    requires
        call_ensures(cli::cause_lines, (inv,), r),
    ensures
        0 <= i < inv.causes@.len() && i < 8 ==> text::texts(r@).contains(
            "  "@ + text::dec((i + 1) as nat) + ". "@ + inv.causes@[i]@.path + " — relevance "@
                + text::dec_signed(inv.causes@[i]@.score),
        ),
        inv.causes@.len() == 0 ==> r@.len() == 1,
{
    let all = investigate::cause_views(inv.causes@);
    let shown = crate::ci::at_most(all, 8);
    if 0 <= i < inv.causes@.len() && i < 8 {
        assert(shown[i] == inv.causes@[i]@);
        cli::laws::lemma_ranking_shows(shown, i, 0);
    }
    assert(text::texts(r@).len() == r@.len());
}

/// Each change is listed with its letter, its path and its line counts, below a
/// head that says how many there are.
pub proof fn lemma_changes_listed(
    objects: &Loaded,
    old: i64,
    new: i64,
    changes: &Vec<FileChange>,
    patch: bool,
    r: Vec<String>,
    i: int,
)
    requires
        call_ensures(cli::diff_lines, (objects, old, new, changes, patch), r),
    ensures
        r@[0]@ == "Diff snapshot #"@ + text::dec_signed(old as int) + " → #"@ + text::dec_signed(
            new as int,
        ) + ": "@ + text::dec(changes@.len()) + " change(s)"@,
        0 <= i < changes@.len() ==> {
            let c = changes@[i]@;
            let counts = diff::change_counts(objects@, c);
            text::texts(r@).contains(
                "  "@ + seq![diff::status_letter(c.status)] + " "@ + c.path + "  (+"@ + text::dec(
                    counts.0,
                ) + " -"@ + text::dec(counts.1) + ")"@,
            )
        },
        !patch ==> r@.len() == changes@.len() + 1,
{
    let views = diff::change_views(changes@);
    let lines = cli::listing(objects@, views, patch);
    let t = text::texts(r@);
    assert(t.len() == r@.len());
    assert(t[0] == r@[0]@);
    if 0 <= i < changes@.len() {
        cli::laws::lemma_listing_shows(objects@, views, patch, i, 0);
        let c = views[i];
        let counts = diff::change_counts(objects@, c);
        let want = "  "@ + seq![diff::status_letter(c.status)] + " "@ + c.path + "  (+"@
            + text::dec(counts.0) + " -"@ + text::dec(counts.1) + ")"@;
        let k = choose|k: int| 0 <= k < lines.len() && lines[k] == want;
        assert(t[1 + k] == want);
    }
    if !patch {
        cli::laws::lemma_listing_is_short(objects@, views);
    }
}

/// A plan is shown before it is carried out, path by path.
pub proof fn lemma_plan_shown(id: i64, plan: &RestorePlan, r: Vec<String>, i: int)
    requires
        call_ensures(cli::plan_lines, (id, plan), r),
    ensures
        ({
            let lines = text::texts(r@);
            &&& 0 <= i < plan@.create.len() ==> lines.contains("  create    "@ + plan@.create[i].path)
            &&& 0 <= i < plan@.overwrite.len() ==> lines.contains(
                "  overwrite "@ + plan@.overwrite[i].path,
            )
            &&& 0 <= i < plan@.delete.len() ==> lines.contains("  delete    "@ + plan@.delete[i])
        }),
{
    cli::laws::lemma_plan_told(id as int, plan@, i);
}

/// A restore is told by how much was written and deleted and by the snapshot that
/// undoes it.
pub proof fn lemma_restore_told(outcome: &RestoreOutcome, r: String)
    requires
        call_ensures(cli::restored_line, (outcome,), r),
    ensures
        text::occurs(r@, text::dec(outcome.stats.written as nat) + " written"@),
        text::occurs(r@, text::dec(outcome.stats.deleted as nat) + " deleted"@),
        text::occurs(
            r@,
            "Safety snapshot #"@ + text::dec_signed(outcome.safety_snapshot_id as int),
        ),
{
    reveal_strlit(" written, ");
    reveal_strlit(" written");
    reveal_strlit(", ");
    reveal_strlit(" deleted. Safety snapshot #");
    reveal_strlit(" deleted");
    reveal_strlit(". ");
    reveal_strlit("Safety snapshot #");
    let w = text::dec(outcome.stats.written as nat);
    let d = text::dec(outcome.stats.deleted as nat);
    let s = text::dec_signed(outcome.safety_snapshot_id as int);
    let end = ". Undo with `rewind undo`."@;
    assert(" written, "@ =~= " written"@ + ", "@);
    assert(" deleted. Safety snapshot #"@ =~= " deleted"@ + ". "@ + "Safety snapshot #"@);
    let after_written = ", "@ + d + " deleted. Safety snapshot #"@ + s + end;
    assert(r@ =~= "Restored: "@ + (w + " written"@) + after_written);
    text::lemma_occurs_within("Restored: "@, w + " written"@, after_written);
    let before_deleted = "Restored: "@ + w + " written, "@;
    let after_deleted = ". "@ + "Safety snapshot #"@ + s + end;
    assert(r@ =~= before_deleted + (d + " deleted"@) + after_deleted);
    text::lemma_occurs_within(before_deleted, d + " deleted"@, after_deleted);
    let before_safety = before_deleted + d + " deleted"@ + ". "@;
    assert(r@ =~= before_safety + ("Safety snapshot #"@ + s) + end);
    text::lemma_occurs_within(before_safety, "Safety snapshot #"@ + s, end);
}

/// What is told of a repository names its root, its branch and its head, and says
/// whether there are changes.
pub proof fn lemma_repository_told(root: &str, state: &GitState, r: Vec<String>)
    requires
        call_ensures(cli::repository_lines, (root, state), r),
    ensures
        r@.len() == 2,
        r@[0]@ == "  repository:   "@ + root@,
        state.branch is Some ==> text::occurs(r@[1]@, "branch "@ + state.branch->0@),
        state.dirty ==> ", dirty"@.is_suffix_of(r@[1]@),
{
    let t = text::texts(r@);
    assert(t.len() == r@.len());
    assert(t[0] == r@[0]@ && t[1] == r@[1]@);
    let line = r@[1]@;
    reveal_strlit("  git:          branch ");
    reveal_strlit("  git:          ");
    reveal_strlit("branch ");
    reveal_strlit(", dirty");
    assert("  git:          branch "@ =~= "  git:          "@ + "branch "@);
    let head = match state.head {
        Some(h) => text::utf8_prefix(h@, 8),
        None => "(none)"@,
    };
    let end = if state.dirty {
        ", dirty"@
    } else {
        ""@
    };
    if state.branch is Some {
        let b = "branch "@ + state.branch->0@;
        let rest = ", head "@ + head + end;
        assert(line =~= "  git:          "@ + b + rest);
        text::lemma_occurs_within("  git:          "@, b, rest);
    }
    if state.dirty {
        assert(line.subrange(line.len() - end.len(), line.len() as int) =~= end);
    }
}

// ---------------------------------------------------------------------------
// The interface
// ---------------------------------------------------------------------------

/// A character typed in the shell goes to it in UTF-8, and Alt puts an escape in
/// front.
pub proof fn lemma_typed(key: &KeyPress, r: Option<Vec<u8>>)
    requires
        call_ensures(keys::key_to_bytes, (key,), r),
    ensures
        key.key is Char && !key.ctrl && !key.alt ==> r is Some && r->0@ == vstd::utf8::encode_utf8(
            seq![key.key->Char_0],
        ),
        key.key is Char && !key.ctrl && key.alt ==> r is Some && r->0@ == seq![0x1bu8]
            + vstd::utf8::encode_utf8(seq![key.key->Char_0]),
        key.key is Enter && !key.alt ==> r is Some && r->0@ == seq![13u8],
        key.key is Other ==> r is None,
{
}

/// A letter with control is its number in the alphabet, whichever its case.
pub proof fn lemma_control(c: char, r: Option<u8>)
    requires
        call_ensures(keys::ctrl_byte, (c,), r),
    ensures
        'a' <= c && c <= 'z' ==> r == Some((c as u8 - 96) as u8),
        'A' <= c && c <= 'Z' ==> r == Some((c as u8 - 64) as u8),
        '0' <= c && c <= '9' ==> r is None,
{
}

/// Every event has its line in the timeline, in order.
pub proof fn lemma_timeline(app: &App, r: Vec<Piece>, i: int)
    requires
        call_ensures(ui::timeline, (app,), r),
        0 <= i < app.events@.len(),
    ensures
        r@.len() == app.events@.len(),
        (util::clock_text(app.events@[i].created_at as int) + " "@ + ui::glyph_of(
            app.events@[i].kind@,
        ) + " "@).is_prefix_of(r@[i].text@),
        app.events@[i].summary@.len() <= 22 ==> r@[i].text@ == util::clock_text(
            app.events@[i].created_at as int,
        ) + " "@ + ui::glyph_of(app.events@[i].kind@) + " "@ + app.events@[i].summary@,
{
    let v = ui::piece_views(r@);
    assert(v.len() == r@.len());
    assert(v[i] == r@[i]@);
    crate::tui::laws::lemma_event_line(app.events@[i], 22);
}

/// At most one panel looks as if it had the focus, and it is the one that keys go
/// to.
pub proof fn lemma_focus_shown(
    app: &App,
    timeline: ui::Tint,
    detail: ui::Tint,
    shell: (ui::Tint, &'static str),
)
    requires
        call_ensures(ui::timeline_border, (app,), timeline),
        call_ensures(ui::detail_border, (app,), detail),
        call_ensures(ui::shell_border, (app,), shell),
    ensures
        timeline is Cyan <==> app.mode == Mode::Nav && app.focus == Focus::Timeline,
        detail is Cyan <==> app.mode == Mode::Nav && app.focus == Focus::Detail,
        shell.0 is Green <==> app.mode == Mode::Shell,
        app.shell_alive <==> shell.1@ == " Embedded Shell "@,
{
    reveal_strlit(" Embedded Shell ");
    reveal_strlit(" Embedded Shell (exited) ");
    assert(" Embedded Shell "@.len() != " Embedded Shell (exited) "@.len());
}

/// The panels fill the screen. On one that is large enough the header and the
/// status line have a row each, the timeline thirty columns and the detail
/// forty-two.
pub proof fn lemma_layout(area: Area, p: ui::Panes)
    requires
        call_ensures(ui::layout, (area,), p),
        area.x + area.width <= u16::MAX,
        area.y + area.height <= u16::MAX,
    ensures
        p.timeline.width + p.shell.width + p.detail.width == area.width,
        p.header.height + p.shell.height + p.status.height == area.height,
        area.width >= 102 ==> p.timeline.width == 30 && p.detail.width == 42 && p.shell.width
            == area.width - 72,
        area.height >= 5 ==> p.header.height == 1 && p.status.height == 1 && p.shell.height
            == area.height - 2,
        p.shell.width >= 2 && p.shell.x < u16::MAX ==> p.shell_inner.width == p.shell.width - 2
            && p.shell_inner.x == p.shell.x + 1,
{
    crate::tui::laws::lemma_panes_fill(area, p);
}

/// A box in the middle has as much room on one side as on the other, but for one
/// cell, and never sticks out.
pub proof fn lemma_centered(area: Area, width: u16, height: u16, r: Area)
    requires
        call_ensures(ui::centered, (area, width, height), r),
    ensures
        r.width <= area.width && r.height <= area.height,
        width <= area.width ==> r.width == width,
        height <= area.height ==> r.height == height,
        area.x <= r.x && r.x + r.width <= area.x + area.width,
        area.y <= r.y && r.y + r.height <= area.y + area.height,
        ({
            let left = r.x - area.x;
            let right = area.x + area.width - r.x - r.width;
            left <= right <= left + 1
        }),
{
}

/// The cursor is shown inside the shell, where it stands, and only while keys go
/// there and nothing lies over it.
pub proof fn lemma_cursor(
    app: &App,
    shell: Area,
    hidden: bool,
    row: u16,
    column: u16,
    r: Option<(u16, u16)>,
)
    requires
        call_ensures(ui::cursor_at, (app, shell, hidden, row, column), r),
        shell.x + shell.width <= u16::MAX,
        shell.y + shell.height <= u16::MAX,
    ensures
        r is Some <==> app.mode == Mode::Shell && app.overlay is Closed && !hidden && column
            < shell.width && row < shell.height,
        r matches Some((x, y)) ==> x == shell.x + column && y == shell.y + row,
{
}

/// A line typed in the shell is a command unless it is blank.
pub proof fn lemma_captured(
    line: &str,
    r: Option<String>,
    v: Seq<char>,
    s: Seq<char>,
    w: Seq<char>,
)
    requires
        call_ensures(capture::captured_command, (line,), r),
        line@ == v + s + w,
        text::all_in(v, CharClass::WhiteSpace),
        text::all_in(w, CharClass::WhiteSpace),
        s.len() > 0,
        !text::is_white_space(s[0]),
        !text::is_white_space(s.last()),
    ensures
        r is Some && r->0@ == s,
{
    text::laws::lemma_trimmed(v, s, w);
}

/// A screen has at least one row and one column, and else the size it has.
pub proof fn lemma_screen(rows: u16, columns: u16, r: (u16, u16))
    requires
        call_ensures(capture::screen_size, (rows, columns), r),
    ensures
        r.0 >= 1 && r.1 >= 1,
        rows >= 1 ==> r.0 == rows,
        columns >= 1 ==> r.1 == columns,
{
}

/// The detail of a test begins with its command and its result.
pub proof fn lemma_test_shown(run: &TestRun, inv: Option<&Investigation>, r: Detail)
    requires
        call_ensures(detail::detail_for_test, (Some(run), inv), r),
    ensures
        r.lines@[0]@ == "command: "@ + run.command@,
        run.passed == Some(true) ==> r.lines@[1]@ == "result:  "@ + "passed"@,
        run.passed == Some(false) ==> r.lines@[1]@ == "result:  "@ + "failed"@,
        r.scroll == 0,
{
    let i = match inv {
        Some(i) => Some(*i),
        None => None,
    };
    crate::tui::laws::lemma_test_detail(*run, i, 0);
    let t = text::texts(r.lines@);
    assert(t == detail::test_text(*run, i));
    assert(t[0] == r.lines@[0]@ && t[1] == r.lines@[1]@);
}

/// The colours and the titles by which events are told apart.
pub proof fn lemma_looks(kind: &str, tint: ui::Tint, title: String)
    requires
        call_ensures(ui::style_for, (kind,), tint),
        call_ensures(detail::title_for, (kind,), title),
    ensures
        tint is Green <==> kind@ == "test"@,
        tint is Yellow <==> kind@ == "investigation"@,
        tint is Magenta <==> kind@ == "restore"@,
        tint is Cyan <==> kind@ == "checkpoint"@,
        kind@ == "session_start"@ ==> title@ == "Session start"@,
        kind@ == "session_end"@ ==> title@ == "Session end"@,
        kind@ == "restore"@ ==> title@ == "Restore"@,
        kind@ != "session_start"@ && kind@ != "session_end"@ && kind@ != "restore"@ ==> title@
            == kind@,
{
    reveal_strlit("test");
    reveal_strlit("checkpoint");
    reveal_strlit("restore");
    reveal_strlit("session_start");
    reveal_strlit("session_end");
    reveal_strlit("investigation");
    assert("test"@.len() == 4 && "checkpoint"@.len() == 10 && "restore"@.len() == 7);
    assert("session_start"@.len() == 13 && "session_end"@.len() == 11);
    assert("investigation"@.len() == 13);
}

/// Moving the selection changes nothing else, and moving it back undoes it.
pub proof fn lemma_next_and_back(app: &mut App)
    requires
        call_ensures(App::select_next, (app,), ()),
    ensures
        old(app)@.selected + 1 < old(app)@.events.len() ==> final(app)@.selected == old(app)@.selected + 1,
        old(app)@.selected + 1 >= old(app)@.events.len() ==> final(app)@ == old(app)@,
        final(app)@.events == old(app)@.events,
        final(app)@.mode == old(app)@.mode,
{
}

/// The selection moves up by one unless it is at the top.
pub proof fn lemma_previous(app: &mut App)
    requires
        call_ensures(App::select_prev, (app,), ()),
    ensures
        old(app)@.selected > 0 ==> final(app)@.selected == old(app)@.selected - 1,
        old(app)@.selected == 0 ==> final(app)@ == old(app)@,
        final(app)@.events == old(app)@.events,
{
}

/// The first and the last event can be reached at once.
pub proof fn lemma_ends(app: &mut App, other: &mut App)
    requires
        call_ensures(App::select_first, (app,), ()),
        call_ensures(App::select_last, (other,), ()),
    ensures
        final(app)@.selected == 0,
        final(app)@.events == old(app)@.events,
        old(other)@.events.len() > 0 ==> final(other)@.selected == old(other)@.events.len() - 1,
        final(other)@.events == old(other)@.events,
{
}

/// Changed files are counted once each until they are taken into a snapshot.
pub proof fn lemma_dirty(app: &mut App, names: Vec<String>, other: &mut App, p: Seq<char>)
    requires
        call_ensures(App::mark_dirty, (app, names), ()),
        call_ensures(App::all_clean, (other,), ()),
    ensures
        final(app)@.dirty.contains(p) <==> old(app)@.dirty.contains(p) || text::texts(
            names@,
        ).contains(p),
        !final(other)@.dirty.contains(p),
        final(app)@.selected == old(app)@.selected,
{
    assert(text::texts(names@).to_set().contains(p) <==> text::texts(names@).contains(p));
}

/// A restore that would change nothing is not asked about. Any other is, and waits
/// for the answer as it was planned.
pub proof fn lemma_asked(app: &mut App, id: i64, plan: RestorePlan, r: bool)
    requires
        call_ensures(App::begin_restore_selected, (app, id, plan), r),
    ensures
        r <==> plan.create@.len() + plan.overwrite@.len() + plan.delete@.len() > 0,
        r ==> final(app)@.overlay is ConfirmRestore && final(app)@.pending_restore == Some(
            (id, plan),
        ),
        !r ==> final(app)@.overlay == old(app)@.overlay && final(app)@.pending_restore == old(app)@.pending_restore,
{
}

/// What a test came to is told, and how long it took.
pub proof fn lemma_test_told(app: &mut App, passed: bool, ms: u64)
    requires
        call_ensures(App::tested, (app, passed, ms), ()),
    ensures
        passed ==> final(app)@.status == "test "@ + "passed"@ + " in "@ + util::duration_text(
            ms as int,
        ),
        !passed ==> final(app)@.status == "test "@ + "failed"@ + " in "@ + util::duration_text(
            ms as int,
        ),
        final(app)@.events == old(app)@.events,
{
}

/// What was found replaces what was found before.
pub proof fn lemma_found_replaces(app: &mut App, results: Vec<Event>)
    requires
        call_ensures(App::found, (app, results), ()),
    ensures
        final(app)@.search_results == results@,
        final(app)@.search_input == old(app)@.search_input,
{
}

/// A key pressed in the shell goes to it, but for the one that leaves it.
pub proof fn lemma_shell_key(app: &mut App, key: &KeyPress, has_test: bool, r: Action)
    requires
        call_ensures(app::handle_key, (app, key, has_test), r),
        old(app)@.mode == Mode::Shell,
    ensures
        key.key == Key::Char('g') && key.ctrl ==> final(app)@.mode == Mode::Nav && r@ is Nothing,
        !(key.key == Key::Char('g') && key.ctrl) ==> final(app)@ == old(app)@,
        key.key is Char && !key.ctrl && !key.alt ==> r@ == ActionView::Send(
            vstd::utf8::encode_utf8(seq![key.key->Char_0]),
        ),
{
}

/// A paste in the shell goes to it whole.
pub proof fn lemma_shell_paste(app: &mut App, t: &str, r: Action)
    requires
        call_ensures(app::handle_paste, (app, t), r),
        old(app)@.mode == Mode::Shell,
    ensures
        r@ == ActionView::Send(vstd::utf8::encode_utf8(t@)),
        final(app)@ == old(app)@,
{
}

/// New events take the place of the old, and the selection stays on one of them.
pub proof fn lemma_refreshed(app: &mut App, events: Vec<Event>, run: Option<&TestRun>)
    requires
        call_ensures(App::refresh, (app, events, run), ()),
    ensures
        final(app)@.events == events@,
        events@.len() > 0 ==> 0 <= final(app)@.selected < events@.len(),
        0 <= old(app)@.selected < events@.len() ==> final(app)@.selected == old(app)@.selected,
        run is None ==> final(app)@.last_test_status == "none"@,
        run is Some && !run->0.cancelled && run->0.passed == Some(true)
            ==> final(app)@.last_test_status == "passed"@,
        run is Some && !run->0.cancelled && run->0.passed == Some(false)
            ==> final(app)@.last_test_status == "failed"@,
{
}

/// The header names the repository and how the last test went.
pub proof fn lemma_header_shown(app: &App, r: Vec<Piece>)
    requires
        call_ensures(ui::header, (app,), r),
    ensures
        r@[2].text@ == app.repo_name@,
        r@[6].text@ == app.last_test_status@,
        app.recording ==> r@[4].text@ == "recording"@,
        !app.recording ==> r@[4].text@ == "paused"@,
{
    let v = ui::piece_views(r@);
    crate::tui::laws::lemma_header(app@);
    assert(v.len() == r@.len());
    assert(v[2] == r@[2]@ && v[4] == r@[4]@ && v[6] == r@[6]@);
}

/// The question whether to restore lists what it is about.
pub proof fn lemma_question_shown(id: i64, plan: &RestorePlan, r: Vec<String>, i: int)
    requires
        call_ensures(ui::confirm_lines, (id, plan), r),
    ensures
        r@[0]@ == "Snapshot #"@ + text::dec_signed(id as int),
        0 <= i < plan@.delete.len() && i < 4 ==> text::texts(r@).contains(
            "  - "@ + plan@.delete[i],
        ),
        0 <= i < plan@.create.len() && i < 4 ==> text::texts(r@).contains(
            "  + "@ + plan@.create[i].path,
        ),
        0 <= i < plan@.overwrite.len() && i < 4 ==> text::texts(r@).contains(
            "  ~ "@ + plan@.overwrite[i].path,
        ),
{
    crate::tui::laws::lemma_question(id as int, plan@, i);
    let t = text::texts(r@);
    assert(t.len() == r@.len());
    assert(ui::confirm_text(id as int, plan@).len() >= 3);
    assert(t[0] == r@[0]@);
}

/// A command typed in the shell is told by itself, after a dollar sign, and its
/// snapshot is labelled with it.
pub proof fn lemma_captured_told(command: &str, e: NewEvent, s: SnapshotRequest)
    requires
        call_ensures(capture::captured_event, (command,), e),
        call_ensures(capture::snapshot_after, (command,), s),
    ensures
        e.kind@ == "command"@,
        e.summary@ == "$ "@ + command@,
        s.kind@ == "post_command"@,
        s.label@ == "after `"@ + command@ + "`"@,
{
}

/// Each session writes its commands to a log of its own.
pub proof fn lemma_logs_differ(dir: &str, a: u32, b: u32, la: String, lb: String)
    requires
        call_ensures(capture::command_log, (dir, a), la),
        call_ensures(capture::command_log, (dir, b), lb),
        dir@.len() > 0,
        dir@.last() != '/',
    ensures
        la@ == dir@ + "/commands-"@ + text::dec(a as nat) + ".log"@,
        la@ == lb@ ==> a == b,
{
    reveal_strlit("commands-");
    reveal_strlit("/commands-");
    reveal_strlit(".log");
    let x = text::dec(a as nat);
    let y = text::dec(b as nat);
    assert(la@ =~= dir@ + "/commands-"@ + x + ".log"@);
    assert(lb@ =~= dir@ + "/commands-"@ + y + ".log"@);
    if la@ == lb@ {
        let n = dir@.len() + 10;
        assert(x.len() == y.len());
        assert forall|i: int| 0 <= i < x.len() implies x[i] == y[i] by {
            assert(la@[n + i] == x[i]);
            assert(lb@[n + i] == y[i]);
        }
        assert(x =~= y);
        text::laws::lemma_dec_tells(a as nat, b as nat);
    }
}

/// The configuration that was written is told, and whether it was there before.
pub proof fn lemma_written_told(existed: bool, file: &str, command: Option<&str>, r: Vec<String>)
    requires
        call_ensures(cli::init_lines, (existed, file, command), r),
    ensures
        existed ==> r@[0]@ == "Updated "@ + file@,
        !existed ==> r@[0]@ == "Created "@ + file@,
        command is Some ==> r@[1]@ == "  test_command = \""@ + command->0@ + "\""@,
{
    let t = text::texts(r@);
    assert(t.len() == r@.len());
    assert(t[0] == r@[0]@ && t[1] == r@[1]@);
}

/// What is told of the storage names where everything is.
pub proof fn lemma_storage_told(
    storage: &StoragePaths,
    has_config: bool,
    command: Option<&str>,
    snapshots: usize,
    last: Option<&TestRun>,
    r: Vec<String>,
)
    requires
        call_ensures(cli::storage_lines, (storage, has_config, command, snapshots, last), r),
    ensures
        r@.len() == 8,
        r@[0]@ == "  storage:      "@ + storage.root@,
        r@[1]@ == "  database:     "@ + storage.db@,
        r@[2]@ == "  objects:      "@ + storage.objects@,
        r@[3]@ == "  repo hash:    "@ + storage.repo_hash@,
        command is Some ==> r@[5]@ == "  test command: "@ + command->0@,
        r@[6]@ == "  snapshots:    "@ + text::dec(snapshots as nat),
        last is Some && last->0.passed == Some(true) ==> r@[7]@ == "  last test:    "@ + "passed"@,
        last is Some && last->0.passed == Some(false) ==> r@[7]@ == "  last test:    "@ + "failed"@,
        last is None ==> r@[7]@ == "  last test:    "@ + "none yet"@,
{
    let t = text::texts(r@);
    assert(t.len() == r@.len());
    assert(t[0] == r@[0]@ && t[1] == r@[1]@ && t[2] == r@[2]@ && t[3] == r@[3]@);
    assert(t[5] == r@[5]@ && t[6] == r@[6]@ && t[7] == r@[7]@);
}

/// The first fifteen snapshots are listed, in order, each with its number.
pub proof fn lemma_snapshots_listed(snapshots: &Vec<Snapshot>, r: Vec<String>, i: int)
    requires
        call_ensures(cli::recent_snapshot_lines, (snapshots,), r),
    ensures
        snapshots@.len() <= 15 ==> r@.len() == snapshots@.len() + 1,
        snapshots@.len() > 15 ==> r@.len() == 16,
        0 <= i < snapshots@.len() && i < 15 ==> ("  #"@ + text::dec_signed(
            snapshots@[i].id as int,
        )).is_prefix_of(r@[i + 1]@),
{
    let t = text::texts(r@);
    assert(t.len() == r@.len());
    if 0 <= i < snapshots@.len() && i < 15 {
        assert(t[i + 1] == r@[i + 1]@);
        cli::laws::lemma_snapshot_line(snapshots@[i]);
    }
}

/// The causes behind the eighth make no difference to what is listed.
pub proof fn lemma_listing_stops(a: &Investigation, b: &Investigation, ra: Vec<String>, rb: Vec<String>)
    requires
        call_ensures(cli::cause_lines, (a,), ra),
        call_ensures(cli::cause_lines, (b,), rb),
        a.causes@.len() >= 8,
        b.causes@.len() == 8,
        forall|i: int| 0 <= i < 8 ==> (#[trigger] a.causes@[i])@ == b.causes@[i]@,
    ensures
        text::texts(ra@) == text::texts(rb@),
{
    let va = investigate::cause_views(a.causes@);
    let vb = investigate::cause_views(b.causes@);
    assert(crate::ci::at_most(va, 8) =~= crate::ci::at_most(vb, 8)) by {
        assert forall|i: int| 0 <= i < 8 implies va[i] == vb[i] by {
            assert(a.causes@[i]@ == b.causes@[i]@);
        }
    }
}

/// A line of the timeline has room for twenty-two characters of a summary.
pub proof fn lemma_timeline_is_narrow(app: &App, r: Vec<Piece>, i: int)
    requires
        call_ensures(ui::timeline, (app,), r),
        0 <= i < app.events@.len(),
    ensures
        r@[i].text@.len() <= (util::clock_text(app.events@[i].created_at as int) + " "@
            + ui::glyph_of(app.events@[i].kind@) + " "@).len() + 22,
{
    let v = ui::piece_views(r@);
    assert(v.len() == r@.len());
    assert(v[i] == r@[i]@);
    crate::tui::laws::lemma_event_line(app.events@[i], 22);
}

/// The commit is told by its first eight digits.
pub proof fn lemma_commit_told(root: &str, state: &GitState, r: Vec<String>)
    requires
        call_ensures(cli::repository_lines, (root, state), r),
        state.head is Some,
        forall|i: int| 0 <= i < state.head->0@.len() ==> (#[trigger] state.head->0@[i]) as u32
            <= 0x7F,
        state.head->0@.len() >= 8,
    ensures
        text::occurs(r@[1]@, ", head "@ + state.head->0@.take(8)),
        !state.dirty ==> (", head "@ + state.head->0@.take(8)).is_suffix_of(r@[1]@),
{
    let h = state.head->0@;
    let t = text::texts(r@);
    assert(t.len() == r@.len());
    assert(t[1] == r@[1]@);
    text::laws::lemma_ascii_prefix(h, 8);
    let a = "  git:          branch "@ + cli::or_text(text::opt_text(state.branch), "(none)"@);
    let b = ", head "@ + h.take(8);
    let c = if state.dirty {
        ", dirty"@
    } else {
        ""@
    };
    reveal_strlit("");
    assert(r@[1]@ =~= a + b + c);
    text::lemma_occurs_within(a, b, c);
    if !state.dirty {
        assert(r@[1]@.subrange(r@[1]@.len() - b.len(), r@[1]@.len() as int) =~= b);
    }
}

/// A time is written to the millisecond, as long as its year has four digits.
pub proof fn lemma_time_written(millis: i64, r: String)
    requires
        call_ensures(util::format_timestamp, (millis,), r),
    ensures
        -62167219200 <= millis / 1000 <= 253402300799 ==> r@ == util::rfc3339(millis * 1_000_000),
        !(-62167219200 <= millis / 1000 <= 253402300799) ==> r@ == text::dec_signed(millis as int),
{
    util::lemma_seconds(millis as int);
}

/// What was put under a key is found there, and what is under other keys stays.
pub proof fn lemma_put_and_found<V>(
    m: &mut TextMap<V>,
    key: String,
    value: V,
    after: TextMap<V>,
    probe: &str,
    r: Option<&V>,
)
    requires
        call_ensures(TextMap::<V>::insert, (m, key, value), ()),
        after == *final(m),
        call_ensures(TextMap::<V>::get, (&after, probe), r),
    ensures
        probe@ == key@ ==> r == Some(&value),
        probe@ != key@ ==> (r is Some <==> old(m)@.contains_key(probe@)),
        probe@ != key@ && r is Some ==> *r->0 == old(m)@[probe@],
{
}

/// What is told of a snapshot or a restore names it by its number.
pub proof fn lemma_numbers_told(
    id: i64,
    missing: RewindError,
    nothing: String,
    snapshot: &Snapshot,
    made: String,
    record: &Restore,
    stats: &RestoreStats,
    undone: String,
)
    requires
        call_ensures(cli::no_such_snapshot, (id,), missing),
        call_ensures(cli::nothing_to_restore, (id,), nothing),
        call_ensures(cli::checkpoint_line, (snapshot,), made),
        call_ensures(cli::undone_line, (record, stats), undone),
    ensures
        missing@ == ErrorView::Other("no snapshot #"@ + text::dec_signed(id as int)),
        text::occurs(nothing@, text::dec_signed(id as int)),
        ("Created checkpoint #"@ + text::dec_signed(snapshot.id as int)).is_prefix_of(made@),
        text::occurs(made@, text::dec_signed(snapshot.file_count as int) + " files"@),
        ("Undid restore #"@ + text::dec_signed(record.id as int)).is_prefix_of(undone@),
        text::occurs(undone@, text::dec(stats.written as nat) + " written"@),
        text::occurs(undone@, text::dec_signed(record.safety_snapshot_id as int)),
{
    let n = text::dec_signed(id as int);
    text::lemma_occurs_within(
        "Nothing to restore — the working tree already matches snapshot #"@,
        n,
        "."@,
    );
    reveal_strlit(" files, ");
    reveal_strlit(" files");
    reveal_strlit(", ");
    reveal_strlit(" written, ");
    reveal_strlit(" written");
    assert(" files, "@ =~= " files"@ + ", "@);
    assert(" written, "@ =~= " written"@ + ", "@);
    let head = "Created checkpoint #"@ + text::dec_signed(snapshot.id as int);
    let count = text::dec_signed(snapshot.file_count as int) + " files"@;
    let rest = ", "@ + util::timestamp_text(snapshot.created_at as int) + ")"@;
    assert(made@ =~= (head + " ("@) + count + rest);
    text::lemma_occurs_within(head + " ("@, count, rest);
    assert(made@.subrange(0, head.len() as int) =~= head);
    let top = "Undid restore #"@ + text::dec_signed(record.id as int);
    let wrote = text::dec(stats.written as nat) + " written"@;
    let safety = text::dec_signed(record.safety_snapshot_id as int);
    let middle = ", "@ + text::dec(stats.deleted as nat) + " deleted (from safety snapshot #"@;
    assert(undone@ =~= (top + ": "@) + wrote + (middle + safety + ")."@));
    text::lemma_occurs_within(top + ": "@, wrote, middle + safety + ")."@);
    assert(undone@ =~= (top + ": "@ + wrote + middle) + safety + ")."@);
    text::lemma_occurs_within(top + ": "@ + wrote + middle, safety, ")."@);
    assert(undone@.subrange(0, top.len() as int) =~= top);
}

/// Each detail has a title that says what it is of, and begins at its top. What cannot
/// be found is said to be missing.
pub proof fn lemma_titles(
    summary: &str,
    output: Option<&Vec<u8>>,
    command: Detail,
    snapshot: Option<&Snapshot>,
    objects: &Loaded,
    changes: &Vec<FileChange>,
    taken: Detail,
    run: Option<&TestRun>,
    inv: Option<&Investigation>,
    test: Detail,
)
    requires
        call_ensures(detail::detail_for_command, (summary, output), command),
        call_ensures(detail::detail_for_snapshot, (snapshot, objects, changes), taken),
        call_ensures(detail::detail_for_test, (run, inv), test),
    ensures
        command.title@ == "Command"@ && taken.title@ == "Snapshot"@ && test.title@ == "Test run"@,
        command.scroll == 0 && taken.scroll == 0 && test.scroll == 0,
        command.lines@.len() >= 2 && command.lines@[0]@ == summary@,
        snapshot is None ==> taken.lines@.len() == 1 && taken.lines@[0]@ == "(snapshot not found)"@,
        run is None ==> test.lines@.len() == 1 && test.lines@[0]@ == "(test run not found)"@,
        snapshot is Some ==> taken.lines@.len() >= 6 && taken.lines@[1]@ == "label:  "@
            + snapshot->0.label@,
{
    let c = text::texts(command.lines@);
    let s = text::texts(taken.lines@);
    let t = text::texts(test.lines@);
    assert(c.len() == command.lines@.len() && s.len() == taken.lines@.len() && t.len()
        == test.lines@.len());
    assert(c == command@.lines && s == taken@.lines && t == test@.lines);
    assert(c.len() >= 2);
    assert(c[0] == command.lines@[0]@);
    if snapshot is None {
        assert(s[0] == taken.lines@[0]@);
    } else {
        assert(s.len() >= 6);
        assert(s[1] == taken.lines@[1]@);
    }
    if run is None {
        assert(t[0] == test.lines@[0]@);
    }
}

} // verus!
