//! What the interface shows and where.

use ratatui::layout::Constraint;
use ratatui::layout::Direction;
use ratatui::layout::Layout;
use ratatui::layout::Rect;
use vstd::prelude::*;

use crate::ci;
use crate::cli;
use crate::models::event_kind;
use crate::models::Event;
use crate::restore;
use crate::restore::PlanEntry;
use crate::restore::RestorePlan;
use crate::text;
use crate::tui::app::App;
use crate::tui::app::AppView;
use crate::tui::app::Focus;
use crate::tui::app::Mode;
use crate::tui::app::Overlay;
use crate::util;

verus! {

// ---------------------------------------------------------------------------
// Areas
// ---------------------------------------------------------------------------

/// A rectangle of the screen.
#[derive(Debug, Clone, Copy, PartialEq, Eq, Structural)]
pub struct Area {
    pub x: u16,
    pub y: u16,
    pub width: u16,
    pub height: u16,
}

/// Where an area begins, from above if `downwards` holds and else from the left.
pub open spec fn begin_of(a: Area, downwards: bool) -> int {
    if downwards {
        a.y as int
    } else {
        a.x as int
    }
}

/// How long an area is, downwards or to the right.
pub open spec fn length_of(a: Area, downwards: bool) -> int {
    if downwards {
        a.height as int
    } else {
        a.width as int
    }
}

/// Where an area ends, downwards or to the right, which is at the end of the
/// range of coordinates at the latest.
pub open spec fn end_of(a: Area, downwards: bool) -> int {
    plus_within(begin_of(a, downwards), length_of(a, downwards))
}

/// How long the middle one of three parts is: it has all the room up to its own
/// length, then its own length as long as the outer parts lack any of theirs,
/// and then all that they leave.
pub open spec fn middle_length(room: int, first: int, middle: int, last: int) -> int {
    if room <= middle {
        room
    } else if room <= first + middle + last {
        middle
    } else {
        room - first - last
    }
}

/// Splits an area into three parts with `ratatui::layout::Layout::split`,
/// downwards if `downwards` holds and else to the right. The first and the last
/// part have a `Length`, the middle one has a `Min`.
///
/// Each part takes the whole of the area in the other direction. The first part
/// begins where the area does, each other part where the one before it ends, and
/// the last part ends where the area does: gaps and overlaps weigh more in the
/// constraint solver than any length, and the middle part grows into what is
/// left. A `Min` weighs more than a `Length`, and a `Length` more than growing,
/// so the middle part has its length before the outer parts have theirs, and
/// these are never longer than that. If there is room for the three lengths, the
/// outer parts have theirs.
///
/// How the two outer parts share what room there is where they cannot both have
/// their lengths is not stated: the solver may then choose between several
/// solutions.
#[verifier::external_body]
fn split(area: Area, downwards: bool, first: u16, middle: u16, last: u16) -> (r: [Area; 3])
    requires
        middle <= i16::MAX,
    ensures
        forall|i: int|
            0 <= i < 3 ==> begin_of(#[trigger] r@[i], !downwards) == begin_of(area, !downwards)
                && length_of(r@[i], !downwards) == length_of(area, !downwards),
        begin_of(r@[0], downwards) == begin_of(area, downwards),
        begin_of(r@[1], downwards) == begin_of(r@[0], downwards) + length_of(r@[0], downwards),
        begin_of(r@[2], downwards) == begin_of(r@[1], downwards) + length_of(r@[1], downwards),
        end_of(area, downwards) == begin_of(r@[2], downwards) + length_of(r@[2], downwards),
        first + middle + last <= end_of(area, downwards) - begin_of(area, downwards) ==> length_of(
            r@[0],
            downwards,
        ) == first && length_of(r@[2], downwards) == last,
        length_of(r@[1], downwards) == middle_length(
            end_of(area, downwards) - begin_of(area, downwards),
            first as int,
            middle as int,
            last as int,
        ),
        length_of(r@[0], downwards) <= first,
        length_of(r@[2], downwards) <= last,
{
    let direction = if downwards { Direction::Vertical } else { Direction::Horizontal };
    let constraints = [Constraint::Length(first), Constraint::Min(middle), Constraint::Length(last)];
    let rect = Rect { x: area.x, y: area.y, width: area.width, height: area.height };
    let parts = Layout::default().direction(direction).constraints(constraints).split(rect);
    let part = |i: usize| Area {
        x: parts[i].x,
        y: parts[i].y,
        width: parts[i].width,
        height: parts[i].height,
    };
    [part(0), part(1), part(2)]
}

/// The panels of the interface.
#[derive(Debug, Clone, Copy, PartialEq, Eq, Structural)]
pub struct Panes {
    pub header: Area,
    pub timeline: Area,
    pub shell: Area,
    pub shell_inner: Area,
    pub detail: Area,
    pub status: Area,
}

/// `a` less `b`, or zero if `b` is more.
pub open spec fn less_by(a: int, b: int) -> int {
    if a < b {
        0
    } else {
        a - b
    }
}

/// `a` and `b` together, up to the end of the range of coordinates.
pub open spec fn plus_within(a: int, b: int) -> int {
    if a + b > u16::MAX {
        u16::MAX as int
    } else {
        a + b
    }
}

/// The area inside a border of one cell.
pub open spec fn is_inside(outer: Area, inner: Area) -> bool {
    inner.x == plus_within(outer.x as int, 1) && inner.y == plus_within(outer.y as int, 1)
        && inner.width == less_by(outer.width as int, 2) && inner.height == less_by(
        outer.height as int,
        2,
    )
}

/// The area inside a border of one cell.
pub fn inner(r: Area) -> (i: Area)
    ensures
        is_inside(r, i),
{
    Area {
        x: if r.x < u16::MAX {
            r.x + 1
        } else {
            u16::MAX
        },
        y: if r.y < u16::MAX {
            r.y + 1
        } else {
            u16::MAX
        },
        width: if r.width < 2 {
            0
        } else {
            r.width - 2
        },
        height: if r.height < 2 {
            0
        } else {
            r.height - 2
        },
    }
}

/// The panels, where `rows` are the rows of the screen and `columns` those of its
/// middle row.
pub fn panes(rows: &[Area; 3], columns: &[Area; 3]) -> (r: Panes)
    ensures
        r.header == rows@[0],
        r.timeline == columns@[0],
        r.shell == columns@[1],
        is_inside(columns@[1], r.shell_inner),
        r.detail == columns@[2],
        r.status == rows@[2],
{
    Panes {
        header: rows[0],
        timeline: columns[0],
        shell: columns[1],
        shell_inner: inner(columns[1]),
        detail: columns[2],
        status: rows[2],
    }
}

/// Whether the panels lie on the screen as they should. The header is above the
/// middle row and the status line below it, both as wide as the screen; in the
/// middle row the timeline is at the left, the shell beside it and the detail at
/// the right. Together they fill the screen.
pub open spec fn is_laid_out(area: Area, p: Panes) -> bool {
    &&& p.header.x == area.x && p.header.width == area.width
    &&& p.status.x == area.x && p.status.width == area.width
    &&& p.timeline.y == p.shell.y == p.detail.y
    &&& p.timeline.height == p.shell.height == p.detail.height
    &&& p.header.y == area.y
    &&& p.shell.y == p.header.y + p.header.height
    &&& p.status.y == p.shell.y + p.shell.height
    &&& p.status.y + p.status.height == end_of(area, true)
    &&& p.timeline.x == area.x
    &&& p.shell.x == p.timeline.x + p.timeline.width
    &&& p.detail.x == p.shell.x + p.shell.width
    &&& p.detail.x + p.detail.width == end_of(area, false)
    &&& is_inside(p.shell, p.shell_inner)
}

/// The panels on a screen: a header of one row, a status line of one row, and
/// between them the timeline of thirty columns, the shell of thirty at least and
/// the detail of forty-two.
///
/// On a screen of fewer than five rows the middle row has three of them before
/// the header and the status line have theirs, and on one of fewer than a hundred
/// and two columns the shell has thirty before the timeline and the detail have
/// theirs. How the two outer ones then share what is left is not stated.
pub fn layout(area: Area) -> (r: Panes)
    ensures
        is_laid_out(area, r),
        end_of(area, true) - area.y >= 5 ==> r.header.height == 1 && r.status.height == 1,
        end_of(area, false) - area.x >= 102 ==> r.timeline.width == 30 && r.detail.width == 42,
        r.shell.height == middle_length(end_of(area, true) - area.y, 1, 3, 1),
        r.header.height <= 1 && r.status.height <= 1,
        r.shell.width == middle_length(end_of(area, false) - area.x, 30, 30, 42),
        r.timeline.width <= 30 && r.detail.width <= 42,
{
    let rows = split(area, true, 1, 3, 1);
    let columns = split(rows[1], false, 30, 30, 42);
    panes(&rows, &columns)
}

/// An area of the given size in the middle of another, or as much of it as there
/// is room for.
pub fn centered(area: Area, width: u16, height: u16) -> (r: Area)
    requires
        area.x + less_by(area.width as int, width as int) / 2 <= u16::MAX,
        area.y + less_by(area.height as int, height as int) / 2 <= u16::MAX,
    ensures
        r.width == if width < area.width {
            width
        } else {
            area.width
        },
        r.height == if height < area.height {
            height
        } else {
            area.height
        },
        r.x == area.x + (area.width - r.width) / 2,
        r.y == area.y + (area.height - r.height) / 2,
{
    let w: u16 = if width < area.width {
        width
    } else {
        area.width
    };
    let h: u16 = if height < area.height {
        height
    } else {
        area.height
    };
    Area {
        x: area.x + (area.width - w) / 2,
        y: area.y + (area.height - h) / 2,
        width: w,
        height: h,
    }
}

/// Where the cursor stands on the screen when it stands in the given row and
/// column of the shell: nowhere unless keys go to the shell and nothing lies over
/// it, nor if it is hidden or out of sight.
pub fn cursor_at(app: &App, shell: Area, hidden: bool, row: u16, column: u16) -> (r: Option<
    (u16, u16),
>)
    ensures
        ({
            let x = plus_within(shell.x as int, column as int);
            let y = plus_within(shell.y as int, row as int);
            match r {
                Some((cx, cy)) => app.mode == Mode::Shell && app.overlay is Closed && !hidden && cx
                    == x && cy == y && x < plus_within(shell.x as int, shell.width as int) && y
                    < plus_within(shell.y as int, shell.height as int),
                None => !(app.mode == Mode::Shell && app.overlay is Closed && !hidden && x
                    < plus_within(shell.x as int, shell.width as int) && y < plus_within(
                    shell.y as int,
                    shell.height as int,
                )),
            }
        }),
{
    let open: bool = match app.overlay {
        Overlay::Closed => true,
        _ => false,
    };
    if app.mode != Mode::Shell || !open || hidden {
        return None;
    }
    let x: u16 = within(shell.x, column);
    let y: u16 = within(shell.y, row);
    if x < within(shell.x, shell.width) && y < within(shell.y, shell.height) {
        Some((x, y))
    } else {
        None
    }
}

fn within(a: u16, b: u16) -> (r: u16)
    ensures
        r == plus_within(a as int, b as int),
{
    if a > u16::MAX - b {
        u16::MAX
    } else {
        a + b
    }
}

// ---------------------------------------------------------------------------
// Pieces of text
// ---------------------------------------------------------------------------

/// How a piece of text looks.
#[derive(Debug, Clone, Copy, PartialEq, Eq, Structural)]
pub enum Tint {
    Plain,
    Bold,
    BoldYellow,
    Green,
    Red,
    Yellow,
    Cyan,
    Magenta,
    White,
    Gray,
    OnGreen,
    OnCyan,
}

/// A piece of text and how it looks.
#[derive(Debug, PartialEq, Eq)]
pub struct Piece {
    pub text: String,
    pub tint: Tint,
}

/// A piece of text as a sequence of characters.
pub struct PieceView {
    pub text: Seq<char>,
    pub tint: Tint,
}

impl View for Piece {
    type V = PieceView;

    open spec fn view(&self) -> PieceView {
        PieceView { text: self.text@, tint: self.tint }
    }
}

/// The views of a line of pieces.
pub open spec fn piece_views(v: Seq<Piece>) -> Seq<PieceView> {
    Seq::new(v.len(), |i: int| v[i]@)
}

/// A piece of text.
pub open spec fn piece(text: Seq<char>, tint: Tint) -> PieceView {
    PieceView { text, tint }
}

fn put(out: &mut Vec<Piece>, text: &str, tint: Tint)
    ensures
        piece_views(final(out)@) == piece_views(old(out)@).push(piece(text@, tint)),
{
    let ghost before = out@;
    out.push(Piece { text: text.to_string(), tint });
    proof {
        assert(piece_views(out@) =~= piece_views(before).push(piece(text@, tint)));
    }
}

/// The look of the word for the last test run.
pub open spec fn test_tint(status: Seq<char>) -> Tint {
    if status == "passed"@ {
        Tint::Green
    } else if status == "failed"@ {
        Tint::Red
    } else {
        Tint::Gray
    }
}

/// The header: the repository, whether the session is recorded, the last test
/// run, and how many files have changed if any has.
pub open spec fn header_text(s: AppView) -> Seq<PieceView> {
    seq![
        piece(" Rewind "@, Tint::Bold),
        piece("─ "@, Tint::Plain),
        piece(s.repo_name, Tint::Cyan),
        piece(" ─ "@, Tint::Plain),
        if s.recording {
            piece("recording"@, Tint::Green)
        } else {
            piece("paused"@, Tint::Yellow)
        },
        piece(" ─ last test: "@, Tint::Plain),
        piece(s.last_test_status, test_tint(s.last_test_status)),
    ] + (if s.dirty.len() == 0 {
        Seq::empty()
    } else {
        seq![
            piece(" ─ "@, Tint::Plain),
            piece(text::dec(s.dirty.len()) + " changed"@, Tint::Yellow),
        ]
    })
}

/// The header.
pub fn header(app: &App) -> (r: Vec<Piece>)
    ensures
        piece_views(r@) == header_text(app@),
{
    let mut out: Vec<Piece> = Vec::new();
    put(&mut out, " Rewind ", Tint::Bold);
    put(&mut out, "─ ", Tint::Plain);
    put(&mut out, app.repo_name.as_str(), Tint::Cyan);
    put(&mut out, " ─ ", Tint::Plain);
    if app.recording {
        put(&mut out, "recording", Tint::Green);
    } else {
        put(&mut out, "paused", Tint::Yellow);
    }
    put(&mut out, " ─ last test: ", Tint::Plain);
    let status = app.last_test_status.as_str();
    let tint = if text::same(status, "passed") {
        Tint::Green
    } else if text::same(status, "failed") {
        Tint::Red
    } else {
        Tint::Gray
    };
    put(&mut out, status, tint);
    let ghost first = piece_views(out@);
    let n: usize = app.dirty.len();
    if n > 0 {
        put(&mut out, " ─ ", Tint::Plain);
        let mut count = text::show_dec(n as u128);
        count.append(" changed");
        put(&mut out, count.as_str(), Tint::Yellow);
    }
    proof {
        assert(piece_views(out@) =~= header_text(app@));
    }
    out
}

/// The sign for a kind of event.
pub open spec fn glyph_of(kind: Seq<char>) -> Seq<char> {
    if kind == event_kind::SESSION_START@ {
        "▶"@
    } else if kind == event_kind::SESSION_END@ {
        "■"@
    } else if kind == event_kind::COMMAND@ {
        "$"@
    } else if kind == event_kind::TEST@ {
        "✓"@
    } else if kind == event_kind::SNAPSHOT@ {
        "◆"@
    } else if kind == event_kind::CHECKPOINT@ {
        "⚑"@
    } else if kind == event_kind::RESTORE@ {
        "↺"@
    } else if kind == event_kind::INVESTIGATION@ {
        "?"@
    } else {
        "·"@
    }
}

/// The sign for a kind of event.
pub fn glyph_for(kind: &str) -> (r: &'static str)
    ensures
        r@ == glyph_of(kind@),
{
    if text::same(kind, event_kind::SESSION_START) {
        "▶"
    } else if text::same(kind, event_kind::SESSION_END) {
        "■"
    } else if text::same(kind, event_kind::COMMAND) {
        "$"
    } else if text::same(kind, event_kind::TEST) {
        "✓"
    } else if text::same(kind, event_kind::SNAPSHOT) {
        "◆"
    } else if text::same(kind, event_kind::CHECKPOINT) {
        "⚑"
    } else if text::same(kind, event_kind::RESTORE) {
        "↺"
    } else if text::same(kind, event_kind::INVESTIGATION) {
        "?"
    } else {
        "·"
    }
}

/// The look of a kind of event.
pub open spec fn tint_of(kind: Seq<char>) -> Tint {
    if kind == event_kind::TEST@ {
        Tint::Green
    } else if kind == event_kind::INVESTIGATION@ {
        Tint::Yellow
    } else if kind == event_kind::RESTORE@ {
        Tint::Magenta
    } else if kind == event_kind::CHECKPOINT@ {
        Tint::Cyan
    } else {
        Tint::Plain
    }
}

/// The look of a kind of event.
pub fn style_for(kind: &str) -> (r: Tint)
    ensures
        r == tint_of(kind@),
{
    if text::same(kind, event_kind::TEST) {
        Tint::Green
    } else if text::same(kind, event_kind::INVESTIGATION) {
        Tint::Yellow
    } else if text::same(kind, event_kind::RESTORE) {
        Tint::Magenta
    } else if text::same(kind, event_kind::CHECKPOINT) {
        Tint::Cyan
    } else {
        Tint::Plain
    }
}

/// The time, sign and summary of an event, the summary cut to `max` characters.
pub open spec fn event_text(e: Event, max: nat) -> Seq<char> {
    util::clock_text(e.created_at as int) + " "@ + glyph_of(e.kind@) + " "@ + util::truncated(
        e.summary@,
        max,
    )
}

fn show_event(e: &Event, max: usize) -> (r: String)
    ensures
        r@ == event_text(*e, max as nat),
{
    let mut r = util::format_clock(e.created_at);
    r.append(" ");
    r.append(glyph_for(e.kind.as_str()));
    r.append(" ");
    let summary = util::truncate(e.summary.as_str(), max);
    r.append(summary.as_str());
    r
}

/// The rows of the timeline.
pub fn timeline(app: &App) -> (r: Vec<Piece>)
    ensures
        piece_views(r@) == Seq::new(
            app.events@.len(),
            |i: int| piece(event_text(app.events@[i], 22), tint_of(app.events@[i].kind@)),
        ),
{
    let ghost want = Seq::new(
        app.events@.len(),
        |i: int| piece(event_text(app.events@[i], 22), tint_of(app.events@[i].kind@)),
    );
    let mut out: Vec<Piece> = Vec::new();
    let mut i: usize = 0;
    proof {
        assert(piece_views(out@) =~= want.take(0));
    }
    while i < app.events.len()
        invariant
            i <= app.events@.len(),
            want == Seq::new(
                app.events@.len(),
                |i: int| piece(event_text(app.events@[i], 22), tint_of(app.events@[i].kind@)),
            ),
            piece_views(out@) == want.take(i as int),
        decreases app.events@.len() - i,
    {
        let e = &app.events[i];
        let row = show_event(e, 22);
        put(&mut out, row.as_str(), style_for(e.kind.as_str()));
        proof {
            assert(want.take(i + 1) =~= want.take(i as int).push(want[i as int]));
        }
        i += 1;
    }
    proof {
        assert(want.take(i as int) =~= want);
    }
    out
}

/// The look of the border of the timeline: bright if it gets the keys.
pub fn timeline_border(app: &App) -> (r: Tint)
    ensures
        r == if app.mode == Mode::Nav && app.focus == Focus::Timeline {
            Tint::Cyan
        } else {
            Tint::Gray
        },
{
    if app.mode == Mode::Nav && app.focus == Focus::Timeline {
        Tint::Cyan
    } else {
        Tint::Gray
    }
}

/// The look of the border of the detail: bright if it gets the keys.
pub fn detail_border(app: &App) -> (r: Tint)
    ensures
        r == if app.mode == Mode::Nav && app.focus == Focus::Detail {
            Tint::Cyan
        } else {
            Tint::Gray
        },
{
    if app.mode == Mode::Nav && app.focus == Focus::Detail {
        Tint::Cyan
    } else {
        Tint::Gray
    }
}

/// The look of the border of the shell and its title.
pub fn shell_border(app: &App) -> (r: (Tint, &'static str))
    ensures
        r.0 == if app.mode == Mode::Shell {
            Tint::Green
        } else {
            Tint::Gray
        },
        r.1@ == if app.shell_alive {
            " Embedded Shell "@
        } else {
            " Embedded Shell (exited) "@
        },
{
    let tint = if app.mode == Mode::Shell {
        Tint::Green
    } else {
        Tint::Gray
    };
    let title = if app.shell_alive {
        " Embedded Shell "
    } else {
        " Embedded Shell (exited) "
    };
    (tint, title)
}

/// The status line on `width` columns: the mode, the status as far as there is
/// room for it, and a hint.
pub open spec fn status_text(s: AppView, width: int) -> Seq<PieceView> {
    seq![
        if s.mode == Mode::Shell {
            piece(" SHELL "@, Tint::OnGreen)
        } else {
            piece(" NAV "@, Tint::OnCyan)
        },
        piece(" "@, Tint::Plain),
        piece(util::truncated(s.status, less_by(width, 24) as nat), Tint::White),
        piece("  "@, Tint::Plain),
        piece(
            if s.mode == Mode::Shell {
                "Ctrl+G nav · keys go to shell"@
            } else {
                "Ctrl+G shell · j/k move · Enter open · t test · c checkpoint · r restore · u undo · / search · ? help · q quit"@
            },
            Tint::Gray,
        ),
    ]
}

/// The status line on `width` columns.
pub fn status_line(app: &App, width: u16) -> (r: Vec<Piece>)
    ensures
        piece_views(r@) == status_text(app@, width as int),
{
    let mut out: Vec<Piece> = Vec::new();
    if app.mode == Mode::Shell {
        put(&mut out, " SHELL ", Tint::OnGreen);
    } else {
        put(&mut out, " NAV ", Tint::OnCyan);
    }
    put(&mut out, " ", Tint::Plain);
    let room: usize = if width < 24 {
        0
    } else {
        (width - 24) as usize
    };
    let status = util::truncate(app.status.as_str(), room);
    put(&mut out, status.as_str(), Tint::White);
    put(&mut out, "  ", Tint::Plain);
    if app.mode == Mode::Shell {
        put(&mut out, "Ctrl+G nav · keys go to shell", Tint::Gray);
    } else {
        put(
            &mut out,
            "Ctrl+G shell · j/k move · Enter open · t test · c checkpoint · r restore · u undo · / search · ? help · q quit",
            Tint::Gray,
        );
    }
    proof {
        assert(piece_views(out@) =~= status_text(app@, width as int));
    }
    out
}

/// The help.
pub fn help_lines() -> (r: [(&'static str, Tint); 19])
    ensures
        r@ == seq![
            ("Rewind — keyboard help", Tint::Bold),
            ("", Tint::Plain),
            ("Ctrl+G      toggle Shell / Navigation modes", Tint::Plain),
            ("", Tint::Plain),
            ("Navigation mode:", Tint::Bold),
            ("  j / ↓        move selection down", Tint::Plain),
            ("  k / ↑        move selection up", Tint::Plain),
            ("  g / G        jump to first / last event", Tint::Plain),
            ("  Tab          switch focus (timeline / detail)", Tint::Plain),
            ("  Enter        open the selected event's detail", Tint::Plain),
            ("  t            run the configured test command", Tint::Plain),
            ("  c            create a checkpoint snapshot", Tint::Plain),
            ("  r            restore the selected snapshot", Tint::Plain),
            ("  u            undo the last restore", Tint::Plain),
            ("  /            search events", Tint::Plain),
            ("  ?            toggle this help", Tint::Plain),
            ("  q            quit Rewind", Tint::Plain),
            ("", Tint::Plain),
            ("Press ? or Esc to close.", Tint::Gray),
        ],
{
    let r = [
        ("Rewind — keyboard help", Tint::Bold),
        ("", Tint::Plain),
        ("Ctrl+G      toggle Shell / Navigation modes", Tint::Plain),
        ("", Tint::Plain),
        ("Navigation mode:", Tint::Bold),
        ("  j / ↓        move selection down", Tint::Plain),
        ("  k / ↑        move selection up", Tint::Plain),
        ("  g / G        jump to first / last event", Tint::Plain),
        ("  Tab          switch focus (timeline / detail)", Tint::Plain),
        ("  Enter        open the selected event's detail", Tint::Plain),
        ("  t            run the configured test command", Tint::Plain),
        ("  c            create a checkpoint snapshot", Tint::Plain),
        ("  r            restore the selected snapshot", Tint::Plain),
        ("  u            undo the last restore", Tint::Plain),
        ("  /            search events", Tint::Plain),
        ("  ?            toggle this help", Tint::Plain),
        ("  q            quit Rewind", Tint::Plain),
        ("", Tint::Plain),
        ("Press ? or Esc to close.", Tint::Gray),
    ];
    r
}

/// The lines below the input of the search: the first fourteen that were found,
/// or a hint.
pub open spec fn found_text(results: Seq<Event>) -> Seq<PieceView> {
    if results.len() == 0 {
        seq![piece("type to search the timeline; Enter to run, Esc to close"@, Tint::Gray)]
    } else {
        Seq::new(
            ci::at_most(results, 14).len(),
            |i: int| piece(event_text(results[i], 56), Tint::Plain),
        )
    }
}

/// The lines below the input of the search.
pub fn found_lines(results: &Vec<Event>) -> (r: Vec<Piece>)
    ensures
        piece_views(r@) == found_text(results@),
{
    let mut out: Vec<Piece> = Vec::new();
    let ghost want = found_text(results@);
    if results.len() == 0 {
        put(&mut out, "type to search the timeline; Enter to run, Esc to close", Tint::Gray);
        proof {
            assert(piece_views(out@) =~= want);
        }
        return out;
    }
    let n: usize = if results.len() <= 14 {
        results.len()
    } else {
        14
    };
    proof {
        assert(piece_views(out@) =~= want.take(0));
    }
    let mut i: usize = 0;
    while i < n
        invariant
            i <= n <= results@.len(),
            want.len() == n,
            forall|j: int|
                0 <= j < n ==> #[trigger] want[j] == piece(
                    event_text(results@[j], 56),
                    Tint::Plain,
                ),
            piece_views(out@) == want.take(i as int),
        decreases n - i,
    {
        let row = show_event(&results[i], 56);
        put(&mut out, row.as_str(), Tint::Plain);
        proof {
            assert(want.take(i + 1) =~= want.take(i as int).push(want[i as int]));
        }
        i += 1;
    }
    proof {
        assert(want.take(i as int) =~= want);
    }
    out
}

/// The lines of the first four files of a part of a plan.
pub open spec fn some_of(word: Seq<char>, paths: Seq<Seq<char>>) -> Seq<Seq<char>> {
    cli::started_with(word, ci::at_most(paths, 4))
}

/// The lines on the restore that waits to be confirmed.
pub open spec fn confirm_text(id: int, plan: restore::PlanView) -> Seq<Seq<char>> {
    seq![
        "Snapshot #"@ + text::dec_signed(id),
        "  "@ + text::dec(plan.create.len() + plan.overwrite.len()) + " to write, "@ + text::dec(
            plan.delete.len(),
        ) + " to delete"@,
        ""@,
    ] + some_of("  + "@, restore::paths_of(plan.create)) + some_of(
        "  ~ "@,
        restore::paths_of(plan.overwrite),
    ) + some_of("  - "@, plan.delete) + seq![""@]
}

fn push_some_entries(out: &mut Vec<String>, word: &str, entries: &Vec<PlanEntry>)
    ensures
        text::texts(final(out)@) == text::texts(old(out)@) + some_of(
            word@,
            restore::paths_of(restore::entry_views(entries@)),
        ),
{
    let n: usize = if entries.len() <= 4 {
        entries.len()
    } else {
        4
    };
    let ghost before = text::texts(out@);
    let ghost want = some_of(word@, restore::paths_of(restore::entry_views(entries@)));
    proof {
        assert(before + want.take(0) =~= before);
    }
    let mut i: usize = 0;
    while i < n
        invariant
            i <= n <= entries@.len(),
            want.len() == n,
            forall|j: int| 0 <= j < n ==> #[trigger] want[j] == word@ + entries@[j].path@,
            text::texts(out@) == before + want.take(i as int),
        decreases n - i,
    {
        let mut line = word.to_string();
        line.append(entries[i].path.as_str());
        text::push_line(out, line);
        proof {
            assert(before + want.take(i + 1) =~= (before + want.take(i as int)).push(
                want[i as int],
            ));
        }
        i += 1;
    }
    proof {
        assert(want.take(i as int) =~= want);
    }
}

fn push_some_paths(out: &mut Vec<String>, word: &str, paths: &Vec<String>)
    ensures
        text::texts(final(out)@) == text::texts(old(out)@) + some_of(word@, text::texts(paths@)),
{
    let n: usize = if paths.len() <= 4 {
        paths.len()
    } else {
        4
    };
    let ghost before = text::texts(out@);
    let ghost want = some_of(word@, text::texts(paths@));
    proof {
        assert(before + want.take(0) =~= before);
    }
    let mut i: usize = 0;
    while i < n
        invariant
            i <= n <= paths@.len(),
            want.len() == n,
            forall|j: int| 0 <= j < n ==> #[trigger] want[j] == word@ + paths@[j]@,
            text::texts(out@) == before + want.take(i as int),
        decreases n - i,
    {
        let mut line = word.to_string();
        line.append(paths[i].as_str());
        text::push_line(out, line);
        proof {
            assert(before + want.take(i + 1) =~= (before + want.take(i as int)).push(
                want[i as int],
            ));
        }
        i += 1;
    }
    proof {
        assert(want.take(i as int) =~= want);
    }
}

/// The lines on the restore that waits to be confirmed.
pub fn confirm_lines(snapshot_id: i64, plan: &RestorePlan) -> (r: Vec<String>)
    ensures
        text::texts(r@) == confirm_text(snapshot_id as int, plan@),
{
    let mut out: Vec<String> = Vec::new();
    let mut head = "Snapshot #".to_string();
    text::push_signed(&mut head, snapshot_id);
    text::push_line(&mut out, head);
    let mut count = "  ".to_string();
    text::push_dec(&mut count, plan.create.len() as u128 + plan.overwrite.len() as u128);
    count.append(" to write, ");
    text::push_dec(&mut count, plan.delete.len() as u128);
    count.append(" to delete");
    text::push_line(&mut out, count);
    text::push_line(&mut out, "".to_string());
    proof {
        assert(text::texts(out@) =~= seq![head@, count@, ""@]);
    }
    push_some_entries(&mut out, "  + ", &plan.create);
    push_some_entries(&mut out, "  ~ ", &plan.overwrite);
    push_some_paths(&mut out, "  - ", &plan.delete);
    let ghost before = text::texts(out@);
    text::push_line(&mut out, "".to_string());
    proof {
        assert(before.push(""@) =~= before + seq![""@]);
    }
    out
}

} // verus!
