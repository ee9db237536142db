//! The state of the interface and what the keys do to it.
//!
//! A key changes the state and may ask for an action. Whoever runs the interface
//! carries the action out and hands back what came of it.

use vstd::prelude::*;

use crate::models::event_kind;
use crate::models::Event;
use crate::models::Restore;
use crate::models::Snapshot;
use crate::models::TestRun;
use crate::restore::RestorePlan;
use crate::restore::RestoreStats;
use crate::text;
use crate::text_map::TextSet;
use crate::tui::detail;
use crate::tui::detail::Detail;
use crate::tui::detail::DetailRequest;
use crate::tui::detail::DetailView;
use crate::tui::keys;
use crate::tui::keys::Key;
use crate::tui::keys::KeyPress;
use crate::util;

verus! {

/// Where keys go.
#[derive(Debug, Clone, Copy, PartialEq, Eq, Structural)]
pub enum Mode {
    /// To the embedded shell.
    Shell,
    /// To the interface itself.
    Nav,
}

/// The panel that navigation keys act on.
#[derive(Debug, Clone, Copy, PartialEq, Eq, Structural)]
pub enum Focus {
    Timeline,
    Detail,
}

/// What lies over the panels.
#[derive(Debug, PartialEq, Eq)]
pub enum Overlay {
    Closed,
    Help,
    Search,
    ConfirmRestore,
    Message(String),
}

/// What lies over the panels, as a sequence of characters where it is a message.
pub enum OverlayView {
    Closed,
    Help,
    Search,
    ConfirmRestore,
    Message(Seq<char>),
}

impl View for Overlay {
    type V = OverlayView;

    open spec fn view(&self) -> OverlayView {
        match self {
            Overlay::Closed => OverlayView::Closed,
            Overlay::Help => OverlayView::Help,
            Overlay::Search => OverlayView::Search,
            Overlay::ConfirmRestore => OverlayView::ConfirmRestore,
            Overlay::Message(s) => OverlayView::Message(s@),
        }
    }
}

/// The state of the interface.
pub struct App {
    pub mode: Mode,
    pub focus: Focus,
    pub overlay: Overlay,
    pub should_quit: bool,
    pub repo_name: String,
    pub recording: bool,
    pub events: Vec<Event>,
    pub selected: usize,
    pub detail: Detail,
    pub status: String,
    /// The files that changed since the last snapshot.
    pub dirty: TextSet,
    pub shell_alive: bool,
    pub last_test_status: String,
    pub search_input: String,
    pub search_results: Vec<Event>,
    /// The snapshot and the plan of the restore that waits to be confirmed.
    pub pending_restore: Option<(i64, RestorePlan)>,
}

/// The state of the interface with its texts as sequences of characters.
#[verifier::ext_equal]
pub struct AppView {
    pub mode: Mode,
    pub focus: Focus,
    pub overlay: OverlayView,
    pub should_quit: bool,
    pub repo_name: Seq<char>,
    pub recording: bool,
    pub events: Seq<Event>,
    pub selected: int,
    pub detail: DetailView,
    pub status: Seq<char>,
    pub dirty: Set<Seq<char>>,
    pub shell_alive: bool,
    pub last_test_status: Seq<char>,
    pub search_input: Seq<char>,
    pub search_results: Seq<Event>,
    pub pending_restore: Option<(i64, RestorePlan)>,
}

impl View for App {
    type V = AppView;

    open spec fn view(&self) -> AppView {
        AppView {
            mode: self.mode,
            focus: self.focus,
            overlay: self.overlay@,
            should_quit: self.should_quit,
            repo_name: self.repo_name@,
            recording: self.recording,
            events: self.events@,
            selected: self.selected as int,
            detail: self.detail@,
            status: self.status@,
            dirty: self.dirty@.dom(),
            shell_alive: self.shell_alive,
            last_test_status: self.last_test_status@,
            search_input: self.search_input@,
            search_results: self.search_results@,
            pending_restore: self.pending_restore,
        }
    }
}

/// What a key asks for.
#[derive(Debug, PartialEq, Eq)]
pub enum Action {
    Nothing,
    /// To send bytes to the shell.
    Send(Vec<u8>),
    /// To show the detail of the selected event anew.
    ShowDetail,
    /// To search the timeline.
    Search(String),
    /// To create a checkpoint.
    Checkpoint,
    /// To plan the restore of a snapshot.
    PlanRestore(i64),
    /// To carry out a restore.
    Restore(i64, RestorePlan),
    /// To undo the last restore.
    Undo,
    /// To run the test command.
    Test,
}

/// What a key asks for, as sequences.
pub enum ActionView {
    Nothing,
    Send(Seq<u8>),
    ShowDetail,
    Search(Seq<char>),
    Checkpoint,
    PlanRestore(int),
    Restore(i64, RestorePlan),
    Undo,
    Test,
}

impl View for Action {
    type V = ActionView;

    open spec fn view(&self) -> ActionView {
        match self {
            Action::Nothing => ActionView::Nothing,
            Action::Send(v) => ActionView::Send(v@),
            Action::ShowDetail => ActionView::ShowDetail,
            Action::Search(s) => ActionView::Search(s@),
            Action::Checkpoint => ActionView::Checkpoint,
            Action::PlanRestore(id) => ActionView::PlanRestore(*id as int),
            Action::Restore(id, plan) => ActionView::Restore(*id, *plan),
            Action::Undo => ActionView::Undo,
            Action::Test => ActionView::Test,
        }
    }
}

// ---------------------------------------------------------------------------
// The state and its changes
// ---------------------------------------------------------------------------

impl AppView {
    /// Whether the selection lies among the events, or at the start if there are
    /// none.
    pub open spec fn well_formed(self) -> bool {
        0 <= self.selected && (self.selected < self.events.len() || self.selected == 0)
    }

    /// The selected event, if there is one.
    pub open spec fn selected_event(self) -> Option<Event> {
        if 0 <= self.selected < self.events.len() {
            Some(self.events[self.selected])
        } else {
            None
        }
    }

    /// The place of the last event, or the start if there are none.
    pub open spec fn last_place(self) -> int {
        if self.events.len() == 0 {
            0
        } else {
            self.events.len() - 1
        }
    }
}

/// The state at the start.
pub open spec fn at_start(repo_name: Seq<char>) -> AppView {
    AppView {
        mode: Mode::Shell,
        focus: Focus::Timeline,
        overlay: OverlayView::Closed,
        should_quit: false,
        repo_name,
        recording: true,
        events: Seq::empty(),
        selected: 0,
        detail: detail::top_of(""@, Seq::empty()),
        status: "Ctrl+G: navigation · type to use the shell"@,
        dirty: Set::empty(),
        shell_alive: true,
        last_test_status: "none"@,
        search_input: Seq::empty(),
        search_results: Seq::empty(),
        pending_restore: None,
    }
}

/// The word for the last test run.
pub open spec fn last_test_word(run: Option<TestRun>) -> Seq<char> {
    match run {
        Some(t) => if t.cancelled {
            "cancelled"@
        } else {
            match t.passed {
                Some(true) => "passed"@,
                Some(false) => "failed"@,
                None => "incomplete"@,
            }
        },
        None => "none"@,
    }
}

/// The state with `events` in the timeline. A selection beyond them falls on the
/// last.
pub open spec fn refreshed(s: AppView, events: Seq<Event>, run: Option<TestRun>) -> AppView {
    AppView {
        events,
        selected: if s.selected < events.len() {
            s.selected
        } else if events.len() == 0 {
            0
        } else {
            events.len() - 1
        },
        last_test_status: last_test_word(run),
        ..s
    }
}

impl App {
    /// The state at the start.
    pub fn new(repo_name: String) -> (r: App)
        ensures
            r@ == at_start(repo_name@),
            r@.well_formed(),
    {
        let r = App {
            mode: Mode::Shell,
            focus: Focus::Timeline,
            overlay: Overlay::Closed,
            should_quit: false,
            repo_name,
            recording: true,
            events: Vec::new(),
            selected: 0,
            detail: Detail::default(),
            status: "Ctrl+G: navigation · type to use the shell".to_string(),
            dirty: TextSet::new(),
            shell_alive: true,
            last_test_status: "none".to_string(),
            search_input: String::new(),
            search_results: Vec::new(),
            pending_restore: None,
        };
        proof {
            assert(r@ =~= at_start(r.repo_name@));
        }
        r
    }

    /// Puts `events` into the timeline. A selection beyond them falls on the
    /// last.
    pub fn refresh(&mut self, events: Vec<Event>, last_run: Option<&TestRun>)
        ensures
            final(self)@ == refreshed(
                old(self)@,
                events@,
                match last_run {
                    Some(t) => Some(*t),
                    None => None,
                },
            ),
            final(self)@.well_formed(),
    {
        self.events = events;
        if self.selected >= self.events.len() {
            self.selected = if self.events.len() == 0 {
                0
            } else {
                self.events.len() - 1
            };
        }
        self.last_test_status = match last_run {
            Some(t) => if t.cancelled {
                "cancelled".to_string()
            } else {
                match t.passed {
                    Some(passed) => if passed {
                        "passed".to_string()
                    } else {
                        "failed".to_string()
                    },
                    None => "incomplete".to_string(),
                }
            },
            None => "none".to_string(),
        };
    }

    /// The selected event, if there is one.
    pub fn selected_event(&self) -> (r: Option<&Event>)
        ensures
            match r {
                Some(e) => self@.selected_event() == Some(*e),
                None => self@.selected_event() is None,
            },
    {
        if self.selected < self.events.len() {
            Some(&self.events[self.selected])
        } else {
            None
        }
    }

    /// Moves the selection up by one event, unless it is at the first.
    pub fn select_prev(&mut self)
        ensures
            final(self)@ == (AppView {
                selected: if old(self)@.selected > 0 {
                    old(self)@.selected - 1
                } else {
                    old(self)@.selected
                },
                ..old(self)@
            }),
    {
        if self.selected > 0 {
            self.selected = self.selected - 1;
        }
    }

    /// Moves the selection down by one event, unless it is at the last.
    pub fn select_next(&mut self)
        ensures
            final(self)@ == (AppView {
                selected: if old(self)@.selected + 1 < old(self)@.events.len() {
                    old(self)@.selected + 1
                } else {
                    old(self)@.selected
                },
                ..old(self)@
            }),
    {
        if self.selected < self.events.len() && self.selected + 1 < self.events.len() {
            self.selected = self.selected + 1;
        }
    }

    /// Selects the first event.
    pub fn select_first(&mut self)
        ensures
            final(self)@ == (AppView { selected: 0, ..old(self)@ }),
    {
        self.selected = 0;
    }

    /// Selects the last event.
    pub fn select_last(&mut self)
        ensures
            final(self)@ == (AppView { selected: old(self)@.last_place(), ..old(self)@ }),
    {
        self.selected = if self.events.len() == 0 {
            0
        } else {
            self.events.len() - 1
        };
    }

    /// What has to be shown of the selected event.
    pub fn recompute_detail(&self) -> (r: DetailRequest)
        ensures
            r@ == detail::request_of(self@.selected_event()),
    {
        detail::request(self.selected_event())
    }

    /// Shows `detail`.
    pub fn show_detail(&mut self, detail: Detail)
        ensures
            final(self)@ == (AppView { detail: detail@, ..old(self)@ }),
    {
        self.detail = detail;
    }

    /// Adds changed files.
    pub fn mark_dirty(&mut self, paths: Vec<String>)
        ensures
            final(self)@ == (AppView {
                dirty: old(self)@.dirty.union(text::texts(paths@).to_set()),
                ..old(self)@
            }),
    {
        let ghost before = self.dirty@.dom();
        let mut i: usize = 0;
        let ghost all = text::texts(paths@);
        proof {
            assert(before.union(all.take(0).to_set()) =~= before);
        }
        while i < paths.len()
            invariant
                i <= paths@.len(),
                all == text::texts(paths@),
                self@ == (AppView {
                    dirty: before.union(all.take(i as int).to_set()),
                    ..old(self)@
                }),
            decreases paths@.len() - i,
        {
            let ghost so_far = self.dirty@.dom();
            self.dirty.insert(paths[i].clone(), ());
            proof {
                lemma_add_to_set(all, i as int);
                assert(self.dirty@.dom() =~= so_far.insert(all[i as int]));
                assert(self.dirty@.dom() =~= before.union(all.take(i + 1).to_set()));
            }
            i += 1;
        }
        proof {
            assert(all.take(i as int) =~= all);
        }
    }
}

proof fn lemma_add_to_set(all: Seq<Seq<char>>, i: int)
    requires
        0 <= i < all.len(),
    ensures
        all.take(i + 1).to_set() == all.take(i).to_set().insert(all[i]),
{
    let a = all.take(i + 1);
    let b = all.take(i);
    assert forall|x: Seq<char>| a.to_set().contains(x) == b.to_set().insert(all[i]).contains(x) by {
        if a.contains(x) {
            let j = choose|j: int| 0 <= j < a.len() && a[j] == x;
            if j < i {
                assert(b[j] == x);
            }
        }
        if b.contains(x) {
            let j = choose|j: int| 0 <= j < b.len() && b[j] == x;
            assert(a[j] == x);
        }
        if x == all[i] {
            assert(a[i] == x);
        }
    }
    assert(a.to_set() =~= b.to_set().insert(all[i]));
}

// ---------------------------------------------------------------------------
// What came of the actions
// ---------------------------------------------------------------------------

impl App {
    /// Tells of a new checkpoint.
    pub fn checkpoint(&mut self, snapshot: &Snapshot)
        ensures
            final(self)@ == (AppView {
                status: "Checkpoint #"@ + text::dec_signed(snapshot.id as int) + " created ("@
                    + text::dec_signed(snapshot.file_count as int) + " files)"@,
                ..old(self)@
            }),
    {
        let mut s = "Checkpoint #".to_string();
        text::push_signed(&mut s, snapshot.id);
        s.append(" created (");
        text::push_signed(&mut s, snapshot.file_count);
        s.append(" files)");
        self.status = s;
    }

    /// Puts a planned restore up for confirmation, unless there is nothing to
    /// restore. Tells whether it did.
    pub fn begin_restore_selected(&mut self, snapshot_id: i64, plan: RestorePlan) -> (r: bool)
        ensures
            r == !(plan.create@.len() == 0 && plan.overwrite@.len() == 0 && plan.delete@.len()
                == 0),
            final(self)@ == if r {
                AppView {
                    pending_restore: Some((snapshot_id, plan)),
                    overlay: OverlayView::ConfirmRestore,
                    ..old(self)@
                }
            } else {
                AppView { status: "Working tree already matches that snapshot."@, ..old(self)@ }
            },
    {
        if plan.is_empty() {
            self.status = "Working tree already matches that snapshot.".to_string();
            return false;
        }
        self.pending_restore = Some((snapshot_id, plan));
        self.overlay = Overlay::ConfirmRestore;
        true
    }

    /// Tells of a restore.
    pub fn confirm_restore(&mut self, snapshot_id: i64, stats: &RestoreStats)
        ensures
            final(self)@ == (AppView {
                status: "Restored snapshot #"@ + text::dec_signed(snapshot_id as int) + ": "@
                    + text::dec(stats.written as nat) + " written, "@ + text::dec(
                    stats.deleted as nat,
                ) + " deleted. `u`ndo available."@,
                ..old(self)@
            }),
    {
        let mut s = "Restored snapshot #".to_string();
        text::push_signed(&mut s, snapshot_id);
        s.append(": ");
        text::push_dec(&mut s, stats.written as u128);
        s.append(" written, ");
        text::push_dec(&mut s, stats.deleted as u128);
        s.append(" deleted. `u`ndo available.");
        self.status = s;
    }

    /// Tells of an undone restore, or that there was none.
    pub fn undo_last_restore(&mut self, undone: Option<(&Restore, &RestoreStats)>)
        ensures
            final(self)@ == (AppView {
                status: match undone {
                    Some((record, stats)) => "Undid restore #"@ + text::dec_signed(record.id as int)
                        + ": "@ + text::dec(stats.written as nat) + " written, "@ + text::dec(
                        stats.deleted as nat,
                    ) + " deleted."@,
                    None => "No restore to undo."@,
                },
                ..old(self)@
            }),
    {
        match undone {
            Some((record, stats)) => {
                let mut s = "Undid restore #".to_string();
                text::push_signed(&mut s, record.id);
                s.append(": ");
                text::push_dec(&mut s, stats.written as u128);
                s.append(" written, ");
                text::push_dec(&mut s, stats.deleted as u128);
                s.append(" deleted.");
                self.status = s;
            },
            None => {
                self.status = "No restore to undo.".to_string();
            },
        }
    }

    /// Tells of a test run.
    pub fn tested(&mut self, passed: bool, duration_ms: u64)
        ensures
            final(self)@ == (AppView {
                status: "test "@ + (if passed {
                    "passed"@
                } else {
                    "failed"@
                }) + " in "@ + util::duration_text(duration_ms as int),
                ..old(self)@
            }),
    {
        let mut s = "test ".to_string();
        if passed {
            s.append("passed");
        } else {
            s.append("failed");
        }
        s.append(" in ");
        let d = util::format_duration_ms(duration_ms);
        s.append(d.as_str());
        self.status = s;
    }

    /// Shows what a search found.
    pub fn found(&mut self, results: Vec<Event>)
        ensures
            final(self)@ == (AppView { search_results: results@, ..old(self)@ }),
    {
        self.search_results = results;
    }

    /// Takes all files as unchanged, as a snapshot holds them.
    pub fn all_clean(&mut self)
        ensures
            final(self)@ == (AppView { dirty: Set::empty(), ..old(self)@ }),
    {
        self.dirty = TextSet::new();
        proof {
            assert(self.dirty@.dom() =~= Set::<Seq<char>>::empty());
        }
    }
}

// ---------------------------------------------------------------------------
// Searching
// ---------------------------------------------------------------------------

/// A search for what has been typed. Blank input finds nothing.
pub open spec fn search_step(s: AppView) -> (AppView, ActionView) {
    let query = text::trimmed(s.search_input);
    if query.len() == 0 {
        (AppView { search_results: Seq::empty(), ..s }, ActionView::Nothing)
    } else {
        (s, ActionView::Search(query))
    }
}

impl App {
    /// Searches for what has been typed. Blank input finds nothing.
    pub fn run_search(&mut self) -> (r: Action)
        ensures
            (final(self)@, r@) == search_step(old(self)@),
    {
        let query = text::trim(self.search_input.as_str()).to_string();
        if query.as_str().is_empty() {
            self.search_results = Vec::new();
            proof {
                assert(self.search_results@ =~= Seq::<Event>::empty());
            }
            Action::Nothing
        } else {
            Action::Search(query)
        }
    }
}

/// What a key does while the search is open.
pub open spec fn search_key(s: AppView, k: Key) -> (AppView, ActionView) {
    match k {
        Key::Esc => (
            AppView {
                search_input: Seq::empty(),
                search_results: Seq::empty(),
                overlay: OverlayView::Closed,
                ..s
            },
            ActionView::Nothing,
        ),
        Key::Enter => search_step(s),
        Key::Backspace => search_step(
            AppView {
                search_input: if s.search_input.len() == 0 {
                    s.search_input
                } else {
                    s.search_input.drop_last()
                },
                ..s
            },
        ),
        Key::Char(c) => search_step(AppView { search_input: s.search_input.push(c), ..s }),
        _ => (s, ActionView::Nothing),
    }
}

fn without_last(s: &str) -> (r: String)
    ensures
        r@ == if s@.len() == 0 {
            s@
        } else {
            s@.drop_last()
        },
{
    let n: usize = s.unicode_len();
    if n == 0 {
        s.to_string()
    } else {
        let t = s.substring_char(0, n - 1);
        proof {
            assert(s@.subrange(0, n - 1) =~= s@.drop_last());
        }
        t.to_string()
    }
}

/// What a key does while the search is open.
pub fn handle_search_key(app: &mut App, key: Key) -> (r: Action)
    ensures
        (final(app)@, r@) == search_key(old(app)@, key),
{
    match key {
        Key::Esc => {
            app.search_input = String::new();
            app.search_results = Vec::new();
            app.overlay = Overlay::Closed;
            proof {
                assert(app.search_input@ =~= Seq::<char>::empty());
                assert(app.search_results@ =~= Seq::<Event>::empty());
            }
            Action::Nothing
        },
        Key::Enter => app.run_search(),
        Key::Backspace => {
            let shorter = without_last(app.search_input.as_str());
            app.search_input = shorter;
            app.run_search()
        },
        Key::Char(c) => {
            app.search_input.push(c);
            app.run_search()
        },
        _ => Action::Nothing,
    }
}

// ---------------------------------------------------------------------------
// Keys
// ---------------------------------------------------------------------------

/// What the message says if there is no test command.
pub open spec fn no_test_message() -> Seq<char> {
    "No test command configured.\nAdd `test_command = \"...\"` to .rewind.toml, then press `t` again."@
}

/// What the key `r` does: only a snapshot or a checkpoint can be restored.
pub open spec fn restore_key(s: AppView) -> (AppView, ActionView) {
    match s.selected_event() {
        Some(e) => if e.kind@ != event_kind::SNAPSHOT@ && e.kind@ != event_kind::CHECKPOINT@ {
            (
                AppView { status: "Select a snapshot or checkpoint to restore."@, ..s },
                ActionView::Nothing,
            )
        } else {
            match e.ref_id {
                Some(id) => (s, ActionView::PlanRestore(id as int)),
                None => (s, ActionView::Nothing),
            }
        },
        None => (s, ActionView::Nothing),
    }
}

/// What a key does while nothing lies over the panels.
pub open spec fn main_key(s: AppView, k: Key, has_test: bool) -> (AppView, ActionView) {
    if k == Key::Char('q') {
        (AppView { should_quit: true, ..s }, ActionView::Nothing)
    } else if k == Key::Char('?') {
        (AppView { overlay: OverlayView::Help, ..s }, ActionView::Nothing)
    } else if k == Key::Char('/') {
        (
            AppView {
                search_input: Seq::empty(),
                search_results: Seq::empty(),
                overlay: OverlayView::Search,
                ..s
            },
            ActionView::Nothing,
        )
    } else if k == Key::Tab {
        (
            AppView {
                focus: if s.focus == Focus::Timeline {
                    Focus::Detail
                } else {
                    Focus::Timeline
                },
                ..s
            },
            ActionView::Nothing,
        )
    } else if k == Key::Char('j') || k == Key::Down {
        if s.focus == Focus::Detail {
            (scrolled(s, 1), ActionView::Nothing)
        } else {
            (
                AppView {
                    selected: if s.selected + 1 < s.events.len() {
                        s.selected + 1
                    } else {
                        s.selected
                    },
                    ..s
                },
                ActionView::ShowDetail,
            )
        }
    } else if k == Key::Char('k') || k == Key::Up {
        if s.focus == Focus::Detail {
            (scrolled(s, -1), ActionView::Nothing)
        } else {
            (
                AppView {
                    selected: if s.selected > 0 {
                        s.selected - 1
                    } else {
                        s.selected
                    },
                    ..s
                },
                ActionView::ShowDetail,
            )
        }
    } else if k == Key::Char('g') {
        (AppView { selected: 0, ..s }, ActionView::ShowDetail)
    } else if k == Key::Char('G') {
        (AppView { selected: s.last_place(), ..s }, ActionView::ShowDetail)
    } else if k == Key::Enter {
        (AppView { focus: Focus::Detail, ..s }, ActionView::ShowDetail)
    } else if k == Key::Char('c') {
        (s, ActionView::Checkpoint)
    } else if k == Key::Char('r') {
        restore_key(s)
    } else if k == Key::Char('u') {
        (s, ActionView::Undo)
    } else if k == Key::Char('t') {
        if has_test {
            (AppView { status: "Running test…"@, ..s }, ActionView::Test)
        } else {
            (AppView { overlay: OverlayView::Message(no_test_message()), ..s }, ActionView::Nothing)
        }
    } else {
        (s, ActionView::Nothing)
    }
}

/// The state with the detail scrolled by `by` lines, as far as that goes.
pub open spec fn scrolled(s: AppView, by: int) -> AppView {
    let to = s.detail.scroll + by;
    AppView {
        detail: DetailView {
            scroll: if to < 0 {
                0
            } else if to > u16::MAX {
                u16::MAX as int
            } else {
                to
            },
            ..s.detail
        },
        ..s
    }
}

/// What a key does in navigation mode.
pub open spec fn nav_key(s: AppView, k: Key, has_test: bool) -> (AppView, ActionView) {
    match s.overlay {
        OverlayView::Help => if k == Key::Char('?') || k == Key::Esc || k == Key::Char('q') {
            (AppView { overlay: OverlayView::Closed, ..s }, ActionView::Nothing)
        } else {
            (s, ActionView::Nothing)
        },
        OverlayView::Message(_) => (AppView { overlay: OverlayView::Closed, ..s }, ActionView::Nothing),
        OverlayView::ConfirmRestore => if k == Key::Char('y') || k == Key::Char('Y') {
            (
                AppView { overlay: OverlayView::Closed, pending_restore: None, ..s },
                match s.pending_restore {
                    Some((id, plan)) => ActionView::Restore(id, plan),
                    None => ActionView::Nothing,
                },
            )
        } else {
            (
                AppView {
                    overlay: OverlayView::Closed,
                    pending_restore: None,
                    status: "Restore cancelled."@,
                    ..s
                },
                ActionView::Nothing,
            )
        },
        OverlayView::Search => search_key(s, k),
        OverlayView::Closed => main_key(s, k, has_test),
    }
}

/// The state in the other mode.
pub open spec fn toggled(s: AppView) -> AppView {
    match s.mode {
        Mode::Shell => AppView {
            mode: Mode::Nav,
            status: "Navigation mode — j/k move, ? for help (Ctrl+G back to shell)"@,
            ..s
        },
        Mode::Nav => AppView {
            mode: Mode::Shell,
            status: "Shell mode — keys go to the shell (Ctrl+G for navigation)"@,
            ..s
        },
    }
}

/// Whether a key switches between the modes.
pub open spec fn is_toggle(k: KeyPress) -> bool {
    k.key == Key::Char('g') && k.ctrl
}

/// What a key does. Ctrl+G switches between the modes; in shell mode all other
/// keys go to the shell.
pub open spec fn key_pressed(s: AppView, k: KeyPress, has_test: bool) -> (AppView, ActionView) {
    if is_toggle(k) {
        (toggled(s), ActionView::Nothing)
    } else if s.mode == Mode::Shell {
        (
            s,
            match keys::bytes_for(k) {
                Some(b) => ActionView::Send(b),
                None => ActionView::Nothing,
            },
        )
    } else {
        nav_key(s, k.key, has_test)
    }
}

/// What the key `r` does.
fn press_restore(app: &mut App) -> (r: Action)
    ensures
        (final(app)@, r@) == restore_key(old(app)@),
{
    let (restorable, id): (bool, Option<i64>) = match app.selected_event() {
        Some(e) => (
            text::same(e.kind.as_str(), event_kind::SNAPSHOT) || text::same(
                e.kind.as_str(),
                event_kind::CHECKPOINT,
            ),
            e.ref_id,
        ),
        None => return Action::Nothing,
    };
    if !restorable {
        app.status = "Select a snapshot or checkpoint to restore.".to_string();
        return Action::Nothing;
    }
    match id {
        Some(id) => Action::PlanRestore(id),
        None => Action::Nothing,
    }
}

/// Moves down: in the timeline, or in the detail if it has the focus.
fn press_down(app: &mut App) -> (r: Action)
    ensures
        (final(app)@, r@) == main_key(old(app)@, Key::Down, true),
{
    if app.focus == Focus::Detail {
        if app.detail.scroll < u16::MAX {
            app.detail.scroll = app.detail.scroll + 1;
        }
        Action::Nothing
    } else {
        app.select_next();
        Action::ShowDetail
    }
}

/// Moves up: in the timeline, or in the detail if it has the focus.
fn press_up(app: &mut App) -> (r: Action)
    ensures
        (final(app)@, r@) == main_key(old(app)@, Key::Up, true),
{
    if app.focus == Focus::Detail {
        if app.detail.scroll > 0 {
            app.detail.scroll = app.detail.scroll - 1;
        }
        Action::Nothing
    } else {
        app.select_prev();
        Action::ShowDetail
    }
}

/// What a key does while nothing lies over the panels.
pub fn handle_nav_main(app: &mut App, key: Key, has_test: bool) -> (r: Action)
    ensures
        (final(app)@, r@) == main_key(old(app)@, key, has_test),
{
    match key {
        Key::Tab => {
            app.focus = match app.focus {
                Focus::Timeline => Focus::Detail,
                Focus::Detail => Focus::Timeline,
            };
            Action::Nothing
        },
        Key::Down => press_down(app),
        Key::Up => press_up(app),
        Key::Enter => {
            app.focus = Focus::Detail;
            Action::ShowDetail
        },
        Key::Char(c) => press_char(app, c, has_test),
        _ => Action::Nothing,
    }
}

fn press_char(app: &mut App, c: char, has_test: bool) -> (r: Action)
    ensures
        (final(app)@, r@) == main_key(old(app)@, Key::Char(c), has_test),
{
    if c == 'q' {
        app.should_quit = true;
        Action::Nothing
    } else if c == '?' {
        app.overlay = Overlay::Help;
        Action::Nothing
    } else if c == '/' {
        app.search_input = String::new();
        app.search_results = Vec::new();
        app.overlay = Overlay::Search;
        proof {
            assert(app.search_input@ =~= Seq::<char>::empty());
            assert(app.search_results@ =~= Seq::<Event>::empty());
        }
        Action::Nothing
    } else if c == 'j' {
        press_down(app)
    } else if c == 'k' {
        press_up(app)
    } else if c == 'g' {
        app.select_first();
        Action::ShowDetail
    } else if c == 'G' {
        app.select_last();
        Action::ShowDetail
    } else if c == 'c' {
        Action::Checkpoint
    } else if c == 'r' {
        press_restore(app)
    } else if c == 'u' {
        Action::Undo
    } else if c == 't' {
        if has_test {
            app.status = "Running test…".to_string();
            Action::Test
        } else {
            app.overlay =
            Overlay::Message(
                "No test command configured.\nAdd `test_command = \"...\"` to .rewind.toml, then press `t` again.".to_string(),
            );
            Action::Nothing
        }
    } else {
        Action::Nothing
    }
}

/// What a key does in navigation mode.
pub fn handle_nav_key(app: &mut App, key: Key, has_test: bool) -> (r: Action)
    ensures
        (final(app)@, r@) == nav_key(old(app)@, key, has_test),
{
    match &app.overlay {
        Overlay::Help => {
            if key == Key::Char('?') || key == Key::Esc || key == Key::Char('q') {
                app.overlay = Overlay::Closed;
            }
            Action::Nothing
        },
        Overlay::Message(_) => {
            app.overlay = Overlay::Closed;
            Action::Nothing
        },
        Overlay::ConfirmRestore => {
            app.overlay = Overlay::Closed;
            let mut pending: Option<(i64, RestorePlan)> = None;
            std::mem::swap(&mut pending, &mut app.pending_restore);
            if key == Key::Char('y') || key == Key::Char('Y') {
                match pending {
                    Some((id, plan)) => Action::Restore(id, plan),
                    None => Action::Nothing,
                }
            } else {
                app.status = "Restore cancelled.".to_string();
                Action::Nothing
            }
        },
        Overlay::Search => handle_search_key(app, key),
        Overlay::Closed => handle_nav_main(app, key, has_test),
    }
}

/// What a key does. `has_test` tells whether a test command is configured.
pub fn handle_key(app: &mut App, key: &KeyPress, has_test: bool) -> (r: Action)
    ensures
        (final(app)@, r@) == key_pressed(old(app)@, *key, has_test),
{
    if key.key == Key::Char('g') && key.ctrl {
        match app.mode {
            Mode::Shell => {
                app.mode = Mode::Nav;
                app.status =
                "Navigation mode — j/k move, ? for help (Ctrl+G back to shell)".to_string();
            },
            Mode::Nav => {
                app.mode = Mode::Shell;
                app.status =
                "Shell mode — keys go to the shell (Ctrl+G for navigation)".to_string();
            },
        }
        return Action::Nothing;
    }
    match app.mode {
        Mode::Shell => match keys::key_to_bytes(key) {
            Some(bytes) => Action::Send(bytes),
            None => Action::Nothing,
        },
        Mode::Nav => handle_nav_key(app, key.key, has_test),
    }
}

/// What pasted text does: in shell mode it goes to the shell, and while the
/// search is open it is searched for.
pub open spec fn pasted(s: AppView, t: Seq<char>) -> (AppView, ActionView) {
    if s.mode == Mode::Shell {
        (s, ActionView::Send(vstd::utf8::encode_utf8(t)))
    } else if s.overlay is Search {
        search_step(AppView { search_input: s.search_input + t, ..s })
    } else {
        (s, ActionView::Nothing)
    }
}

/// What pasted text does.
pub fn handle_paste(app: &mut App, t: &str) -> (r: Action)
    ensures
        (final(app)@, r@) == pasted(old(app)@, t@),
{
    match app.mode {
        Mode::Shell => Action::Send(t.as_bytes_vec()),
        Mode::Nav => {
            if let Overlay::Search = &app.overlay {
                app.search_input.append(t);
                app.run_search()
            } else {
                Action::Nothing
            }
        },
    }
}

// ---------------------------------------------------------------------------
// Laws
// ---------------------------------------------------------------------------

/// Keys keep the selection among the events.
pub proof fn lemma_keys_keep_selection(s: AppView, k: KeyPress, has_test: bool)
    requires
        s.well_formed(),
    ensures
        key_pressed(s, k, has_test).0.well_formed(),
{
}

/// Two presses of Ctrl+G, whatever the state, bring the mode back and touch
/// nothing but the status.
pub proof fn lemma_toggle_twice(s: AppView, k: KeyPress, has_test: bool)
    requires
        is_toggle(k),
    ensures
        ({
            let once = key_pressed(s, k, has_test);
            let twice = key_pressed(once.0, k, has_test);
            &&& once.0.mode != s.mode
            &&& once.1 is Nothing
            &&& twice.1 is Nothing
            &&& twice.0 == (AppView { status: twice.0.status, ..s })
        }),
{
}

/// In shell mode every key but Ctrl+G goes to the shell as a terminal sends it,
/// and the interface stays as it is.
pub proof fn lemma_shell_gets_keys(s: AppView, k: KeyPress, has_test: bool)
    requires
        s.mode == Mode::Shell,
        !is_toggle(k),
    ensures
        key_pressed(s, k, has_test).0 == s,
        match keys::bytes_for(k) {
            Some(b) => key_pressed(s, k, has_test).1 == ActionView::Send(b),
            None => key_pressed(s, k, has_test).1 is Nothing,
        },
{
}

/// A key asks for a restore only where one waits to be confirmed, and only with
/// `y`; the restore is the one that waits, and it waits no more.
pub proof fn lemma_restore_is_confirmed(s: AppView, k: KeyPress, has_test: bool)
    requires
        key_pressed(s, k, has_test).1 is Restore,
    ensures
        s.mode == Mode::Nav,
        s.overlay is ConfirmRestore,
        k.key == Key::Char('y') || k.key == Key::Char('Y'),
        s.pending_restore matches Some((id, plan)) && key_pressed(s, k, has_test).1
            == ActionView::Restore(id, plan),
        key_pressed(s, k, has_test).0.pending_restore is None,
{
}

/// Only `q` quits, and only in navigation mode with nothing over the panels.
pub proof fn lemma_only_q_quits(s: AppView, k: KeyPress, has_test: bool)
    requires
        !s.should_quit,
        key_pressed(s, k, has_test).0.should_quit,
    ensures
        s.mode == Mode::Nav,
        s.overlay is Closed,
        k.key == Key::Char('q'),
{
}

} // verus!
