//! The detail panel: what it shows of the selected event.

use vstd::prelude::*;

use crate::ci;
use crate::cli;
use crate::diff;
use crate::diff::ChangeView;
use crate::diff::FileChange;
use crate::investigate;
use crate::investigate::CauseView;
use crate::investigate::Investigation;
use crate::investigate::LikelyCause;
use crate::models::event_kind;
use crate::models::Event;
use crate::models::Snapshot;
use crate::models::TestRun;
use crate::objects::Loaded;
use crate::text;
use crate::util;

verus! {

/// What the detail panel shows, and how far it is scrolled.
#[derive(Debug, PartialEq, Eq)]
pub struct Detail {
    pub title: String,
    pub lines: Vec<String>,
    pub scroll: u16,
}

/// What the detail panel shows, as sequences of characters.
pub struct DetailView {
    pub title: Seq<char>,
    pub lines: Seq<Seq<char>>,
    pub scroll: int,
}

impl View for Detail {
    type V = DetailView;

    open spec fn view(&self) -> DetailView {
        DetailView {
            title: self.title@,
            lines: text::texts(self.lines@),
            scroll: self.scroll as int,
        }
    }
}

/// A panel that is not scrolled.
pub open spec fn top_of(title: Seq<char>, lines: Seq<Seq<char>>) -> DetailView {
    DetailView { title, lines, scroll: 0 }
}

impl Default for Detail {
    fn default() -> (r: Detail)
        ensures
            r@ == top_of(""@, Seq::empty()),
    {
        let r = Detail { title: "".to_string(), lines: Vec::new(), scroll: 0 };
        proof {
            assert(text::texts(r.lines@) =~= Seq::<Seq<char>>::empty());
        }
        r
    }
}

impl Detail {
    fn of(title: &str, lines: Vec<String>) -> (r: Detail)
        ensures
            r@ == top_of(title@, text::texts(lines@)),
    {
        Detail { title: title.to_string(), lines, scroll: 0 }
    }

    fn of_line(title: &str, line: &str) -> (r: Detail)
        ensures
            r@ == top_of(title@, seq![line@]),
    {
        let mut lines: Vec<String> = Vec::new();
        text::push_line(&mut lines, line.to_string());
        proof {
            assert(text::texts(lines@) =~= seq![line@]);
        }
        Detail::of(title, lines)
    }
}

/// The detail of the selected event, or what has to be looked up to make it.
#[derive(Debug, PartialEq, Eq)]
pub enum DetailRequest {
    Ready(Detail),
    Test(i64),
    Snapshot(i64),
    Command { id: i64, summary: String },
}

/// The detail of the selected event, or what has to be looked up to make it.
pub enum RequestView {
    Ready(DetailView),
    Test(int),
    Snapshot(int),
    Command { id: int, summary: Seq<char> },
}

impl View for DetailRequest {
    type V = RequestView;

    open spec fn view(&self) -> RequestView {
        match self {
            DetailRequest::Ready(d) => RequestView::Ready(d@),
            DetailRequest::Test(id) => RequestView::Test(*id as int),
            DetailRequest::Snapshot(id) => RequestView::Snapshot(*id as int),
            DetailRequest::Command { id, summary } => RequestView::Command {
                id: *id as int,
                summary: summary@,
            },
        }
    }
}

/// The title of an event whose detail is its summary.
pub open spec fn title_of(kind: Seq<char>) -> Seq<char> {
    if kind == event_kind::SESSION_START@ {
        "Session start"@
    } else if kind == event_kind::SESSION_END@ {
        "Session end"@
    } else if kind == event_kind::RESTORE@ {
        "Restore"@
    } else {
        kind
    }
}

/// The title of an event whose detail is its summary.
pub fn title_for(kind: &str) -> (r: String)
    ensures
        r@ == title_of(kind@),
{
    if text::same(kind, event_kind::SESSION_START) {
        "Session start".to_string()
    } else if text::same(kind, event_kind::SESSION_END) {
        "Session end".to_string()
    } else if text::same(kind, event_kind::RESTORE) {
        "Restore".to_string()
    } else {
        kind.to_string()
    }
}

/// The pieces between the semicolons of a summary, trimmed.
pub open spec fn wrapped(s: Seq<char>) -> Seq<Seq<char>> {
    Seq::new(text::pieces_of(s, ';').len(), |i: int| text::trimmed(text::pieces_of(s, ';')[i]))
}

/// The pieces between the semicolons of a summary, trimmed.
pub fn wrap_summary(s: &str) -> (r: Vec<String>)
    ensures
        text::texts(r@) == wrapped(s@),
{
    let pieces = text::split_char(s, ';');
    let mut out: Vec<String> = Vec::new();
    let mut i: usize = 0;
    proof {
        assert(text::texts(out@) =~= wrapped(s@).take(0));
    }
    while i < pieces.len()
        invariant
            i <= pieces@.len(),
            text::texts(pieces@) == text::pieces_of(s@, ';'),
            text::texts(out@) == wrapped(s@).take(i as int),
        decreases pieces@.len() - i,
    {
        text::push_line(&mut out, text::trim(pieces[i].as_str()).to_string());
        proof {
            assert(text::texts(pieces@)[i as int] == pieces@[i as int]@);
            assert(wrapped(s@).take(i + 1) =~= wrapped(s@).take(i as int).push(
                wrapped(s@)[i as int],
            ));
        }
        i += 1;
    }
    proof {
        assert(text::texts(pieces@).len() == pieces@.len());
        assert(wrapped(s@).take(i as int) =~= wrapped(s@));
    }
    out
}

/// What has to be shown of an event, if any is selected.
pub open spec fn request_of(event: Option<Event>) -> RequestView {
    match event {
        None => RequestView::Ready(
            top_of(
                "Details"@,
                seq!["No events yet. Use the shell or press `t` to run tests."@],
            ),
        ),
        Some(e) => if e.kind@ == event_kind::TEST@ {
            match e.ref_id {
                Some(id) => RequestView::Test(id as int),
                None => RequestView::Ready(top_of("Test run"@, seq!["(no test run linked)"@])),
            }
        } else if e.kind@ == event_kind::INVESTIGATION@ {
            RequestView::Ready(top_of("Investigation"@, wrapped(e.summary@)))
        } else if e.kind@ == event_kind::SNAPSHOT@ || e.kind@ == event_kind::CHECKPOINT@ {
            match e.ref_id {
                Some(id) => RequestView::Snapshot(id as int),
                None => RequestView::Ready(top_of("Snapshot"@, seq!["(no snapshot linked)"@])),
            }
        } else if e.kind@ == event_kind::COMMAND@ {
            match e.ref_id {
                Some(id) => RequestView::Command { id: id as int, summary: e.summary@ },
                None => RequestView::Ready(command_text(e.summary@, None)),
            }
        } else {
            RequestView::Ready(top_of(title_of(e.kind@), seq![e.summary@]))
        },
    }
}

/// What has to be shown of an event, if any is selected.
pub fn request(event: Option<&Event>) -> (r: DetailRequest)
    ensures
        r@ == request_of(
            match event {
                Some(e) => Some(*e),
                None => None,
            },
        ),
{
    let e = match event {
        None => return DetailRequest::Ready(
            Detail::of_line(
                "Details",
                "No events yet. Use the shell or press `t` to run tests.",
            ),
        ),
        Some(e) => e,
    };
    let kind = e.kind.as_str();
    if text::same(kind, event_kind::TEST) {
        match e.ref_id {
            Some(id) => DetailRequest::Test(id),
            None => DetailRequest::Ready(Detail::of_line("Test run", "(no test run linked)")),
        }
    } else if text::same(kind, event_kind::INVESTIGATION) {
        DetailRequest::Ready(Detail::of("Investigation", wrap_summary(e.summary.as_str())))
    } else if text::same(kind, event_kind::SNAPSHOT) || text::same(kind, event_kind::CHECKPOINT) {
        match e.ref_id {
            Some(id) => DetailRequest::Snapshot(id),
            None => DetailRequest::Ready(Detail::of_line("Snapshot", "(no snapshot linked)")),
        }
    } else if text::same(kind, event_kind::COMMAND) {
        match e.ref_id {
            Some(id) => DetailRequest::Command { id, summary: e.summary.clone() },
            None => DetailRequest::Ready(detail_for_command(e.summary.as_str(), None)),
        }
    } else {
        let title = title_for(kind);
        DetailRequest::Ready(Detail::of_line(title.as_str(), e.summary.as_str()))
    }
}

// ---------------------------------------------------------------------------
// Commands
// ---------------------------------------------------------------------------

/// The last `n` members of a list, or all of them if there are fewer.
pub open spec fn last_of<A>(v: Seq<A>, n: int) -> Seq<A> {
    if v.len() <= n {
        v
    } else {
        v.skip(v.len() - n)
    }
}

/// Lines that stand in by two spaces.
pub open spec fn set_in(lines: Seq<Seq<char>>) -> Seq<Seq<char>> {
    Seq::new(lines.len(), |i: int| "  "@ + lines[i])
}

fn push_tail(out: &mut Vec<String>, s: &str, n: usize)
    ensures
        text::texts(final(out)@) == text::texts(old(out)@) + set_in(
            last_of(text::lines_of(s@), n as int),
        ),
{
    let lines = text::lines(s);
    let ghost before = text::texts(out@);
    let ghost all = text::lines_of(s@);
    let ghost want = set_in(last_of(all, n as int));
    let start: usize = if lines.len() <= n {
        0
    } else {
        lines.len() - n
    };
    let mut i: usize = start;
    proof {
        assert(text::texts(lines@).len() == lines@.len());
        assert(before + want.take(0) =~= before);
    }
    while i < lines.len()
        invariant
            start <= i <= lines@.len(),
            start == if lines@.len() <= n {
                0
            } else {
                lines@.len() - n
            },
            text::texts(lines@) == all,
            want == set_in(last_of(all, n as int)),
            text::texts(out@) == before + want.take(i - start),
        decreases lines@.len() - i,
    {
        let mut line = "  ".to_string();
        line.append(lines[i].as_str());
        text::push_line(out, line);
        proof {
            assert(text::texts(lines@).len() == lines@.len());
            assert(all[i as int] == lines@[i as int]@);
            assert(last_of(all, n as int)[i - start] == all[i as int]);
            assert(before + want.take(i + 1 - start) =~= (before + want.take(i - start)).push(
                want[i - start],
            ));
        }
        i += 1;
    }
    proof {
        assert(text::texts(lines@).len() == lines@.len());
        assert(want.take(i - start) =~= want);
    }
}

/// The detail of a command: its summary and the last forty lines of its output,
/// as far as that is kept.
pub open spec fn command_text(summary: Seq<char>, output: Option<Seq<u8>>) -> DetailView {
    top_of(
        "Command"@,
        seq![summary, ""@] + match output {
            Some(bytes) => seq!["output:"@] + set_in(
                last_of(text::lines_of(text::lossy(bytes)), 40),
            ),
            None => Seq::empty(),
        },
    )
}

/// The detail of a command: its summary and the last forty lines of its output,
/// as far as that is kept.
pub fn detail_for_command(summary: &str, output: Option<&Vec<u8>>) -> (r: Detail)
    ensures
        r@ == command_text(
            summary@,
            match output {
                Some(v) => Some(v@),
                None => None,
            },
        ),
{
    let mut lines: Vec<String> = Vec::new();
    text::push_line(&mut lines, summary.to_string());
    text::push_line(&mut lines, "".to_string());
    proof {
        assert(text::texts(lines@) =~= seq![summary@, ""@]);
        assert(seq![summary@, ""@] + Seq::<Seq<char>>::empty() =~= seq![summary@, ""@]);
    }
    match output {
        Some(bytes) => {
            text::push_line(&mut lines, "output:".to_string());
            let t = text::lossy_text(bytes.as_slice());
            push_tail(&mut lines, t.as_str(), 40);
            proof {
                let tail = set_in(last_of(text::lines_of(text::lossy(bytes@)), 40));
                assert(text::texts(lines@) =~= seq![summary@, ""@] + (seq!["output:"@] + tail));
            }
        },
        None => {},
    }
    Detail::of("Command", lines)
}

// ---------------------------------------------------------------------------
// Snapshots
// ---------------------------------------------------------------------------

/// The line of a change with its line counts.
pub open spec fn change_line(objects: Map<Seq<char>, Vec<u8>>, c: ChangeView) -> Seq<char> {
    let counts = diff::change_counts(objects, c);
    "  "@.push(diff::status_letter(c.status)) + " "@ + c.path + " (+"@ + text::dec(counts.0) + " -"@
        + text::dec(counts.1) + ")"@
}

/// The lines of the first two hundred changes.
pub open spec fn change_lines(objects: Map<Seq<char>, Vec<u8>>, changes: Seq<ChangeView>) -> Seq<
    Seq<char>,
> {
    if changes.len() == 0 {
        seq!["  (no changes)"@]
    } else {
        Seq::new(ci::at_most(changes, 200).len(), |i: int| change_line(objects, changes[i]))
    }
}

/// The lines on a snapshot, where `changes` are those since its parent.
pub open spec fn snapshot_text(
    s: Snapshot,
    objects: Map<Seq<char>, Vec<u8>>,
    changes: Seq<ChangeView>,
) -> Seq<Seq<char>> {
    seq![
        "snapshot #"@ + text::dec_signed(s.id as int) + "  ("@ + s.kind@ + ")"@,
        "label:  "@ + s.label@,
        "files:  "@ + text::dec_signed(s.file_count as int),
        "time:   "@ + util::timestamp_text(s.created_at as int),
    ] + (match s.git_branch {
        Some(b) => seq!["branch: "@ + b@],
        None => Seq::empty(),
    }) + (match s.parent_id {
        Some(p) => seq![""@, "changes vs snapshot #"@ + text::dec_signed(p as int) + ":"@]
            + change_lines(objects, changes),
        None => Seq::empty(),
    }) + seq![""@, "Press `r` to restore this snapshot."@]
}

fn show_change(objects: &Loaded, c: &FileChange) -> (r: String)
    ensures
        r@ == change_line(objects@, c@),
{
    let stat = diff::change_stat(objects, c);
    let mut line = "  ".to_string();
    line.push(c.letter());
    line.append(" ");
    line.append(c.path.as_str());
    line.append(" (+");
    text::push_dec(&mut line, stat.added as u128);
    line.append(" -");
    text::push_dec(&mut line, stat.removed as u128);
    line.append(")");
    line
}

fn push_changes(out: &mut Vec<String>, objects: &Loaded, changes: &Vec<FileChange>)
    ensures
        text::texts(final(out)@) == text::texts(old(out)@) + change_lines(
            objects@,
            diff::change_views(changes@),
        ),
{
    let ghost before = text::texts(out@);
    let ghost views = diff::change_views(changes@);
    if changes.len() == 0 {
        text::push_line(out, "  (no changes)".to_string());
        proof {
            assert(text::texts(out@) =~= before + seq!["  (no changes)"@]);
        }
        return;
    }
    let n: usize = if changes.len() <= 200 {
        changes.len()
    } else {
        200
    };
    let ghost want = change_lines(objects@, views);
    proof {
        assert(before + want.take(0) =~= before);
    }
    let mut i: usize = 0;
    while i < n
        invariant
            i <= n <= changes@.len(),
            want.len() == n,
            views == diff::change_views(changes@),
            forall|j: int| 0 <= j < n ==> #[trigger] want[j] == change_line(objects@, views[j]),
            text::texts(out@) == before + want.take(i as int),
        decreases n - i,
    {
        text::push_line(out, show_change(objects, &changes[i]));
        proof {
            assert(want[i as int] == change_line(objects@, changes@[i as int]@));
            assert(before + want.take(i + 1) =~= (before + want.take(i as int)).push(
                want[i as int],
            ));
        }
        i += 1;
    }
    proof {
        assert(want.take(i as int) =~= want);
    }
}

fn snapshot_lines(s: &Snapshot, objects: &Loaded, changes: &Vec<FileChange>) -> (out: Vec<String>)
    ensures
        text::texts(out@) == snapshot_text(*s, objects@, diff::change_views(changes@)),
{
    let mut out: Vec<String> = Vec::new();
    let mut head = "snapshot #".to_string();
    text::push_signed(&mut head, s.id);
    head.append("  (");
    head.append(s.kind.as_str());
    head.append(")");
    text::push_line(&mut out, head);
    let mut label = "label:  ".to_string();
    label.append(s.label.as_str());
    text::push_line(&mut out, label);
    let mut files = "files:  ".to_string();
    text::push_signed(&mut files, s.file_count);
    text::push_line(&mut out, files);
    let mut time = "time:   ".to_string();
    let t = util::format_timestamp(s.created_at);
    time.append(t.as_str());
    text::push_line(&mut out, time);
    let ghost first = seq![head@, label@, files@, time@];
    let ghost branch = match &s.git_branch {
        Some(b) => seq!["branch: "@ + b@],
        None => Seq::<Seq<char>>::empty(),
    };
    proof {
        assert(text::texts(out@) =~= first);
    }
    match &s.git_branch {
        Some(b) => {
            let mut line = "branch: ".to_string();
            line.append(b.as_str());
            text::push_line(&mut out, line);
        },
        None => {},
    }
    let ghost parent = match s.parent_id {
        Some(p) => seq![""@, "changes vs snapshot #"@ + text::dec_signed(p as int) + ":"@]
            + change_lines(objects@, diff::change_views(changes@)),
        None => Seq::<Seq<char>>::empty(),
    };
    proof {
        assert(text::texts(out@) =~= first + branch);
    }
    match s.parent_id {
        Some(p) => {
            text::push_line(&mut out, "".to_string());
            let mut line = "changes vs snapshot #".to_string();
            text::push_signed(&mut line, p);
            line.append(":");
            text::push_line(&mut out, line);
            push_changes(&mut out, objects, changes);
        },
        None => {},
    }
    proof {
        assert(text::texts(out@) =~= first + branch + parent);
    }
    text::push_line(&mut out, "".to_string());
    text::push_line(&mut out, "Press `r` to restore this snapshot.".to_string());
    proof {
        assert(text::texts(out@) =~= first + branch + parent + seq![
            ""@,
            "Press `r` to restore this snapshot."@,
        ]);
    }
    out
}

/// The detail of a snapshot, if it is there. `changes` are those since its
/// parent; they are not looked at if it has none.
pub fn detail_for_snapshot(
    snapshot: Option<&Snapshot>,
    objects: &Loaded,
    changes: &Vec<FileChange>,
) -> (r: Detail)
    ensures
        r@ == top_of(
            "Snapshot"@,
            match snapshot {
                Some(s) => snapshot_text(*s, objects@, diff::change_views(changes@)),
                None => seq!["(snapshot not found)"@],
            },
        ),
{
    match snapshot {
        Some(s) => Detail::of("Snapshot", snapshot_lines(s, objects, changes)),
        None => Detail::of_line("Snapshot", "(snapshot not found)"),
    }
}

// ---------------------------------------------------------------------------
// Test runs
// ---------------------------------------------------------------------------

/// The lines of the first six changed lines of a cause.
pub open spec fn changed_line_lines(lines: Seq<int>) -> Seq<Seq<char>> {
    Seq::new(
        ci::at_most(lines, 6).len(),
        |i: int| "       changed line "@ + text::dec(lines[i] as nat),
    )
}

/// The lines of a ranking.
pub open spec fn ranking_lines(causes: Seq<CauseView>) -> Seq<Seq<char>>
    decreases causes.len(),
{
    if causes.len() == 0 {
        Seq::empty()
    } else {
        ranking_lines(causes.drop_last()).push(cli::cause_line(causes.len(), causes.last()))
            + cli::evidence_lines(causes.last().evidence) + changed_line_lines(
            causes.last().changed_lines,
        )
    }
}

/// The lines on an investigation: the first twelve of the ranking and the last
/// fifteen lines of the failing output.
pub open spec fn investigation_text(inv: Investigation) -> Seq<Seq<char>> {
    (if inv.causes@.len() == 0 {
        seq!["  no changed files between the last pass and this failure"@]
    } else {
        ranking_lines(ci::at_most(investigate::cause_views(inv.causes@), 12))
    }) + (if inv.failing_output_excerpt@.len() == 0 {
        Seq::empty()
    } else {
        seq![""@, "Failing output (tail):"@] + set_in(
            last_of(text::lines_of(inv.failing_output_excerpt@), 15),
        )
    })
}

/// The word for the result of a run.
pub open spec fn result_word(passed: Option<bool>) -> Seq<char> {
    match passed {
        Some(true) => "passed"@,
        Some(false) => "failed"@,
        None => "incomplete"@,
    }
}

/// The lines on a test run. A duration below zero is taken modulo the range of
/// 64 bits.
pub open spec fn test_text(run: TestRun, inv: Option<Investigation>) -> Seq<Seq<char>> {
    seq!["command: "@ + run.command@, "result:  "@ + result_word(run.passed)] + (
    match run.exit_code {
        Some(code) => seq!["exit:    "@ + text::dec_signed(code as int)],
        None => Seq::empty(),
    }) + (match run.duration_ms {
        Some(d) => seq!["time:    "@ + util::duration_text(d as int % 0x1_0000_0000_0000_0000)],
        None => Seq::empty(),
    }) + (if run.passed == Some(false) {
        seq![""@, "Likely causes (relevance score — likely, not confirmed):"@] + match inv {
            Some(i) => investigation_text(i),
            None => seq!["  no prior passing run to compare against"@],
        }
    } else {
        Seq::empty()
    })
}

/// Whether the detail of a run tells of likely causes.
pub fn tells_causes(run: &TestRun) -> (r: bool)
    ensures
        r == (run.passed == Some(false)),
{
    match run.passed {
        Some(passed) => !passed,
        None => false,
    }
}

fn push_changed_lines(out: &mut Vec<String>, lines: &Vec<usize>)
    ensures
        text::texts(final(out)@) == text::texts(old(out)@) + changed_line_lines(
            diff::as_ints(lines@),
        ),
{
    let n: usize = if lines.len() <= 6 {
        lines.len()
    } else {
        6
    };
    let ghost before = text::texts(out@);
    let ghost want = changed_line_lines(diff::as_ints(lines@));
    proof {
        assert(before + want.take(0) =~= before);
    }
    let mut i: usize = 0;
    while i < n
        invariant
            i <= n <= lines@.len(),
            want.len() == n,
            forall|j: int|
                0 <= j < n ==> #[trigger] want[j] == "       changed line "@ + text::dec(
                    lines@[j] as nat,
                ),
            text::texts(out@) == before + want.take(i as int),
        decreases n - i,
    {
        let mut line = "       changed line ".to_string();
        text::push_dec(&mut line, lines[i] as u128);
        text::push_line(out, line);
        proof {
            assert(want[i as int] == line@);
            assert(before + want.take(i + 1) =~= (before + want.take(i as int)).push(
                want[i as int],
            ));
        }
        i += 1;
    }
    proof {
        assert(want.take(i as int) =~= want);
    }
}

fn push_cause(out: &mut Vec<String>, n: usize, c: &LikelyCause)
    requires
        n < usize::MAX,
    ensures
        text::texts(final(out)@) == text::texts(old(out)@).push(
            cli::cause_line((n + 1) as nat, c@),
        ) + cli::evidence_lines(c@.evidence) + changed_line_lines(c@.changed_lines),
{
    let mut line = "  ".to_string();
    text::push_dec(&mut line, n as u128 + 1);
    line.append(". ");
    line.append(c.path.as_str());
    line.append(" — relevance ");
    text::push_signed(&mut line, c.score as i64);
    text::push_line(out, line);
    cli::push_evidence(out, &c.evidence);
    push_changed_lines(out, &c.changed_lines);
}

fn push_ranking(out: &mut Vec<String>, causes: &Vec<LikelyCause>)
    ensures
        text::texts(final(out)@) == text::texts(old(out)@) + ranking_lines(
            ci::at_most(investigate::cause_views(causes@), 12),
        ),
{
    let n: usize = if causes.len() <= 12 {
        causes.len()
    } else {
        12
    };
    let ghost before = text::texts(out@);
    let ghost all = investigate::cause_views(causes@);
    let mut i: usize = 0;
    proof {
        assert(all.take(0) =~= Seq::<CauseView>::empty());
        assert(before + Seq::<Seq<char>>::empty() =~= before);
    }
    while i < n
        invariant
            i <= n <= causes@.len(),
            n <= 12,
            all == investigate::cause_views(causes@),
            text::texts(out@) == before + ranking_lines(all.take(i as int)),
        decreases n - i,
    {
        let ghost so_far = ranking_lines(all.take(i as int));
        let c = &causes[i];
        push_cause(out, i, c);
        proof {
            assert(all.take(i + 1).drop_last() =~= all.take(i as int));
            assert(all.take(i + 1).last() == c@);
            let line = cli::cause_line((i + 1) as nat, c@);
            let evidence = cli::evidence_lines(c@.evidence);
            let changed = changed_line_lines(c@.changed_lines);
            assert((before + so_far).push(line) + evidence + changed =~= before + (so_far.push(line)
                + evidence + changed));
        }
        i += 1;
    }
    proof {
        if causes@.len() <= 12 {
            assert(all.take(n as int) =~= all);
        }
    }
}

fn push_investigation(out: &mut Vec<String>, inv: &Investigation)
    ensures
        text::texts(final(out)@) == text::texts(old(out)@) + investigation_text(*inv),
{
    let ghost before = text::texts(out@);
    let ghost ranked = if inv.causes@.len() == 0 {
        seq!["  no changed files between the last pass and this failure"@]
    } else {
        ranking_lines(ci::at_most(investigate::cause_views(inv.causes@), 12))
    };
    if inv.causes.len() == 0 {
        text::push_line(
            out,
            "  no changed files between the last pass and this failure".to_string(),
        );
    } else {
        push_ranking(out, &inv.causes);
    }
    proof {
        assert(text::texts(out@) =~= before + ranked);
    }
    if !inv.failing_output_excerpt.as_str().is_empty() {
        text::push_line(out, "".to_string());
        text::push_line(out, "Failing output (tail):".to_string());
        push_tail(out, inv.failing_output_excerpt.as_str(), 15);
        proof {
            let tail = set_in(last_of(text::lines_of(inv.failing_output_excerpt@), 15));
            assert(text::texts(out@) =~= before + (ranked + (seq![""@, "Failing output (tail):"@]
                + tail)));
        }
    } else {
        proof {
            assert(ranked + Seq::<Seq<char>>::empty() =~= ranked);
        }
    }
}

/// A signed number taken modulo the range of 64 bits.
fn as_unsigned(d: i64) -> (r: u64)
    ensures
        r == d as int % 0x1_0000_0000_0000_0000,
{
    if d >= 0 {
        d as u64
    } else {
        let r: i128 = d as i128 + 0x1_0000_0000_0000_0000i128;
        proof {
            assert(r == d as int % 0x1_0000_0000_0000_0000) by (nonlinear_arith)
                requires
                    r == d + 0x1_0000_0000_0000_0000,
                    0 <= r < 0x1_0000_0000_0000_0000,
            ;
        }
        r as u64
    }
}

fn test_lines(run: &TestRun, inv: Option<&Investigation>) -> (out: Vec<String>)
    ensures
        text::texts(out@) == test_text(
            *run,
            match inv {
                Some(i) => Some(*i),
                None => None,
            },
        ),
{
    let mut out: Vec<String> = Vec::new();
    let mut command = "command: ".to_string();
    command.append(run.command.as_str());
    text::push_line(&mut out, command);
    let mut result = "result:  ".to_string();
    match run.passed {
        Some(passed) => if passed {
            result.append("passed");
        } else {
            result.append("failed");
        },
        None => result.append("incomplete"),
    }
    text::push_line(&mut out, result);
    let ghost first = seq![command@, result@];
    proof {
        assert(text::texts(out@) =~= first);
    }
    let ghost exit = match run.exit_code {
        Some(code) => seq!["exit:    "@ + text::dec_signed(code as int)],
        None => Seq::<Seq<char>>::empty(),
    };
    match run.exit_code {
        Some(code) => {
            let mut line = "exit:    ".to_string();
            text::push_signed(&mut line, code);
            text::push_line(&mut out, line);
        },
        None => {},
    }
    proof {
        assert(text::texts(out@) =~= first + exit);
    }
    let ghost time = match run.duration_ms {
        Some(d) => seq!["time:    "@ + util::duration_text(d as int % 0x1_0000_0000_0000_0000)],
        None => Seq::<Seq<char>>::empty(),
    };
    match run.duration_ms {
        Some(d) => {
            let mut line = "time:    ".to_string();
            let t = util::format_duration_ms(as_unsigned(d));
            line.append(t.as_str());
            text::push_line(&mut out, line);
        },
        None => {},
    }
    proof {
        assert(text::texts(out@) =~= first + exit + time);
    }
    if tells_causes(run) {
        text::push_line(&mut out, "".to_string());
        text::push_line(
            &mut out,
            "Likely causes (relevance score — likely, not confirmed):".to_string(),
        );
        match inv {
            Some(i) => push_investigation(&mut out, i),
            None => text::push_line(
                &mut out,
                "  no prior passing run to compare against".to_string(),
            ),
        }
        proof {
            let told = match inv {
                Some(i) => investigation_text(*i),
                None => seq!["  no prior passing run to compare against"@],
            };
            assert(text::texts(out@) =~= first + exit + time + (seq![
                ""@,
                "Likely causes (relevance score — likely, not confirmed):"@,
            ] + told));
        }
    } else {
        proof {
            assert(first + exit + time + Seq::<Seq<char>>::empty() =~= first + exit + time);
        }
    }
    out
}

/// The detail of a test run, if it is there. `inv` is what its investigation
/// found; it is not looked at unless the run failed.
pub fn detail_for_test(run: Option<&TestRun>, inv: Option<&Investigation>) -> (r: Detail)
    ensures
        r@ == top_of(
            "Test run"@,
            match run {
                Some(t) => test_text(
                    *t,
                    match inv {
                        Some(i) => Some(*i),
                        None => None,
                    },
                ),
                None => seq!["(test run not found)"@],
            },
        ),
{
    match run {
        Some(t) => Detail::of("Test run", test_lines(t, inv)),
        None => Detail::of_line("Test run", "(test run not found)"),
    }
}

} // verus!
