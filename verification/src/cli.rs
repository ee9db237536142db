//! What the subcommands decide and tell the user.
//!
//! Whoever runs a subcommand does its input and output; the choices it makes and
//! the lines it prints are made here.

use vstd::prelude::*;

use crate::ci;
use crate::diff;
use crate::diff::ChangeView;
use crate::diff::FileChange;
use crate::error::ErrorView;
use crate::error::RewindError;
use crate::exec::CommandOutcome;
use crate::investigate;
use crate::investigate::CauseView;
use crate::investigate::Investigation;
use crate::models::Restore;
use crate::models::Snapshot;
use crate::models::TestRun;
use crate::objects::Loaded;
use crate::paths;
use crate::paths::StoragePaths;
use crate::repo::GitState;
use crate::restore::PlanEntry;
use crate::restore::PlanView;
use crate::restore::RestorePlan;
use crate::restore::RestoreStats;
use crate::session;
use crate::session::RestoreOutcome;
use crate::text;
use crate::text_map::TextSet;
use crate::util;

pub mod laws;

verus! {

// ---------------------------------------------------------------------------
// Finding the repository
// ---------------------------------------------------------------------------

/// What is told in place of an error of the repository's discovery.
pub open spec fn opening_error(e: ErrorView) -> ErrorView {
    if e is NotAGitRepo {
        ErrorView::Other(
            "not inside a Git repository.\n  Run `rewind init --git` here to create one, or `cd` into an existing repository."@,
        )
    } else {
        e
    }
}

/// What is told in place of an error of the repository's discovery: outside a
/// repository, how to get one.
pub fn opening_failure(e: RewindError) -> (r: RewindError)
    ensures
        r@ == opening_error(e@),
{
    match e {
        RewindError::NotAGitRepo => RewindError::other(
            "not inside a Git repository.\n  Run `rewind init --git` here to create one, or `cd` into an existing repository.",
        ),
        e => e,
    }
}

// ---------------------------------------------------------------------------
// init
// ---------------------------------------------------------------------------

/// The files in the root of a project that tell how it is tested.
pub open spec fn project_files() -> Seq<Seq<char>> {
    seq![
        "Cargo.toml"@,
        "package.json"@,
        "pyproject.toml"@,
        "pytest.ini"@,
        "tox.ini"@,
        "go.mod"@,
        "Gemfile"@,
        "Makefile"@,
    ]
}

/// The files in the root of a project that tell how it is tested.
pub fn project_file_list() -> (r: [&'static str; 8])
    ensures
        text::strs(r@) == project_files(),
{
    let r = [
        "Cargo.toml",
        "package.json",
        "pyproject.toml",
        "pytest.ini",
        "tox.ini",
        "go.mod",
        "Gemfile",
        "Makefile",
    ];
    proof {
        assert(text::strs(r@) =~= project_files());
    }
    r
}

/// How a project with these files in its root is tested.
pub open spec fn usual_test_command(present: Set<Seq<char>>) -> Option<Seq<char>> {
    if present.contains("Cargo.toml"@) {
        Some("cargo test"@)
    } else if present.contains("package.json"@) {
        Some("npm test"@)
    } else if present.contains("pyproject.toml"@) || present.contains("pytest.ini"@)
        || present.contains("tox.ini"@) {
        Some("pytest"@)
    } else if present.contains("go.mod"@) {
        Some("go test ./..."@)
    } else if present.contains("Gemfile"@) {
        Some("bundle exec rake test"@)
    } else if present.contains("Makefile"@) {
        Some("make test"@)
    } else {
        None
    }
}

/// How a project with these files in its root is tested.
pub fn detect_test_command(present: &TextSet) -> (r: Option<String>)
    ensures
        text::opt_text(r) == usual_test_command(present@.dom()),
{
    if present.contains_key("Cargo.toml") {
        Some("cargo test".to_string())
    } else if present.contains_key("package.json") {
        Some("npm test".to_string())
    } else if present.contains_key("pyproject.toml") || present.contains_key("pytest.ini")
        || present.contains_key("tox.ini") {
        Some("pytest".to_string())
    } else if present.contains_key("go.mod") {
        Some("go test ./...".to_string())
    } else if present.contains_key("Gemfile") {
        Some("bundle exec rake test".to_string())
    } else if present.contains_key("Makefile") {
        Some("make test".to_string())
    } else {
        None
    }
}

/// The test command to write down: the one asked for, else the one that is
/// configured, else the usual one for such a project.
pub fn init_test_command(
    asked: Option<String>,
    configured: Option<String>,
    present: &TextSet,
) -> (r: Option<String>)
    ensures
        text::opt_text(r) == match (asked, configured) {
            (Some(c), _) => Some(c@),
            (None, Some(c)) => Some(c@),
            (None, None) => usual_test_command(present@.dom()),
        },
{
    match asked {
        Some(c) => Some(c),
        None => match configured {
            Some(c) => Some(c),
            None => detect_test_command(present),
        },
    }
}

/// What is told when the configuration has been written to `file`.
pub fn init_lines(existed: bool, file: &str, test_command: Option<&str>) -> (r: Vec<String>)
    ensures
        text::texts(r@) == seq![
            (if existed {
                "Updated "@
            } else {
                "Created "@
            }) + file@,
            match test_command {
                Some(c) => "  test_command = \""@ + c@ + "\""@,
                None =>
                    "  no test command set — edit .rewind.toml to add `test_command = \"...\"`"@,
            },
            "Run `rewind` to open the interactive interface."@,
        ],
{
    let mut out: Vec<String> = Vec::new();
    let mut head = if existed {
        "Updated ".to_string()
    } else {
        "Created ".to_string()
    };
    head.append(file);
    text::push_line(&mut out, head);
    let command = match test_command {
        Some(c) => {
            let mut s = "  test_command = \"".to_string();
            s.append(c);
            s.append("\"");
            s
        },
        None => "  no test command set — edit .rewind.toml to add `test_command = \"...\"`".to_string(),
    };
    text::push_line(&mut out, command);
    text::push_line(&mut out, "Run `rewind` to open the interactive interface.".to_string());
    out
}

// ---------------------------------------------------------------------------
// run, test, ci
// ---------------------------------------------------------------------------

/// The command to run: the arguments with a space between each two. There has to
/// be one.
pub fn run_command_line(args: &Vec<String>) -> (r: Result<String, RewindError>)
    ensures
        match r {
            Ok(c) => args@.len() > 0 && c@ == text::joined(text::texts(args@), " "@),
            Err(e) => args@.len() == 0 && e@ == ErrorView::Other(
                "no command given. Usage: rewind run -- <command>"@,
            ),
        },
{
    if args.len() == 0 {
        Err(RewindError::other("no command given. Usage: rewind run -- <command>"))
    } else {
        Ok(text::join(args, " "))
    }
}

/// The test command: the one asked for, else the one that is configured. There
/// has to be one.
pub fn test_command_line(asked: Option<String>, configured: Option<String>) -> (r: Result<
    String,
    RewindError,
>)
    ensures
        match (asked, configured) {
            (Some(c), _) => r matches Ok(s) && s@ == c@,
            (None, Some(c)) => r matches Ok(s) && s@ == c@,
            (None, None) => r matches Err(e) && e@ == ErrorView::Other(
                "no test command configured. Set it with `rewind init --test-command \"...\"` or in .rewind.toml, or pass `--command`."@,
            ),
        },
{
    match asked {
        Some(c) => Ok(c),
        None => match configured {
            Some(c) => Ok(c),
            None => Err(
                RewindError::other(
                    "no test command configured. Set it with `rewind init --test-command \"...\"` or in .rewind.toml, or pass `--command`.",
                ),
            ),
        },
    }
}

/// The command that is to be tested in place of the configured one, if any is
/// given. There has to be one or the other.
pub fn ci_command_line(args: &Vec<String>, is_configured: bool) -> (r: Result<
    Option<String>,
    RewindError,
>)
    ensures
        match r {
            Ok(Some(c)) => args@.len() > 0 && c@ == text::joined(text::texts(args@), " "@),
            Ok(None) => args@.len() == 0 && is_configured,
            Err(e) => args@.len() == 0 && !is_configured && e@ == ErrorView::Other(
                "no test command. Usage: rewind ci -- <test-command>"@,
            ),
        },
{
    if args.len() > 0 {
        Ok(Some(text::join(args, " ")))
    } else if is_configured {
        Ok(None)
    } else {
        Err(RewindError::other("no test command. Usage: rewind ci -- <test-command>"))
    }
}

/// How a run ended, in short.
pub open spec fn ending(outcome: CommandOutcome) -> Seq<char> {
    if outcome.cancelled {
        "cancelled"@
    } else if outcome.timed_out {
        "timed out"@
    } else if session::has_passed(outcome) {
        "ok"@
    } else {
        match outcome.exit_code {
            Some(c) => "exit "@ + text::dec_signed(c as int),
            None => "killed"@,
        }
    }
}

/// The line after the output of a run.
pub fn outcome_footer(command: &str, outcome: &CommandOutcome) -> (r: String)
    ensures
        r@ == "[rewind] `"@ + command@ + "` "@ + ending(*outcome) + " in "@ + util::duration_text(
            outcome.duration_ms as int,
        ),
{
    let mut r = "[rewind] `".to_string();
    r.append(command);
    r.append("` ");
    let status = if outcome.cancelled {
        "cancelled".to_string()
    } else if outcome.timed_out {
        "timed out".to_string()
    } else if outcome.passed() {
        "ok".to_string()
    } else {
        match outcome.exit_code {
            Some(c) => {
                let mut s = "exit ".to_string();
                text::push_signed(&mut s, c as i64);
                s
            },
            None => "killed".to_string(),
        }
    };
    r.append(status.as_str());
    r.append(" in ");
    let d = util::format_duration_ms(outcome.duration_ms);
    r.append(d.as_str());
    r
}

/// The line of a cause at the place `n` of the ranking.
pub open spec fn cause_line(n: nat, c: CauseView) -> Seq<char> {
    "  "@ + text::dec(n) + ". "@ + c.path + " — relevance "@ + text::dec_signed(c.score)
}

/// The lines of evidence.
pub open spec fn evidence_lines(evidence: Seq<Seq<char>>) -> Seq<Seq<char>> {
    Seq::new(evidence.len(), |i: int| "       - "@ + evidence[i])
}

/// The lines of a ranking.
pub open spec fn ranking_lines(causes: Seq<CauseView>) -> Seq<Seq<char>>
    decreases causes.len(),
{
    if causes.len() == 0 {
        Seq::empty()
    } else {
        ranking_lines(causes.drop_last()).push(cause_line(causes.len(), causes.last()))
            + evidence_lines(causes.last().evidence)
    }
}

pub(crate) fn push_evidence(out: &mut Vec<String>, evidence: &Vec<String>)
    ensures
        text::texts(final(out)@) == text::texts(old(out)@) + evidence_lines(
            text::texts(evidence@),
        ),
{
    let ghost before = text::texts(out@);
    let ghost all = evidence_lines(text::texts(evidence@));
    let mut i: usize = 0;
    proof {
        assert(before + all.take(0) =~= before);
    }
    while i < evidence.len()
        invariant
            i <= evidence@.len(),
            all == evidence_lines(text::texts(evidence@)),
            text::texts(out@) == before + all.take(i as int),
        decreases evidence@.len() - i,
    {
        let mut line = "       - ".to_string();
        line.append(evidence[i].as_str());
        text::push_line(out, line);
        proof {
            assert(before + all.take(i + 1) =~= (before + all.take(i as int)).push(all[i as int]));
        }
        i += 1;
    }
    proof {
        assert(all.take(i as int) =~= all);
    }
}

/// The lines on the likely causes of a failure: the first eight of the ranking.
pub fn cause_lines(inv: &Investigation) -> (r: Vec<String>)
    ensures
        text::texts(r@) == if inv.causes@.len() == 0 {
            seq!["  (no changed files to rank)"@]
        } else {
            ranking_lines(ci::at_most(investigate::cause_views(inv.causes@), 8))
        },
{
    let mut out: Vec<String> = Vec::new();
    if inv.causes.len() == 0 {
        text::push_line(&mut out, "  (no changed files to rank)".to_string());
        return out;
    }
    let ghost all = investigate::cause_views(inv.causes@);
    let n: usize = if inv.causes.len() <= 8 {
        inv.causes.len()
    } else {
        8
    };
    let mut i: usize = 0;
    proof {
        assert(all.take(0) =~= Seq::<CauseView>::empty());
        assert(text::texts(out@) =~= Seq::<Seq<char>>::empty());
    }
    while i < n
        invariant
            i <= n <= inv.causes@.len(),
            n <= 8,
            all == investigate::cause_views(inv.causes@),
            text::texts(out@) == ranking_lines(all.take(i as int)),
        decreases n - i,
    {
        let c = &inv.causes[i];
        let mut line = "  ".to_string();
        text::push_dec(&mut line, i as u128 + 1);
        line.append(". ");
        line.append(c.path.as_str());
        line.append(" — relevance ");
        text::push_signed(&mut line, c.score as i64);
        text::push_line(&mut out, line);
        push_evidence(&mut out, &c.evidence);
        proof {
            assert(all.take(i + 1).drop_last() =~= all.take(i as int));
            assert(all.take(i + 1).last() == c@);
        }
        i += 1;
    }
    proof {
        if inv.causes@.len() <= 8 {
            assert(all.take(n as int) =~= all);
        }
    }
    out
}

/// The exit status of a process that ran a command: 0 if it passed, else the
/// command's exit code, 255 if that is greater, or 1 if it is negative or there
/// is none.
pub fn exit_from_code(code: Option<i32>, passed: bool) -> (r: u8)
    ensures
        r == if passed {
            0int
        } else {
            match code {
                Some(c) => if c < 0 {
                    1
                } else if c > 255 {
                    255
                } else {
                    c as int
                },
                None => 1,
            }
        },
{
    if passed {
        return 0;
    }
    match code {
        Some(c) => if c < 0 {
            1
        } else if c > 255 {
            255
        } else {
            c as u8
        },
        None => 1,
    }
}

// ---------------------------------------------------------------------------
// checkpoint, diff
// ---------------------------------------------------------------------------

/// What is told of a new checkpoint.
pub fn checkpoint_line(snapshot: &Snapshot) -> (r: String)
    ensures
        r@ == "Created checkpoint #"@ + text::dec_signed(snapshot.id as int) + " ("@
            + text::dec_signed(snapshot.file_count as int) + " files, "@ + util::timestamp_text(
            snapshot.created_at as int,
        ) + ")"@,
{
    let mut r = "Created checkpoint #".to_string();
    text::push_signed(&mut r, snapshot.id);
    r.append(" (");
    text::push_signed(&mut r, snapshot.file_count);
    r.append(" files, ");
    let t = util::format_timestamp(snapshot.created_at);
    r.append(t.as_str());
    r.append(")");
    r
}

/// What is to be compared.
#[derive(Debug, PartialEq, Eq, Structural)]
pub enum DiffSides {
    /// Nothing, as there is no snapshot.
    NoSnapshots,
    /// Nothing, as there is one snapshot only.
    OneSnapshot,
    /// Two snapshots, the older side first.
    Snapshots { old: i64, new: i64 },
    /// A snapshot with the working tree.
    WorkingTree { old: i64 },
}

/// What is to be compared, where `ids` are the snapshots, the newest first: the
/// two that are named, the one that is named and the working tree, or else the
/// last two.
pub fn diff_sides(ids: &Vec<i64>, a: Option<i64>, b: Option<i64>) -> (r: DiffSides)
    ensures
        r == if ids@.len() == 0 {
            DiffSides::NoSnapshots
        } else {
            match (a, b) {
                (Some(a), Some(b)) => DiffSides::Snapshots { old: a, new: b },
                (Some(a), None) => DiffSides::WorkingTree { old: a },
                (None, _) => if ids@.len() < 2 {
                    DiffSides::OneSnapshot
                } else {
                    DiffSides::Snapshots { old: ids@[1], new: ids@[0] }
                },
            }
        },
{
    if ids.len() == 0 {
        return DiffSides::NoSnapshots;
    }
    match (a, b) {
        (Some(a), Some(b)) => DiffSides::Snapshots { old: a, new: b },
        (Some(a), None) => DiffSides::WorkingTree { old: a },
        (None, _) => if ids.len() < 2 {
            DiffSides::OneSnapshot
        } else {
            DiffSides::Snapshots { old: ids[1], new: ids[0] }
        },
    }
}

/// Why there is nothing to compare.
pub open spec fn no_diff_text(sides: DiffSides) -> Option<Seq<char>> {
    match sides {
        DiffSides::NoSnapshots => Some(
            "No snapshots yet. Run `rewind checkpoint` or `rewind test` first."@,
        ),
        DiffSides::OneSnapshot => Some("Only one snapshot exists; nothing to compare."@),
        _ => None,
    }
}

/// Why there is nothing to compare, if that is so.
pub fn no_diff(sides: &DiffSides) -> (r: Option<String>)
    ensures
        text::opt_text(r) == no_diff_text(*sides),
{
    match sides {
        DiffSides::NoSnapshots => Some(
            "No snapshots yet. Run `rewind checkpoint` or `rewind test` first.".to_string(),
        ),
        DiffSides::OneSnapshot => Some(
            "Only one snapshot exists; nothing to compare.".to_string(),
        ),
        _ => None,
    }
}

/// The line of a change with its line counts.
pub open spec fn change_line(objects: Map<Seq<char>, Vec<u8>>, c: ChangeView) -> Seq<char> {
    let counts = diff::change_counts(objects, c);
    "  "@.push(diff::status_letter(c.status)) + " "@ + c.path + "  (+"@ + text::dec(counts.0) + " -"@
        + text::dec(counts.1) + ")"@
}

/// The lines of the patch of a change; none if a version of it is not text.
pub open spec fn patch_lines(objects: Map<Seq<char>, Vec<u8>>, c: ChangeView) -> Seq<Seq<char>> {
    match (diff::side_text(objects, c.old_hash), diff::side_text(objects, c.new_hash)) {
        (Some(old), Some(new)) => indented(text::lines_of(diff::patch_of(c.path, old, new))),
        _ => Seq::empty(),
    }
}

/// Lines that stand in by four spaces.
pub open spec fn indented(lines: Seq<Seq<char>>) -> Seq<Seq<char>> {
    Seq::new(lines.len(), |i: int| "    "@ + lines[i])
}

/// The lines of changes, with their patches if `patch` holds.
pub open spec fn listing(
    objects: Map<Seq<char>, Vec<u8>>,
    changes: Seq<ChangeView>,
    patch: bool,
) -> Seq<Seq<char>>
    decreases changes.len(),
{
    if changes.len() == 0 {
        Seq::empty()
    } else {
        listing(objects, changes.drop_last(), patch).push(change_line(objects, changes.last()))
            + if patch {
            patch_lines(objects, changes.last())
        } else {
            Seq::empty()
        }
    }
}

/// The head of a comparison.
pub open spec fn diff_head(old: int, new: int, changes: nat) -> Seq<char> {
    "Diff snapshot #"@ + text::dec_signed(old) + " → #"@ + text::dec_signed(new) + ": "@
        + text::dec(changes) + " change(s)"@
}

fn push_indented(out: &mut Vec<String>, lines: &Vec<String>)
    ensures
        text::texts(final(out)@) == text::texts(old(out)@) + indented(text::texts(lines@)),
{
    let ghost before = text::texts(out@);
    let ghost all = indented(text::texts(lines@));
    let mut i: usize = 0;
    proof {
        assert(before + all.take(0) =~= before);
    }
    while i < lines.len()
        invariant
            i <= lines@.len(),
            all == indented(text::texts(lines@)),
            text::texts(out@) == before + all.take(i as int),
        decreases lines@.len() - i,
    {
        let mut line = "    ".to_string();
        line.append(lines[i].as_str());
        text::push_line(out, line);
        proof {
            assert(before + all.take(i + 1) =~= (before + all.take(i as int)).push(all[i as int]));
        }
        i += 1;
    }
    proof {
        assert(all.take(i as int) =~= all);
    }
}

fn show_change(objects: &Loaded, c: &FileChange) -> (r: String)
    ensures
        r@ == change_line(objects@, c@),
{
    let stat = diff::change_stat(objects, c);
    let mut line = "  ".to_string();
    line.push(c.letter());
    line.append(" ");
    line.append(c.path.as_str());
    line.append("  (+");
    text::push_dec(&mut line, stat.added as u128);
    line.append(" -");
    text::push_dec(&mut line, stat.removed as u128);
    line.append(")");
    line
}

/// The lines of a comparison, with the patches if `patch` holds.
pub fn diff_lines(
    objects: &Loaded,
    old: i64,
    new: i64,
    changes: &Vec<FileChange>,
    patch: bool,
) -> (r: Vec<String>)
    ensures
        text::texts(r@) == seq![diff_head(old as int, new as int, changes@.len())] + listing(
            objects@,
            diff::change_views(changes@),
            patch,
        ),
{
    let ghost views = diff::change_views(changes@);
    let mut out: Vec<String> = Vec::new();
    let mut head = "Diff snapshot #".to_string();
    text::push_signed(&mut head, old);
    head.append(" → #");
    text::push_signed(&mut head, new);
    head.append(": ");
    text::push_dec(&mut head, changes.len() as u128);
    head.append(" change(s)");
    text::push_line(&mut out, head);
    let ghost first = text::texts(out@);
    proof {
        assert(first =~= seq![diff_head(old as int, new as int, changes@.len())]);
        assert(views.take(0) =~= Seq::<ChangeView>::empty());
        assert(first + Seq::<Seq<char>>::empty() =~= first);
    }
    let mut i: usize = 0;
    while i < changes.len()
        invariant
            i <= changes@.len(),
            views == diff::change_views(changes@),
            text::texts(out@) == first + listing(objects@, views.take(i as int), patch),
        decreases changes@.len() - i,
    {
        let c = &changes[i];
        let ghost so_far = listing(objects@, views.take(i as int), patch);
        text::push_line(&mut out, show_change(objects, c));
        let ghost with_line = so_far.push(change_line(objects@, c@));
        proof {
            assert(text::texts(out@) =~= first + with_line);
            assert(views.take(i + 1).drop_last() =~= views.take(i as int));
            assert(views.take(i + 1).last() == c@);
        }
        if patch {
            match diff::unified_diff(
                objects,
                c.path.as_str(),
                diff::borrowed(&c.old_hash),
                diff::borrowed(&c.new_hash),
            ) {
                Some(p) => {
                    let lines = text::lines(p.as_str());
                    push_indented(&mut out, &lines);
                },
                None => {},
            }
        }
        proof {
            let rest = if patch {
                patch_lines(objects@, c@)
            } else {
                Seq::empty()
            };
            assert(text::texts(out@) =~= first + (with_line + rest));
        }
        i += 1;
    }
    proof {
        assert(views.take(i as int) =~= views);
    }
    out
}

// ---------------------------------------------------------------------------
// restore, undo
// ---------------------------------------------------------------------------

/// The line of a snapshot in a list.
pub open spec fn snapshot_line(s: Snapshot) -> Seq<char> {
    "  #"@ + text::padded(text::dec_signed(s.id as int), 4) + " "@ + text::padded(s.kind@, 14) + " "@
        + util::timestamp_text(s.created_at as int) + "  ("@ + text::dec_signed(s.file_count as int)
        + " files)"@
}

fn show_snapshot(s: &Snapshot) -> (r: String)
    ensures
        r@ == snapshot_line(*s),
{
    let mut line = "  #".to_string();
    let id = text::show_signed(s.id);
    let id = text::pad(id.as_str(), 4);
    line.append(id.as_str());
    line.append(" ");
    let kind = text::pad(s.kind.as_str(), 14);
    line.append(kind.as_str());
    line.append(" ");
    let t = util::format_timestamp(s.created_at);
    line.append(t.as_str());
    line.append("  (");
    text::push_signed(&mut line, s.file_count);
    line.append(" files)");
    line
}

/// The lines of the first fifteen snapshots.
pub fn recent_snapshot_lines(snapshots: &Vec<Snapshot>) -> (r: Vec<String>)
    ensures
        text::texts(r@) == seq!["Recent snapshots:"@] + Seq::new(
            ci::at_most(snapshots@, 15).len(),
            |i: int| snapshot_line(snapshots@[i]),
        ),
{
    let n: usize = if snapshots.len() <= 15 {
        snapshots.len()
    } else {
        15
    };
    let ghost want = Seq::new(n as nat, |i: int| snapshot_line(snapshots@[i]));
    let mut out: Vec<String> = Vec::new();
    text::push_line(&mut out, "Recent snapshots:".to_string());
    let ghost first = text::texts(out@);
    proof {
        assert(first =~= seq!["Recent snapshots:"@]);
        assert(first + want.take(0) =~= first);
    }
    let mut i: usize = 0;
    while i < n
        invariant
            i <= n <= snapshots@.len(),
            want == Seq::new(n as nat, |i: int| snapshot_line(snapshots@[i])),
            text::texts(out@) == first + want.take(i as int),
        decreases n - i,
    {
        text::push_line(&mut out, show_snapshot(&snapshots[i]));
        proof {
            assert(first + want.take(i + 1) =~= (first + want.take(i as int)).push(want[i as int]));
        }
        i += 1;
    }
    proof {
        assert(want.take(i as int) =~= want);
    }
    out
}

/// What is told if no snapshot is named.
pub fn no_snapshot_named() -> (r: RewindError)
    ensures
        r@ == ErrorView::Other("specify a snapshot id to restore, e.g. `rewind restore 12`"@),
{
    RewindError::other("specify a snapshot id to restore, e.g. `rewind restore 12`")
}

/// What is told if there is no such snapshot.
pub fn no_such_snapshot(id: i64) -> (r: RewindError)
    ensures
        r@ == ErrorView::Other("no snapshot #"@ + text::dec_signed(id as int)),
{
    let mut s = "no snapshot #".to_string();
    text::push_signed(&mut s, id);
    RewindError::Other(s)
}

/// What is told if there is nothing to restore.
pub fn nothing_to_restore(id: i64) -> (r: String)
    ensures
        r@ == "Nothing to restore — the working tree already matches snapshot #"@
            + text::dec_signed(id as int) + "."@,
{
    let mut s = "Nothing to restore — the working tree already matches snapshot #".to_string();
    text::push_signed(&mut s, id);
    s.append(".");
    s
}

/// Lines that each start with `word`.
pub open spec fn started_with(word: Seq<char>, paths: Seq<Seq<char>>) -> Seq<Seq<char>> {
    Seq::new(paths.len(), |i: int| word + paths[i])
}

/// The lines of a plan.
pub open spec fn plan_text(id: int, plan: PlanView) -> Seq<Seq<char>> {
    seq!["Restore plan (snapshot #"@ + text::dec_signed(id) + "):"@] + started_with(
        "  create    "@,
        crate::restore::paths_of(plan.create),
    ) + started_with("  overwrite "@, crate::restore::paths_of(plan.overwrite)) + started_with(
        "  delete    "@,
        plan.delete,
    ) + seq![
        "  "@ + text::dec(plan.create.len() + plan.overwrite.len()) + " file(s) to write, "@
            + text::dec(plan.delete.len()) + " to delete"@,
    ]
}

fn push_entries(out: &mut Vec<String>, word: &str, entries: &Vec<PlanEntry>)
    ensures
        text::texts(final(out)@) == text::texts(old(out)@) + started_with(
            word@,
            crate::restore::paths_of(crate::restore::entry_views(entries@)),
        ),
{
    let ghost before = text::texts(out@);
    let ghost all = started_with(
        word@,
        crate::restore::paths_of(crate::restore::entry_views(entries@)),
    );
    let mut i: usize = 0;
    proof {
        assert(before + all.take(0) =~= before);
    }
    while i < entries.len()
        invariant
            i <= entries@.len(),
            all == started_with(
                word@,
                crate::restore::paths_of(crate::restore::entry_views(entries@)),
            ),
            text::texts(out@) == before + all.take(i as int),
        decreases entries@.len() - i,
    {
        let mut line = word.to_string();
        line.append(entries[i].path.as_str());
        text::push_line(out, line);
        proof {
            assert(before + all.take(i + 1) =~= (before + all.take(i as int)).push(all[i as int]));
        }
        i += 1;
    }
    proof {
        assert(all.take(i as int) =~= all);
    }
}

fn push_paths(out: &mut Vec<String>, word: &str, paths: &Vec<String>)
    ensures
        text::texts(final(out)@) == text::texts(old(out)@) + started_with(
            word@,
            text::texts(paths@),
        ),
{
    let ghost before = text::texts(out@);
    let ghost all = started_with(word@, text::texts(paths@));
    let mut i: usize = 0;
    proof {
        assert(before + all.take(0) =~= before);
    }
    while i < paths.len()
        invariant
            i <= paths@.len(),
            all == started_with(word@, text::texts(paths@)),
            text::texts(out@) == before + all.take(i as int),
        decreases paths@.len() - i,
    {
        let mut line = word.to_string();
        line.append(paths[i].as_str());
        text::push_line(out, line);
        proof {
            assert(before + all.take(i + 1) =~= (before + all.take(i as int)).push(all[i as int]));
        }
        i += 1;
    }
    proof {
        assert(all.take(i as int) =~= all);
    }
}

/// The lines of a plan for the snapshot `id`.
pub fn plan_lines(id: i64, plan: &RestorePlan) -> (r: Vec<String>)
    ensures
        text::texts(r@) == plan_text(id as int, plan@),
{
    let mut out: Vec<String> = Vec::new();
    let mut head = "Restore plan (snapshot #".to_string();
    text::push_signed(&mut head, id);
    head.append("):");
    text::push_line(&mut out, head);
    proof {
        assert(text::texts(out@) =~= seq![head@]);
    }
    push_entries(&mut out, "  create    ", &plan.create);
    push_entries(&mut out, "  overwrite ", &plan.overwrite);
    push_paths(&mut out, "  delete    ", &plan.delete);
    let mut foot = "  ".to_string();
    text::push_dec(&mut foot, plan.create.len() as u128 + plan.overwrite.len() as u128);
    foot.append(" file(s) to write, ");
    text::push_dec(&mut foot, plan.delete.len() as u128);
    foot.append(" to delete");
    let ghost before = text::texts(out@);
    text::push_line(&mut out, foot);
    proof {
        assert(before.push(foot@) =~= before + seq![foot@]);
    }
    out
}

/// What has to happen before a restore.
#[derive(Debug, PartialEq, Eq, Structural)]
pub enum Consent {
    /// Nothing: the user has agreed.
    Given,
    /// The user has to be asked.
    Ask,
    /// The user cannot be asked, so there is no restore.
    Refused,
}

/// What has to happen before a restore, given whether the user has agreed
/// beforehand and whether there is a terminal at which to ask.
pub fn consent(yes: bool, at_terminal: bool) -> (r: Consent)
    ensures
        r == if yes {
            Consent::Given
        } else if at_terminal {
            Consent::Ask
        } else {
            Consent::Refused
        },
{
    if yes {
        Consent::Given
    } else if at_terminal {
        Consent::Ask
    } else {
        Consent::Refused
    }
}

/// What is told if the user cannot be asked.
pub fn no_consent() -> (r: RewindError)
    ensures
        r@ == ErrorView::Other("refusing to restore without confirmation; re-run with `--yes`"@),
{
    RewindError::other("refusing to restore without confirmation; re-run with `--yes`")
}

/// Whether the answer to a question means yes: `y` or `yes`, in whatever case.
pub fn is_yes(answer: &str) -> (r: bool)
    ensures
        r == (text::lower(text::trimmed(answer@)) == "y"@ || text::lower(text::trimmed(answer@))
            == "yes"@),
{
    let a = text::to_lower(text::trim(answer));
    text::same(a.as_str(), "y") || text::same(a.as_str(), "yes")
}

/// What is told of a restore.
pub fn restored_line(outcome: &RestoreOutcome) -> (r: String)
    ensures
        r@ == "Restored: "@ + text::dec(outcome.stats.written as nat) + " written, "@ + text::dec(
            outcome.stats.deleted as nat,
        ) + " deleted. Safety snapshot #"@ + text::dec_signed(outcome.safety_snapshot_id as int)
            + ". Undo with `rewind undo`."@,
{
    let mut r = "Restored: ".to_string();
    text::push_dec(&mut r, outcome.stats.written as u128);
    r.append(" written, ");
    text::push_dec(&mut r, outcome.stats.deleted as u128);
    r.append(" deleted. Safety snapshot #");
    text::push_signed(&mut r, outcome.safety_snapshot_id);
    r.append(". Undo with `rewind undo`.");
    r
}

/// What is told of an undone restore.
pub fn undone_line(record: &Restore, stats: &RestoreStats) -> (r: String)
    ensures
        r@ == "Undid restore #"@ + text::dec_signed(record.id as int) + ": "@ + text::dec(
            stats.written as nat,
        ) + " written, "@ + text::dec(stats.deleted as nat) + " deleted (from safety snapshot #"@
            + text::dec_signed(record.safety_snapshot_id as int) + ")."@,
{
    let mut r = "Undid restore #".to_string();
    text::push_signed(&mut r, record.id);
    r.append(": ");
    text::push_dec(&mut r, stats.written as u128);
    r.append(" written, ");
    text::push_dec(&mut r, stats.deleted as u128);
    r.append(" deleted (from safety snapshot #");
    text::push_signed(&mut r, record.safety_snapshot_id);
    r.append(").");
    r
}

// ---------------------------------------------------------------------------
// doctor
// ---------------------------------------------------------------------------

/// `s`, or `default` where there is none.
pub open spec fn or_text(s: Option<Seq<char>>, default: Seq<char>) -> Seq<char> {
    match s {
        Some(s) => s,
        None => default,
    }
}

/// `label` and then `s`.
fn labelled(label: &str, s: &str) -> (r: String)
    ensures
        r@ == label@ + s@,
{
    let mut r = label.to_string();
    r.append(s);
    r
}

/// The lines on a repository. The commit is told by its first eight digits.
pub fn repository_lines(root: &str, state: &GitState) -> (r: Vec<String>)
    ensures
        text::texts(r@) == seq![
            "  repository:   "@ + root@,
            "  git:          branch "@ + or_text(text::opt_text(state.branch), "(none)"@)
                + ", head "@ + (match state.head {
                Some(h) => text::utf8_prefix(h@, 8),
                None => "(none)"@,
            }) + (if state.dirty {
                ", dirty"@
            } else {
                ""@
            }),
        ],
{
    let mut out: Vec<String> = Vec::new();
    text::push_line(&mut out, labelled("  repository:   ", root));
    let mut line = "  git:          branch ".to_string();
    match &state.branch {
        Some(b) => line.append(b.as_str()),
        None => line.append("(none)"),
    }
    line.append(", head ");
    match &state.head {
        Some(h) => {
            let short = text::take_utf8(h.as_str(), 8);
            line.append(short.as_str());
        },
        None => line.append("(none)"),
    }
    if state.dirty {
        line.append(", dirty");
    } else {
        line.append("");
    }
    text::push_line(&mut out, line);
    out
}

/// The word for the result of the last test run.
pub open spec fn verdict_word(last: Option<Option<bool>>) -> Seq<char> {
    match last {
        Some(Some(passed)) => if passed {
            "passed"@
        } else {
            "failed"@
        },
        Some(None) => "incomplete"@,
        None => "none yet"@,
    }
}

/// The lines on the storage and the configuration of a repository.
pub fn storage_lines(
    storage: &StoragePaths,
    has_config: bool,
    test_command: Option<&str>,
    snapshots: usize,
    last_test: Option<&TestRun>,
) -> (r: Vec<String>)
    ensures
        text::texts(r@) == seq![
            "  storage:      "@ + storage.root@,
            "  database:     "@ + storage.db@,
            "  objects:      "@ + storage.objects@,
            "  repo hash:    "@ + storage.repo_hash@,
            "  config:       "@ + (if has_config {
                ".rewind.toml present"@
            } else {
                "using defaults (no .rewind.toml)"@
            }),
            "  test command: "@ + or_text(paths::view_opt(test_command), "(none configured)"@),
            "  snapshots:    "@ + text::dec(snapshots as nat),
            "  last test:    "@ + verdict_word(
                match last_test {
                    Some(t) => Some(t.passed),
                    None => None,
                },
            ),
        ],
{
    let mut out: Vec<String> = Vec::new();
    text::push_line(&mut out, labelled("  storage:      ", storage.root.as_str()));
    text::push_line(&mut out, labelled("  database:     ", storage.db.as_str()));
    text::push_line(&mut out, labelled("  objects:      ", storage.objects.as_str()));
    text::push_line(&mut out, labelled("  repo hash:    ", storage.repo_hash.as_str()));
    let config = if has_config {
        ".rewind.toml present"
    } else {
        "using defaults (no .rewind.toml)"
    };
    text::push_line(&mut out, labelled("  config:       ", config));
    let command = match test_command {
        Some(c) => c,
        None => "(none configured)",
    };
    text::push_line(&mut out, labelled("  test command: ", command));
    let mut count = "  snapshots:    ".to_string();
    text::push_dec(&mut count, snapshots as u128);
    text::push_line(&mut out, count);
    let verdict = match last_test {
        Some(t) => match t.passed {
            Some(passed) => if passed {
                "passed"
            } else {
                "failed"
            },
            None => "incomplete",
        },
        None => "none yet",
    };
    text::push_line(&mut out, labelled("  last test:    ", verdict));
    out
}

/// The lines on a place where no repository could be found.
pub open spec fn no_repository_text(dir: Seq<char>, e: ErrorView) -> Seq<Seq<char>> {
    if e is NotAGitRepo {
        seq![
            "  repository:   NOT a Git repository ("@ + dir + ")"@,
            "  hint:         run `rewind init --git` to create one"@,
        ]
    } else {
        seq!["  repository:   error: "@ + crate::error::error_message(e)]
    }
}

/// The lines on a place where no repository could be found.
pub fn no_repository_lines(dir: &str, e: &RewindError) -> (r: Vec<String>)
    ensures
        text::texts(r@) == no_repository_text(dir@, e@),
{
    let mut out: Vec<String> = Vec::new();
    if let RewindError::NotAGitRepo = e {
        let mut line = labelled("  repository:   NOT a Git repository (", dir);
        line.append(")");
        text::push_line(&mut out, line);
        text::push_line(
            &mut out,
            "  hint:         run `rewind init --git` to create one".to_string(),
        );
    } else {
        let message = e.message();
        text::push_line(&mut out, labelled("  repository:   error: ", message.as_str()));
    }
    out
}

/// The lines on what surrounds the program.
pub fn environment_lines(shell: &str, data_dir: Option<&str>) -> (r: Vec<String>)
    ensures
        text::texts(r@) == seq![
            "  shell:        "@ + shell@,
            "  data dir env: "@ + or_text(paths::view_opt(data_dir), "(unset)"@),
            "  secrets excluded by default: .env, .env.*, *.pem, *.key, credentials, …"@,
        ],
{
    let mut out: Vec<String> = Vec::new();
    text::push_line(&mut out, labelled("  shell:        ", shell));
    let dir = match data_dir {
        Some(d) => d,
        None => "(unset)",
    };
    text::push_line(&mut out, labelled("  data dir env: ", dir));
    text::push_line(
        &mut out,
        "  secrets excluded by default: .env, .env.*, *.pem, *.key, credentials, …".to_string(),
    );
    out
}

} // verus!
