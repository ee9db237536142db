//! Laws of running commands and of recording what came of them.

use vstd::prelude::*;

use crate::cli;
use crate::cli::Consent;
use crate::cli::DiffSides;
use crate::config::Config;
use crate::config::ConfigFile;
use crate::error::RewindError;
use crate::exec;
use crate::exec::Arrival;
use crate::exec::CommandOutcome;
use crate::exec::RunSpec;
use crate::exec::RunState;
use crate::exec::StreamKind;
use crate::exec::Wait;
use crate::investigate::Investigation;
use crate::migrations;
use crate::models::TestRun;
use crate::repo::GitOutput;
use crate::repo::GitState;
use crate::restore::OpView;
use crate::restore::RestorePlan;
use crate::restore::Selection;
use crate::search;
use crate::session::RestoreOutcome;
use crate::session::RestoreRecord;
use crate::session::SafeRestore;
use crate::session;
use crate::session::CommandResult;
use crate::session::CompletedRun;
use crate::session::EndedRun;
use crate::session::NewEvent;
use crate::session::RunPlan;
use crate::session::RunRecord;
use crate::session::SnapshotRequest;
use crate::session::StartedRun;
use crate::session::TestResult;
use crate::text;
use crate::text::CharClass;
use crate::text_map::TextSet;

verus! {

// ---------------------------------------------------------------------------
// What is run
// ---------------------------------------------------------------------------

/// A command is handed to the shell whole, behind the flag that makes it run it.
pub proof fn lemma_arguments(spec: &RunSpec, windows: bool, r: Vec<String>)
    requires
        call_ensures(RunSpec::arguments, (spec, windows), r),
    ensures
        r@.len() == 3,
        r@[0]@ == spec.shell@,
        windows ==> r@[1]@ == "/C"@,
        !windows ==> r@[1]@ == "-c"@,
        r@[2]@ == spec.command@,
{
    let t = text::texts(r@);
    assert(t.len() == r@.len());
    assert(t[0] == r@[0]@ && t[1] == r@[1]@ && t[2] == r@[2]@);
}

/// A shell that is named is the one that is used. Otherwise it is that of the
/// platform.
pub proof fn lemma_shell(windows: bool, named: Option<&str>, r: String)
    requires
        call_ensures(exec::resolve_shell, (windows, named), r),
    ensures
        named is Some ==> r@ == named->0@,
        named is None && windows ==> r@ == "cmd"@,
        named is None && !windows ==> r@ == "/bin/sh"@,
{
}

/// A time limit is kept in milliseconds and changes nothing else. A limit of zero
/// is none.
pub proof fn lemma_time_limit(spec: RunSpec, secs: u64, r: RunSpec)
    requires
        call_ensures(RunSpec::with_timeout_secs, (spec, secs), r),
    ensures
        secs == 0 <==> r.timeout is None,
        secs > 0 ==> r.timeout->0 == secs * 1000,
        r.command == spec.command && r.cwd == spec.cwd && r.shell == spec.shell,
{
}

/// The words of a command are put together with a space between each two, so that
/// words without spaces can be told from the whole.
pub proof fn lemma_command_words(args: &Vec<String>, r: Result<String, RewindError>)
    requires
        call_ensures(cli::run_command_line, (args,), r),
    ensures
        r is Ok <==> args@.len() > 0,
        args@.len() == 1 ==> r->Ok_0@ == args@[0]@,
        args@.len() > 0 && (forall|i: int|
            0 <= i < args@.len() ==> !(#[trigger] text::texts(args@)[i]).contains(' '))
            ==> text::pieces_of(r->Ok_0@, ' ') == text::texts(args@),
{
    reveal_strlit(" ");
    assert(" "@ =~= seq![' ']);
    let words = text::texts(args@);
    if args@.len() == 1 {
        assert(words[0] == args@[0]@);
    }
    if args@.len() > 0 && (forall|i: int|
        0 <= i < args@.len() ==> !(#[trigger] text::texts(args@)[i]).contains(' ')) {
        text::laws::lemma_joined_pieces(words, ' ');
    }
}

/// The test command that is asked for comes before the one that is configured, and
/// without either there is none.
pub proof fn lemma_test_command(
    asked: Option<String>,
    configured: Option<String>,
    r: Result<String, RewindError>,
)
    requires
        call_ensures(cli::test_command_line, (asked, configured), r),
    ensures
        r is Ok <==> asked is Some || configured is Some,
        asked is Some ==> r->Ok_0@ == asked->0@,
        asked is None && configured is Some ==> r->Ok_0@ == configured->0@,
{
}

/// The command of a continuous-integration run comes from its arguments, else from
/// the configuration, and without either the run is refused.
pub proof fn lemma_ci_command(
    args: &Vec<String>,
    configured: bool,
    r: Result<Option<String>, RewindError>,
)
    requires
        call_ensures(cli::ci_command_line, (args, configured), r),
    ensures
        r is Err <==> args@.len() == 0 && !configured,
        args@.len() > 0 <==> r is Ok && r->Ok_0 is Some,
        args@.len() == 1 ==> r->Ok_0->0@ == args@[0]@,
{
    if args@.len() == 1 {
        assert(text::texts(args@)[0] == args@[0]@);
    }
}

/// The command to write down is the one asked for, else the one that is there,
/// else the usual one.
pub proof fn lemma_command_to_write(
    asked: Option<String>,
    configured: Option<String>,
    present: &TextSet,
    r: Option<String>,
)
    requires
        call_ensures(cli::init_test_command, (asked, configured, present), r),
    ensures
        asked is Some ==> r is Some && r->0@ == asked->0@,
        asked is None && configured is Some ==> r is Some && r->0@ == configured->0@,
        asked is None && configured is None && present@.contains_key("Cargo.toml"@) ==> r is Some
            && r->0@ == "cargo test"@,
{
    cli::laws::lemma_test_commands(present@.dom());
}

/// Without a file the configuration has the defaults. A file that cannot be used is
/// an error, never the defaults.
pub proof fn lemma_configuration(file: ConfigFile, r: Result<Config, RewindError>)
    requires
        call_ensures(Config::load, (file,), r),
    ensures
        file is Absent ==> r is Ok && r->Ok_0.max_file_size == 1_048_576
            && r->Ok_0.test_timeout_secs == 0 && !r->Ok_0.track_secrets
            && r->Ok_0.test_command is None && r->Ok_0.ignore@.len() == 0,
        file is Unreadable || file is Malformed ==> r is Err,
        file is Parsed ==> (r is Ok <==> file->Parsed_0.max_file_size > 0),
        file is Parsed && r is Ok ==> r->Ok_0 == file->Parsed_0,
        r is Ok ==> r->Ok_0.max_file_size > 0,
{
}

/// Tracking secrets is never silent.
pub proof fn lemma_warned(config: &Config, r: Option<String>)
    requires
        call_ensures(Config::warning, (config,), r),
    ensures
        config.track_secrets <==> r is Some,
{
}

// ---------------------------------------------------------------------------
// A run under way
// ---------------------------------------------------------------------------

/// A run is killed once at most, when it is cancelled or its time is up, and the
/// reason that it was killed for stays.
pub proof fn lemma_killed_once(
    s: RunState,
    cancel: bool,
    elapsed: u128,
    limit: Option<u128>,
    r: (RunState, bool),
    cancel_then: bool,
    elapsed_then: u128,
    limit_then: Option<u128>,
    q: (RunState, bool),
)
    requires
        call_ensures(RunState::check, (s, cancel, elapsed, limit), r),
        call_ensures(RunState::check, (r.0, cancel_then, elapsed_then, limit_then), q),
    ensures
        r.1 ==> !q.1,
        r.1 ==> cancel || (limit is Some && elapsed >= limit->0),
        r.1 ==> q.0.is_cancelled() == r.0.is_cancelled() && q.0.is_timed_out()
            == r.0.is_timed_out(),
        r.1 && cancel ==> r.0.is_cancelled(),
        r.1 && !cancel ==> r.0.is_timed_out() && !r.0.is_cancelled(),
        !s.is_cancelled() && !s.is_timed_out() && !r.1 ==> !r.0.is_cancelled()
            && !r.0.is_timed_out(),
        !s.is_cancelled() && !s.is_timed_out() && (cancel || (limit is Some && elapsed
            >= limit->0)) ==> r.1,
        !cancel && limit is None ==> !r.1,
{
}

/// Each piece of output goes to the end of the log and to the end of its own
/// stream, and to nothing else.
pub proof fn lemma_output_collected(
    s: RunState,
    a: &Arrival,
    t: RunState,
    code: Option<i32>,
    ms: u64,
    before: CommandOutcome,
    after: CommandOutcome,
)
    requires
        call_ensures(RunState::arrived, (s, a), t),
        call_ensures(RunState::finish, (s, code, ms), before),
        call_ensures(RunState::finish, (t, code, ms), after),
    ensures
        *a is Chunk ==> {
            let c = a->Chunk_0;
            &&& after.combined@ == before.combined@ + c.data@
            &&& c.kind == StreamKind::Stdout ==> after.stdout@ == before.stdout@ + c.data@
                && after.stderr@ == before.stderr@
            &&& c.kind == StreamKind::Stderr ==> after.stderr@ == before.stderr@ + c.data@
                && after.stdout@ == before.stdout@
        },
        !(*a is Chunk) ==> after.combined@ == before.combined@ && after.stdout@ == before.stdout@
            && after.stderr@ == before.stderr@,
        after.exit_code == code && after.duration_ms == ms,
        after.cancelled == before.cancelled && after.timed_out == before.timed_out,
{
    if let Arrival::Chunk(c) = a {
        assert(t.chunks().drop_last() =~= s.chunks());
    }
}

/// A run is over only when its process has exited and its output has ended, and
/// output is waited for until it has.
pub proof fn lemma_over(s: &RunState, exited: bool, over: bool, w: Wait)
    requires
        call_ensures(RunState::is_over, (s, exited), over),
        call_ensures(RunState::wait, (s,), w),
    ensures
        over ==> exited,
        over ==> w is Sleep,
        exited && w is Sleep ==> over,
{
}

/// A run passed if it ended by itself with code 0, and in no other case.
pub proof fn lemma_passed(outcome: &CommandOutcome, r: bool)
    requires
        call_ensures(CommandOutcome::passed, (outcome,), r),
    ensures
        r <==> outcome.exit_code == Some(0i32) && !outcome.cancelled && !outcome.timed_out,
{
}

// ---------------------------------------------------------------------------
// What is recorded
// ---------------------------------------------------------------------------

/// A recorded command is run as it was given, between two snapshots, and what came
/// of it is recorded as it was.
pub proof fn lemma_command_recorded(
    command: &str,
    cwd: &str,
    shell: String,
    plan: RunPlan,
    pre: i64,
    started: StartedRun,
    spec: &RunSpec,
    outcome: CommandOutcome,
    ended: EndedRun,
    post: i64,
    log: String,
    done: CompletedRun,
    record: RunRecord,
    id: i64,
    r: CommandResult,
)
    requires
        call_ensures(RunPlan::for_command, (command, cwd, shell), plan),
        call_ensures(RunPlan::started, (plan, pre), started),
        call_ensures(StartedRun::spec, (&started,), spec),
        call_ensures(StartedRun::ended, (started, outcome), ended),
        call_ensures(EndedRun::completed, (ended, post, log), done),
        call_ensures(CompletedRun::record, (&done,), record),
        call_ensures(CompletedRun::command_result, (done, id), r),
    ensures
        spec.command@ == command@ && spec.cwd@ == cwd@ && spec.shell == shell,
        spec.timeout is None,
        record.passed == Some(true) <==> outcome.exit_code == Some(0i32) && !outcome.cancelled
            && !outcome.timed_out,
        record.passed is None <==> outcome.cancelled,
        record.cancelled == outcome.cancelled,
        record.exit_code is Some <==> outcome.exit_code is Some,
        outcome.exit_code is Some ==> record.exit_code->0 == outcome.exit_code->0,
        record.duration_ms == outcome.duration_ms,
        record.post_snapshot_id == post,
        record.log_object@ == log@,
        r.outcome == outcome,
        r.pre_snapshot == pre && r.post_snapshot == post && r.command_id == id,
{
    session::lemma_verdict(outcome);
}

/// A test runs the configured command within the configured time, and only a
/// failure is investigated and keeps what was found.
pub proof fn lemma_test_recorded(
    config: &Config,
    cwd: &str,
    shell: String,
    plan: RunPlan,
    pre: i64,
    started: StartedRun,
    spec: &RunSpec,
    outcome: CommandOutcome,
    ended: EndedRun,
    post: i64,
    log: String,
    done: CompletedRun,
    wants: bool,
    id: i64,
    found: Option<Investigation>,
    r: TestResult,
)
    requires
        call_ensures(
            RunPlan::for_test,
            (config, cwd, shell),
            Ok::<RunPlan, RewindError>(plan),
        ),
        call_ensures(RunPlan::started, (plan, pre), started),
        call_ensures(StartedRun::spec, (&started,), spec),
        call_ensures(StartedRun::ended, (started, outcome), ended),
        call_ensures(EndedRun::completed, (ended, post, log), done),
        call_ensures(CompletedRun::wants_investigation, (&done,), wants),
        call_ensures(CompletedRun::test_result, (done, id, found), r),
    ensures
        config.test_command is Some && spec.command@ == config.test_command->0@,
        config.test_timeout_secs > 0 ==> spec.timeout is Some && spec.timeout->0
            == config.test_timeout_secs * 1000,
        config.test_timeout_secs == 0 ==> spec.timeout is None,
        r.passed <==> outcome.exit_code == Some(0i32) && !outcome.cancelled && !outcome.timed_out,
        wants <==> !r.passed && !outcome.cancelled,
        wants ==> r.investigation == found,
        !wants ==> r.investigation is None,
        r.outcome == outcome && r.pre_snapshot == pre && r.post_snapshot == post,
{
    session::lemma_verdict(outcome);
}

/// Without a test command nothing is tested.
pub proof fn lemma_nothing_to_test(
    config: &Config,
    cwd: &str,
    shell: String,
    r: Result<RunPlan, RewindError>,
)
    requires
        call_ensures(RunPlan::for_test, (config, cwd, shell), r),
    ensures
        r is Ok <==> config.test_command is Some,
        r is Err ==> r->Err_0@ is Config,
{
}

/// The snapshots around a run are told apart from each other, and those of a test
/// from those of a command.
pub proof fn lemma_snapshots_around(
    plan: &RunPlan,
    ended: &EndedRun,
    before: SnapshotRequest,
    after: SnapshotRequest,
)
    requires
        call_ensures(RunPlan::snapshot_before, (plan,), before),
        call_ensures(EndedRun::snapshot_after, (ended,), after),
        ended.started().plan() == *plan,
    ensures
        plan.is_test() ==> before.kind@ == "pre_test"@ && after.kind@ == "post_test"@,
        !plan.is_test() ==> before.kind@ == "pre_command"@ && after.kind@ == "post_command"@,
        !plan.is_test() ==> before.label@ == "before `"@ + plan.run_spec().command@ + "`"@
            && after.label@ == "after `"@ + plan.run_spec().command@ + "`"@,
        plan.is_test() ==> before.label@ == "before test"@ && after.label@ == "after test"@,
{
}

/// The timeline tells a command by its text and how it ended, and a test by how it
/// ended and how long it took.
pub proof fn lemma_run_told(done: &CompletedRun, e: NewEvent)
    requires
        call_ensures(CompletedRun::event, (done,), e),
    ensures
        ({
            let plan = done.ended().started().plan();
            let outcome = done.ended().outcome();
            &&& plan.is_test() <==> e.kind@ == "test"@
            &&& !plan.is_test() ==> e.kind@ == "command"@ && e.summary@ == "$ "@
                + plan.run_spec().command@ + " — "@ + session::status_text(outcome)
            &&& plan.is_test() ==> e.summary@ == "test "@ + session::status_text(outcome) + " ("@
                + crate::util::duration_text(outcome.duration_ms as int) + ")"@
        }),
{
    reveal_strlit("test");
    reveal_strlit("command");
    assert("test"@.len() == 4 && "command"@.len() == 7);
}

/// The last test run is looked into if it failed, not if it passed, was cancelled
/// or never ended.
pub proof fn lemma_last_run(run: Option<&TestRun>, r: bool)
    requires
        call_ensures(session::last_run_failed, (run,), r),
    ensures
        r <==> run is Some && run->0.passed == Some(false),
{
}

/// A checkpoint is labelled with its name, without the space around it.
pub proof fn lemma_checkpoint_named(
    name: &str,
    now: i64,
    r: SnapshotRequest,
    v: Seq<char>,
    n: Seq<char>,
    w: Seq<char>,
)
    requires
        call_ensures(session::checkpoint_snapshot, (Some(name), now), r),
        name@ == v + n + w,
        text::all_in(v, CharClass::WhiteSpace),
        text::all_in(w, CharClass::WhiteSpace),
        n.len() > 0,
        !text::is_white_space(n[0]),
        !text::is_white_space(n.last()),
    ensures
        r.kind@ == "checkpoint"@,
        r.label@ == "checkpoint: "@ + n,
{
    session::lemma_checkpoint_label(v, n, w, now as int);
}

// ---------------------------------------------------------------------------
// Decisions
// ---------------------------------------------------------------------------

/// Nothing is restored unasked: consent is taken as given only if it was given, and
/// where it can neither be given nor asked for it is refused.
pub proof fn lemma_consent(yes: bool, at_terminal: bool, r: Consent)
    requires
        call_ensures(cli::consent, (yes, at_terminal), r),
    ensures
        r is Given <==> yes,
        r is Ask <==> !yes && at_terminal,
        r is Refused <==> !yes && !at_terminal,
{
}

/// Only `y` and `yes` mean yes, in whatever case and with whatever space around
/// them. No answer means no.
pub proof fn lemma_yes(answer: &str, r: bool, v: Seq<char>, s: Seq<char>, w: Seq<char>)
    requires
        call_ensures(cli::is_yes, (answer,), r),
        answer@ == v + s + w,
        text::all_in(v, CharClass::WhiteSpace),
        text::all_in(w, CharClass::WhiteSpace),
    ensures
        s.len() > 0 && !text::is_white_space(s[0]) && !text::is_white_space(s.last()) ==> (r <==> (
        s.len() == 1 && (s[0] == 'y' || s[0] == 'Y')) || (s.len() == 3 && (s[0] == 'y' || s[0]
            == 'Y') && (s[1] == 'e' || s[1] == 'E') && (s[2] == 's' || s[2] == 'S'))),
        s.len() == 0 && w.len() == 0 ==> !r,
{
    reveal_strlit("y");
    reveal_strlit("yes");
    if s.len() > 0 && !text::is_white_space(s[0]) && !text::is_white_space(s.last()) {
        text::laws::lemma_trimmed(v, s, w);
        let l = text::lower(s);
        assert(l.len() == s.len());
        if s.len() == 1 {
            assert(l =~= "y"@ <==> l[0] == 'y');
        }
        if s.len() == 3 {
            assert(l =~= "yes"@ <==> l[0] == 'y' && l[1] == 'e' && l[2] == 's');
        }
    }
    if s.len() == 0 && w.len() == 0 {
        let none = Seq::<char>::empty();
        assert(answer@ =~= v + none);
        assert(v + none =~= v);
        text::lemma_strip_front(v, none, CharClass::WhiteSpace);
        assert(text::trimmed(answer@).len() == 0);
        assert(text::lower(text::trimmed(answer@)).len() == 0);
    }
}

/// Two snapshots that are named are compared in the order in which they are named,
/// one with the working tree, and without a name the last two, the older first.
pub proof fn lemma_compared_sides(ids: &Vec<i64>, a: Option<i64>, b: Option<i64>, r: DiffSides)
    requires
        call_ensures(cli::diff_sides, (ids, a, b), r),
    ensures
        ids@.len() == 0 <==> r is NoSnapshots,
        ids@.len() > 0 && a is Some && b is Some ==> r == (DiffSides::Snapshots {
            old: a->0,
            new: b->0,
        }),
        ids@.len() > 0 && a is Some && b is None ==> r == (DiffSides::WorkingTree { old: a->0 }),
        ids@.len() == 1 && a is None ==> r is OneSnapshot,
        ids@.len() >= 2 && a is None ==> r == (DiffSides::Snapshots { old: ids@[1], new: ids@[0] }),
{
}

/// The pattern that a search hands to the database finds exactly the texts that
/// hold what was typed, in whatever case.
pub proof fn lemma_search(query: &str, pattern: String, t: Seq<char>)
    requires
        call_ensures(search::like_pattern, (query,), pattern),
    ensures
        search::is_like(pattern@, t) <==> text::occurs(text::lower(t), text::lower(query@)),
{
    search::lemma_search_finds(query@, t);
}

/// A detached head is no branch, and a status that is not empty means changes that
/// are not committed.
pub proof fn lemma_git_state(
    branch: &Option<GitOutput>,
    head: &Option<GitOutput>,
    status: &Option<GitOutput>,
    r: GitState,
)
    requires
        call_ensures(GitState::from_output, (branch, head, status), r),
    ensures
        r.branch is Some ==> r.branch->0@ != "HEAD"@ && crate::repo::told(*branch) == Some(
            r.branch->0@,
        ),
        r.branch is None ==> crate::repo::told(*branch) is None || crate::repo::told(*branch)
            == Some("HEAD"@),
        r.head is Some <==> crate::repo::told(*head) is Some,
        r.dirty <==> crate::repo::told(*status) is Some,
{
}

/// The migrations that are due are those after the version that was reached, up to
/// the latest.
pub proof fn lemma_migrations(current: i64, latest: u32, r: Vec<i64>, i: int)
    requires
        call_ensures(migrations::pending, (current, latest), r),
        current >= 0,
    ensures
        current >= latest ==> r@.len() == 0,
        current < latest ==> r@.len() == latest - current,
        0 <= i < r@.len() ==> r@[i] == current + 1 + i,
{
    let v = migrations::numbers(r@);
    assert(v.len() == r@.len());
    if 0 <= i < r@.len() {
        assert(v[i] == r@[i]);
    }
}

/// Waiting is for output while it lasts, for a short time, and then for a shorter
/// one.
pub proof fn lemma_waits(s: &RunState, w: Wait)
    requires
        call_ensures(RunState::wait, (s,), w),
    ensures
        !s.is_closed() ==> w == Wait::Output(40),
        s.is_closed() ==> w == Wait::Sleep(15),
{
}

/// A run starts with no output, neither cancelled nor out of time, and ends so if
/// nothing happens.
pub proof fn lemma_quiet_run(s: RunState, code: Option<i32>, ms: u64, r: CommandOutcome)
    requires
        call_ensures(RunState::start, (), s),
        call_ensures(RunState::finish, (s, code, ms), r),
    ensures
        r.stdout@.len() == 0 && r.stderr@.len() == 0 && r.combined@.len() == 0,
        !r.cancelled && !r.timed_out,
        r.exit_code == code,
{
}

/// The events of a session, of a snapshot and of an undone restore have their own
/// kinds, and tell what they are of.
pub proof fn lemma_events(
    start: NewEvent,
    end: NewEvent,
    label: &str,
    files: i64,
    taken: NewEvent,
    id: i64,
    undone: NewEvent,
    inv: &Investigation,
    found: NewEvent,
)
    requires
        call_ensures(session::session_started, (), start),
        call_ensures(session::session_ended, (), end),
        call_ensures(session::snapshot_event, (label, files), taken),
        call_ensures(session::undo_event, (id,), undone),
        call_ensures(session::investigation_event, (inv,), found),
    ensures
        start.kind@ == "session_start"@ && end.kind@ == "session_end"@,
        taken.kind@ == "snapshot"@,
        taken.summary@ == "snapshot "@ + label@ + " ("@ + text::dec_signed(files as int)
            + " files)"@,
        undone.kind@ == "restore"@ && undone.summary@ == "undo restore #"@ + text::dec_signed(
            id as int,
        ),
        found.kind@ == "investigation"@ && found.summary@ == inv.summary@,
{
}

/// A safety snapshot precedes every restore, and what is recorded of it names both
/// snapshots and counts what was done.
pub proof fn lemma_restore_recorded(
    root: &str,
    source: i64,
    plan: &RestorePlan,
    safety: i64,
    begun: SafeRestore,
    selection: &Selection,
    record: RestoreRecord,
    id: i64,
    outcome: RestoreOutcome,
    request: SnapshotRequest,
)
    requires
        call_ensures(
            SafeRestore::begin,
            (root, source, plan, safety),
            Ok::<SafeRestore, RewindError>(begun),
        ),
        call_ensures(SafeRestore::record, (&begun, selection), record),
        call_ensures(RestoreRecord::outcome, (&record, id), outcome),
        call_ensures(session::safety_snapshot, (), request),
    ensures
        record.source_snapshot_id == source && record.safety_snapshot_id == safety,
        record.stats.written == 0 && record.stats.deleted == 0,
        selection@ is All ==> record.scope@ == "full"@,
        outcome.restore_id == id && outcome.safety_snapshot_id == safety,
        outcome.stats == record.stats,
        request.kind@ == "safety"@,
{
    assert(begun.run().ops().take(0) =~= Seq::<OpView>::empty());
}

/// Git's root is believed where git succeeds, and being outside a repository is told
/// apart.
pub proof fn lemma_root_found(out: &GitOutput, r: Result<String, RewindError>)
    requires
        call_ensures(crate::repo::discovered_root, (out,), r),
    ensures
        r is Ok ==> out.success && r->Ok_0@ == text::trimmed(text::lossy(out.stdout@))
            && r->Ok_0@.len() > 0,
        !out.success && text::occurs(text::lossy(out.stderr@), "not a git repository"@) ==> r
            == Err::<String, RewindError>(RewindError::NotAGitRepo),
        out.success && text::trimmed(text::lossy(out.stdout@)).len() > 0 ==> r is Ok,
{
    crate::repo::lemma_git_answers(*out);
}

/// The kinds of files by which a project is known, and manifests, are told by their
/// base names.
pub proof fn lemma_manifest_names(path: &str, r: bool, d: Seq<char>, n: Seq<char>)
    requires
        call_ensures(exec::is_dependency_manifest, (path,), r),
        path@ == d + "/"@ + n,
        !n.contains('/'),
    ensures
        n == "Cargo.toml"@ || n == "package.json"@ || n == "requirements.txt"@ || n == "go.mod"@
            || n == "Cargo.lock"@ || n == "pyproject.toml"@ || n == "Gemfile"@ ==> r,
        n.len() == 0 ==> !r,
{
    crate::investigate::laws::lemma_manifests(d, n);
    reveal_strlit("Cargo.toml");
    reveal_strlit("Cargo.lock");
    reveal_strlit("package.json");
    reveal_strlit("package-lock.json");
    reveal_strlit("yarn.lock");
    reveal_strlit("pnpm-lock.yaml");
    reveal_strlit("requirements.txt");
    reveal_strlit("Pipfile");
    reveal_strlit("Pipfile.lock");
    reveal_strlit("poetry.lock");
    reveal_strlit("pyproject.toml");
    reveal_strlit("go.mod");
    reveal_strlit("go.sum");
    reveal_strlit("Gemfile");
    reveal_strlit("Gemfile.lock");
    reveal_strlit("composer.json");
    reveal_strlit("composer.lock");
    reveal_strlit("pom.xml");
    reveal_strlit("build.gradle");
}

/// A session begins with a snapshot of its own kind, and a checkpoint is told by its
/// label.
pub proof fn lemma_session_begins(first: SnapshotRequest, label: &str, e: NewEvent)
    requires
        call_ensures(session::session_snapshot, (), first),
        call_ensures(session::checkpoint_event, (label,), e),
    ensures
        first.kind@ == "session_start"@,
        e.kind@ == "checkpoint"@,
        e.summary@ == label@,
{
}

/// A command that cannot be started is told with the reason.
pub proof fn lemma_not_launched(spec: &RunSpec, why: &str, r: RewindError)
    requires
        call_ensures(RunSpec::launch_failure, (spec, why), r),
    ensures
        r is Other,
        text::occurs(r->Other_0@, spec.command@),
        why@.is_suffix_of(r->Other_0@),
{
    let m = r->Other_0@;
    let head = "failed to launch `"@;
    assert(m =~= head + spec.command@ + ("`: "@ + why@));
    text::lemma_occurs_within(head, spec.command@, "`: "@ + why@);
    assert(m.subrange(m.len() - why@.len(), m.len() as int) =~= why@);
}

} // verus!
