//! The operations that users perform: checkpoints, recorded commands and
//! tests, restores and their undoing.
//!
//! Each operation is a chain of stages. A stage says what is to be done, and
//! only what came of it leads to the next stage, so nothing can be skipped.

use vstd::prelude::*;

use crate::config::Config;
use crate::error::ErrorView;
use crate::error::RewindError;
use crate::exec::CommandOutcome;
use crate::exec::RunSpec;
use crate::investigate::Investigation;
use crate::models::event_kind;
use crate::models::snapshot_kind;
use crate::models::Restore;
use crate::models::TestRun;
use crate::paths;
use crate::restore;
use crate::restore::RestorePlan;
use crate::restore::RestoreRun;
use crate::restore::RestoreStats;
use crate::restore::Selection;
use crate::restore::SelectionView;
use crate::snapshot;
use crate::text;
use crate::util;

verus! {

/// A snapshot that is to be taken.
#[derive(Debug, PartialEq, Eq)]
pub struct SnapshotRequest {
    pub kind: String,
    pub label: String,
}

/// An entry that is to be added to the timeline.
#[derive(Debug, PartialEq, Eq)]
pub struct NewEvent {
    pub kind: String,
    pub summary: String,
}

/// The result of a recorded command.
#[derive(Debug, PartialEq, Eq)]
pub struct CommandResult {
    pub command_id: i64,
    pub outcome: CommandOutcome,
    pub pre_snapshot: i64,
    pub post_snapshot: i64,
}

/// The result of a test run.
#[derive(Debug, PartialEq, Eq)]
pub struct TestResult {
    pub test_run_id: i64,
    pub outcome: CommandOutcome,
    pub pre_snapshot: i64,
    pub post_snapshot: i64,
    pub passed: bool,
    /// There is one if the run failed and an earlier run passed.
    pub investigation: Option<Investigation>,
}

/// The result of a restore.
#[derive(Debug, Clone, Copy, PartialEq, Eq)]
pub struct RestoreOutcome {
    pub restore_id: i64,
    pub safety_snapshot_id: i64,
    pub stats: RestoreStats,
}

// ---------------------------------------------------------------------------
// Checkpoints
// ---------------------------------------------------------------------------

/// The label of a checkpoint: its name, or the time of day if it has none.
pub open spec fn checkpoint_text(name: Option<Seq<char>>, now: int) -> Seq<char> {
    match name {
        Some(n) => if text::trimmed(n).len() > 0 {
            "checkpoint: "@ + text::trimmed(n)
        } else {
            "checkpoint "@ + util::clock_text(now)
        },
        None => "checkpoint "@ + util::clock_text(now),
    }
}

/// The label of a checkpoint made at `now`.
pub fn checkpoint_label(name: Option<&str>, now: i64) -> (r: String)
    ensures
        r@ == checkpoint_text(crate::paths::view_opt(name), now as int),
{
    if let Some(n) = name {
        let n = text::trim(n);
        if !n.is_empty() {
            let mut r = "checkpoint: ".to_string();
            r.append(n);
            return r;
        }
    }
    let mut r = "checkpoint ".to_string();
    let clock = util::format_clock(now);
    r.append(clock.as_str());
    r
}

// ---------------------------------------------------------------------------
// Recorded runs
// ---------------------------------------------------------------------------

/// A run has passed: it ended by itself with code 0.
pub open spec fn has_passed(outcome: CommandOutcome) -> bool {
    !outcome.cancelled && !outcome.timed_out && outcome.exit_code == Some(0i32)
}

/// How a run ended, in words.
pub open spec fn status_text(outcome: CommandOutcome) -> Seq<char> {
    if outcome.cancelled {
        "cancelled"@
    } else if outcome.timed_out {
        "timed out"@
    } else if has_passed(outcome) {
        "passed"@
    } else {
        match outcome.exit_code {
            Some(code) => "failed (exit "@ + text::dec_signed(code as int) + ")"@,
            None => "failed (killed)"@,
        }
    }
}

/// How a run ended, in words.
pub fn describe_status(outcome: &CommandOutcome) -> (r: String)
    ensures
        r@ == status_text(*outcome),
{
    if outcome.cancelled {
        "cancelled".to_string()
    } else if outcome.timed_out {
        "timed out".to_string()
    } else if outcome.passed() {
        "passed".to_string()
    } else {
        match outcome.exit_code {
            Some(code) => {
                let mut r = "failed (exit ".to_string();
                let n = text::show_signed(code as i64);
                r.append(n.as_str());
                r.append(")");
                r
            },
            None => "failed (killed)".to_string(),
        }
    }
}

/// A run that is to be recorded. First a snapshot is due.
pub struct RunPlan {
    test: bool,
    spec: RunSpec,
}

/// A recorded run whose first snapshot was taken. Now it may be executed.
pub struct StartedRun {
    plan: RunPlan,
    pre: i64,
}

/// A recorded run that has ended. Now its second snapshot is due, and its log
/// is to be stored.
pub struct EndedRun {
    started: StartedRun,
    outcome: CommandOutcome,
}

/// A recorded run that is complete.
pub struct CompletedRun {
    ended: EndedRun,
    post: i64,
    log: String,
}

/// What is recorded of a run that is complete.
#[derive(Debug, PartialEq, Eq)]
pub struct RunRecord {
    pub exit_code: Option<i64>,
    /// Whether it passed. Of a run that was cancelled this is not known.
    pub passed: Option<bool>,
    pub cancelled: bool,
    pub duration_ms: u64,
    pub post_snapshot_id: i64,
    pub log_object: String,
}

/// Why there is nothing to test.
pub open spec fn no_test_command() -> ErrorView {
    ErrorView::Config(
        "no test command configured — set `test_command` in .rewind.toml or run `rewind init`"@,
    )
}

fn in_ticks(before: &str, command: &str) -> (r: String)
    ensures
        r@ == before@ + command@ + "`"@,
{
    let mut r = before.to_string();
    r.append(command);
    r.append("`");
    r
}

impl RunPlan {
    /// The run is one of the test command.
    pub closed spec fn is_test(self) -> bool {
        self.test
    }

    /// What is run.
    pub closed spec fn run_spec(self) -> RunSpec {
        self.spec
    }

    /// A run of `command` in `cwd` by `shell`.
    pub fn for_command(command: &str, cwd: &str, shell: String) -> (r: RunPlan)
        ensures
            !r.is_test(),
            r.run_spec().command@ == command@,
            r.run_spec().cwd@ == cwd@,
            r.run_spec().shell == shell,
            r.run_spec().timeout is None,
    {
        RunPlan { test: false, spec: RunSpec::new(command, cwd, shell) }
    }

    /// A run of the configured test command, with the configured time limit.
    pub fn for_test(config: &Config, cwd: &str, shell: String) -> (r: Result<RunPlan, RewindError>)
        ensures
            match config.test_command {
                Some(command) => r matches Ok(p) && {
                    &&& p.is_test()
                    &&& p.run_spec().command@ == command@
                    &&& p.run_spec().cwd@ == cwd@
                    &&& p.run_spec().shell == shell
                    &&& config.test_timeout_secs == 0 ==> p.run_spec().timeout is None
                    &&& config.test_timeout_secs > 0 ==> (p.run_spec().timeout matches Some(ms)
                        && ms == config.test_timeout_secs * 1000)
                },
                None => r matches Err(e) && e@ == no_test_command(),
            },
    {
        match &config.test_command {
            Some(command) => {
                let spec = RunSpec::new(command.as_str(), cwd, shell).with_timeout_secs(
                    config.test_timeout_secs,
                );
                Ok(RunPlan { test: true, spec })
            },
            None => Err(
                RewindError::Config(
                    "no test command configured — set `test_command` in .rewind.toml or run `rewind init`".to_string(),
                ),
            ),
        }
    }

    /// The command line.
    pub fn command(&self) -> (r: &str)
        ensures
            r@ == self.run_spec().command@,
    {
        self.spec.command.as_str()
    }

    /// The snapshot to be taken before the run.
    pub fn snapshot_before(&self) -> (r: SnapshotRequest)
        ensures
            r.kind@ == if self.is_test() {
                snapshot_kind::PRE_TEST@
            } else {
                snapshot_kind::PRE_COMMAND@
            },
            r.label@ == if self.is_test() {
                "before test"@
            } else {
                "before `"@ + self.run_spec().command@ + "`"@
            },
    {
        if self.test {
            SnapshotRequest {
                kind: snapshot_kind::PRE_TEST.to_string(),
                label: "before test".to_string(),
            }
        } else {
            SnapshotRequest {
                kind: snapshot_kind::PRE_COMMAND.to_string(),
                label: in_ticks("before `", self.spec.command.as_str()),
            }
        }
    }

    /// The run once the snapshot before it was taken.
    pub fn started(self, pre_snapshot: i64) -> (r: StartedRun)
        ensures
            r.plan() == self,
            r.pre_snapshot() == pre_snapshot,
    {
        StartedRun { plan: self, pre: pre_snapshot }
    }
}

impl StartedRun {
    /// The plan of the run.
    pub closed spec fn plan(self) -> RunPlan {
        self.plan
    }

    /// The snapshot taken before the run.
    pub closed spec fn pre_snapshot(self) -> i64 {
        self.pre
    }

    /// What to execute.
    pub fn spec(&self) -> (r: &RunSpec)
        ensures
            *r == self.plan().run_spec(),
    {
        &self.plan.spec
    }

    /// The run once it has ended.
    pub fn ended(self, outcome: CommandOutcome) -> (r: EndedRun)
        ensures
            r.started() == self,
            r.outcome() == outcome,
    {
        EndedRun { started: self, outcome }
    }
}

impl EndedRun {
    /// The run as it was started.
    pub closed spec fn started(self) -> StartedRun {
        self.started
    }

    /// The outcome of the run.
    pub closed spec fn outcome(self) -> CommandOutcome {
        self.outcome
    }

    /// The snapshot to be taken after the run.
    pub fn snapshot_after(&self) -> (r: SnapshotRequest)
        ensures
            r.kind@ == if self.started().plan().is_test() {
                snapshot_kind::POST_TEST@
            } else {
                snapshot_kind::POST_COMMAND@
            },
            r.label@ == if self.started().plan().is_test() {
                "after test"@
            } else {
                "after `"@ + self.started().plan().run_spec().command@ + "`"@
            },
    {
        if self.started.plan.test {
            SnapshotRequest {
                kind: snapshot_kind::POST_TEST.to_string(),
                label: "after test".to_string(),
            }
        } else {
            SnapshotRequest {
                kind: snapshot_kind::POST_COMMAND.to_string(),
                label: in_ticks("after `", self.started.plan.spec.command.as_str()),
            }
        }
    }

    /// The log to be stored: all output in the order of arrival.
    pub fn log(&self) -> (r: &Vec<u8>)
        ensures
            *r == self.outcome().combined,
    {
        &self.outcome.combined
    }

    /// The run once the snapshot after it was taken and its log was stored.
    pub fn completed(self, post_snapshot: i64, log_object: String) -> (r: CompletedRun)
        ensures
            r.ended() == self,
            r.post_snapshot() == post_snapshot,
            r.log_object() == log_object@,
    {
        CompletedRun { ended: self, post: post_snapshot, log: log_object }
    }
}

/// What is known of whether a run passed.
pub open spec fn verdict(outcome: CommandOutcome) -> Option<bool> {
    if outcome.cancelled {
        None
    } else {
        Some(has_passed(outcome))
    }
}

impl CompletedRun {
    /// The run as it ended.
    pub closed spec fn ended(self) -> EndedRun {
        self.ended
    }

    /// The snapshot taken after the run.
    pub closed spec fn post_snapshot(self) -> i64 {
        self.post
    }

    /// The hash of the stored log.
    pub closed spec fn log_object(self) -> Seq<char> {
        self.log@
    }

    /// What is recorded of the run.
    pub fn record(&self) -> (r: RunRecord)
        ensures
            match (r.exit_code, self.ended().outcome().exit_code) {
                (Some(a), Some(b)) => a == b,
                (None, None) => true,
                _ => false,
            },
            r.passed == verdict(self.ended().outcome()),
            r.cancelled == self.ended().outcome().cancelled,
            r.duration_ms == self.ended().outcome().duration_ms,
            r.post_snapshot_id == self.post_snapshot(),
            r.log_object@ == self.log_object(),
    {
        let outcome = &self.ended.outcome;
        let exit_code: Option<i64> = match outcome.exit_code {
            Some(c) => Some(c as i64),
            None => None,
        };
        let passed: Option<bool> = if outcome.cancelled {
            None
        } else {
            Some(outcome.passed())
        };
        RunRecord {
            exit_code,
            passed,
            cancelled: outcome.cancelled,
            duration_ms: outcome.duration_ms,
            post_snapshot_id: self.post,
            log_object: self.log.clone(),
        }
    }

    /// How the run is told in the timeline.
    pub fn event(&self) -> (r: NewEvent)
        ensures
            r.kind@ == if self.ended().started().plan().is_test() {
                event_kind::TEST@
            } else {
                event_kind::COMMAND@
            },
            r.summary@ == if self.ended().started().plan().is_test() {
                "test "@ + status_text(self.ended().outcome()) + " ("@ + util::duration_text(
                    self.ended().outcome().duration_ms as int,
                ) + ")"@
            } else {
                "$ "@ + self.ended().started().plan().run_spec().command@ + " — "@ + status_text(
                    self.ended().outcome(),
                )
            },
    {
        let status = describe_status(&self.ended.outcome);
        if self.ended.started.plan.test {
            let mut s = "test ".to_string();
            s.append(status.as_str());
            s.append(" (");
            let d = util::format_duration_ms(self.ended.outcome.duration_ms);
            s.append(d.as_str());
            s.append(")");
            NewEvent { kind: event_kind::TEST.to_string(), summary: s }
        } else {
            let mut s = "$ ".to_string();
            s.append(self.ended.started.plan.spec.command.as_str());
            s.append(" — ");
            s.append(status.as_str());
            NewEvent { kind: event_kind::COMMAND.to_string(), summary: s }
        }
    }

    /// Whether the run is to be investigated: it is one of the test command,
    /// was not cancelled, and did not pass.
    pub fn wants_investigation(&self) -> (r: bool)
        ensures
            r == (self.ended().started().plan().is_test() && verdict(self.ended().outcome()) == Some(
                false,
            )),
    {
        self.ended.started.plan.test && !self.ended.outcome.cancelled
            && !self.ended.outcome.passed()
    }

    /// The result of a recorded command, once it has the number `command_id`.
    pub fn command_result(self, command_id: i64) -> (r: CommandResult)
        ensures
            r.command_id == command_id,
            r.outcome == self.ended().outcome(),
            r.pre_snapshot == self.ended().started().pre_snapshot(),
            r.post_snapshot == self.post_snapshot(),
    {
        CommandResult {
            command_id,
            outcome: self.ended.outcome,
            pre_snapshot: self.ended.started.pre,
            post_snapshot: self.post,
        }
    }

    /// The result of a test run, once it has the number `test_run_id` and has
    /// been investigated if that was wanted. Only a failure keeps what the
    /// investigation found.
    pub fn test_result(self, test_run_id: i64, investigation: Option<Investigation>) -> (r:
        TestResult)
        ensures
            r.test_run_id == test_run_id,
            r.outcome == self.ended().outcome(),
            r.pre_snapshot == self.ended().started().pre_snapshot(),
            r.post_snapshot == self.post_snapshot(),
            r.passed == has_passed(self.ended().outcome()),
            r.investigation == if verdict(self.ended().outcome()) == Some(false) {
                investigation
            } else {
                None
            },
    {
        let passed: bool = self.ended.outcome.passed();
        let failed: bool = !self.ended.outcome.cancelled && !passed;
        TestResult {
            test_run_id,
            outcome: self.ended.outcome,
            pre_snapshot: self.ended.started.pre,
            post_snapshot: self.post,
            passed,
            investigation: if failed {
                investigation
            } else {
                None
            },
        }
    }
}

/// Whether the last test run is to be investigated: there is one, and it
/// failed.
pub fn last_run_failed(run: Option<&TestRun>) -> (r: bool)
    ensures
        r == (run matches Some(t) && t.passed == Some(false)),
{
    match run {
        Some(t) => match t.passed {
            Some(p) => !p,
            None => false,
        },
        None => false,
    }
}

// ---------------------------------------------------------------------------
// Restores
// ---------------------------------------------------------------------------

/// How much of a snapshot a restore is about.
pub open spec fn scope_text(selection: SelectionView) -> Seq<char> {
    match selection {
        SelectionView::All => "full"@,
        SelectionView::Paths(set) => if set.len() == 1 {
            "single"@
        } else {
            "selected"@
        },
    }
}

/// How much of a snapshot a restore is about.
pub fn scope(selection: &Selection) -> (r: String)
    ensures
        r@ == scope_text(selection@),
{
    match selection {
        Selection::All => "full".to_string(),
        Selection::Paths(set) => if set.len() == 1 {
            "single".to_string()
        } else {
            "selected".to_string()
        },
    }
}

/// The snapshot to be taken before anything is restored.
pub fn safety_snapshot() -> (r: SnapshotRequest)
    ensures
        r.kind@ == snapshot_kind::SAFETY@,
        r.label@ == "safety before restore"@,
{
    SnapshotRequest {
        kind: snapshot_kind::SAFETY.to_string(),
        label: "safety before restore".to_string(),
    }
}

/// A restore under way. There is one only once its safety snapshot was taken.
pub struct SafeRestore {
    run: RestoreRun,
    source: i64,
    safety: i64,
}

/// What is recorded of a restore.
#[derive(Debug, PartialEq, Eq)]
pub struct RestoreRecord {
    pub source_snapshot_id: i64,
    pub safety_snapshot_id: i64,
    pub scope: String,
    pub stats: RestoreStats,
}

impl SafeRestore {
    /// The restore as it is carried out.
    pub closed spec fn run(self) -> RestoreRun {
        self.run
    }

    /// The snapshot that is restored.
    pub closed spec fn source(self) -> i64 {
        self.source
    }

    /// The snapshot that was taken before.
    pub closed spec fn safety(self) -> i64 {
        self.safety
    }

    /// Begins a restore once its safety snapshot was taken. It fails before
    /// anything is touched if the plan holds a path that is not safe.
    pub fn begin(
        root: &str,
        snapshot_id: i64,
        plan: &RestorePlan,
        safety_snapshot_id: i64,
    ) -> (r: Result<SafeRestore, RewindError>)
        ensures
            match r {
                Ok(s) => {
                    &&& s.source() == snapshot_id
                    &&& s.safety() == safety_snapshot_id
                    &&& s.run().ops() == restore::ops_of(root@, plan@)
                    &&& s.run().done() == 0
                    &&& s.run().deleted() == 0
                    &&& forall|i: int|
                        0 <= i < restore::plan_paths(plan@).len() ==> restore::is_safe(
                            #[trigger] restore::plan_paths(plan@)[i],
                        )
                },
                Err(e) => exists|i: int| #[trigger]
                    restore::fails_first_at(restore::plan_paths(plan@), i) && e@
                        == restore::refusal(root@, restore::plan_paths(plan@)[i]),
            },
    {
        match restore::apply(root, plan) {
            Ok(run) => Ok(SafeRestore { run, source: snapshot_id, safety: safety_snapshot_id }),
            Err(e) => Err(e),
        }
    }

    /// The next thing to do, if any is left.
    pub fn next_op(&self) -> (r: Option<&restore::RestoreOp>)
        ensures
            match r {
                Some(op) => self.run().done() < self.run().ops().len() && op@
                    == self.run().ops()[self.run().done() as int],
                None => self.run().done() == self.run().ops().len(),
            },
    {
        self.run.next_op()
    }

    /// The restore once its next thing was done.
    pub fn op_done(self, was_there: bool) -> (r: SafeRestore)
        requires
            self.run().done() < self.run().ops().len(),
        ensures
            r.source() == self.source(),
            r.safety() == self.safety(),
            r.run().ops() == self.run().ops(),
            r.run().done() == self.run().done() + 1,
            r.run().deleted() == self.run().deleted()
                + if self.run().ops()[self.run().done() as int] is Delete && was_there {
                1nat
            } else {
                0nat
            },
    {
        SafeRestore {
            run: self.run.op_done(was_there),
            source: self.source,
            safety: self.safety,
        }
    }

    /// What is recorded of the restore.
    pub fn record(&self, selection: &Selection) -> (r: RestoreRecord)
        ensures
            r.source_snapshot_id == self.source(),
            r.safety_snapshot_id == self.safety(),
            r.scope@ == scope_text(selection@),
            r.stats.written == restore::count_writes(
                self.run().ops().take(self.run().done() as int),
            ),
            r.stats.deleted == self.run().deleted(),
    {
        RestoreRecord {
            source_snapshot_id: self.source,
            safety_snapshot_id: self.safety,
            scope: scope(selection),
            stats: self.run.stats(),
        }
    }
}

impl RestoreRecord {
    /// How the restore is told in the timeline.
    pub fn event(&self) -> (r: NewEvent)
        ensures
            r.kind@ == event_kind::RESTORE@,
            r.summary@ == "restore snapshot #"@ + text::dec_signed(self.source_snapshot_id as int)
                + ": "@ + text::dec(self.stats.written as nat) + " written, "@ + text::dec(
                self.stats.deleted as nat,
            ) + " deleted"@,
    {
        let mut s = "restore snapshot #".to_string();
        let id = text::show_signed(self.source_snapshot_id);
        s.append(id.as_str());
        s.append(": ");
        text::push_dec(&mut s, self.stats.written as u128);
        s.append(" written, ");
        text::push_dec(&mut s, self.stats.deleted as u128);
        s.append(" deleted");
        NewEvent { kind: event_kind::RESTORE.to_string(), summary: s }
    }

    /// The result of the restore, once it has the number `restore_id`.
    pub fn outcome(&self, restore_id: i64) -> (r: RestoreOutcome)
        ensures
            r.restore_id == restore_id,
            r.safety_snapshot_id == self.safety_snapshot_id,
            r.stats == self.stats,
    {
        RestoreOutcome {
            restore_id,
            safety_snapshot_id: self.safety_snapshot_id,
            stats: self.stats,
        }
    }
}

/// The snapshot that undoing a restore restores in full, or why it cannot be
/// undone: there is no such restore, or it was undone before.
pub fn undo_target(record: Option<&Restore>, restore_id: i64) -> (r: Result<i64, RewindError>)
    ensures
        match record {
            Some(rec) => if rec.undone {
                r matches Err(e) && e@ == ErrorView::Other(
                    "restore #"@ + text::dec_signed(restore_id as int) + " was already undone"@,
                )
            } else {
                r matches Ok(id) && id == rec.safety_snapshot_id
            },
            None => r matches Err(e) && e@ == ErrorView::Other(
                "no restore #"@ + text::dec_signed(restore_id as int),
            ),
        },
{
    let id = text::show_signed(restore_id);
    match record {
        Some(rec) => if rec.undone {
            let mut m = "restore #".to_string();
            m.append(id.as_str());
            m.append(" was already undone");
            Err(RewindError::Other(m))
        } else {
            Ok(rec.safety_snapshot_id)
        },
        None => {
            let mut m = "no restore #".to_string();
            m.append(id.as_str());
            Err(RewindError::Other(m))
        },
    }
}

/// How the undoing of a restore is told in the timeline.
pub fn undo_event(restore_id: i64) -> (r: NewEvent)
    ensures
        r.kind@ == event_kind::RESTORE@,
        r.summary@ == "undo restore #"@ + text::dec_signed(restore_id as int),
{
    let mut s = "undo restore #".to_string();
    let id = text::show_signed(restore_id);
    s.append(id.as_str());
    NewEvent { kind: event_kind::RESTORE.to_string(), summary: s }
}

// ---------------------------------------------------------------------------
// Sessions and other events
// ---------------------------------------------------------------------------

/// An event of a kind.
fn event_of(kind: &str, summary: &str) -> (r: NewEvent)
    ensures
        r.kind@ == kind@,
        r.summary@ == summary@,
{
    NewEvent { kind: kind.to_string(), summary: summary.to_string() }
}

/// The event of a session's start.
pub fn session_started() -> (r: NewEvent)
    ensures
        r.kind@ == event_kind::SESSION_START@,
        r.summary@ == "session started"@,
{
    event_of(event_kind::SESSION_START, "session started")
}

/// The snapshot to take at a session's start.
pub fn session_snapshot() -> (r: SnapshotRequest)
    ensures
        r.kind@ == snapshot_kind::SESSION_START@,
        r.label@ == "session start"@,
{
    SnapshotRequest {
        kind: snapshot_kind::SESSION_START.to_string(),
        label: "session start".to_string(),
    }
}

/// The event of a session's end.
pub fn session_ended() -> (r: NewEvent)
    ensures
        r.kind@ == event_kind::SESSION_END@,
        r.summary@ == "session ended"@,
{
    event_of(event_kind::SESSION_END, "session ended")
}

/// The snapshot to take for a checkpoint.
pub fn checkpoint_snapshot(name: Option<&str>, now: i64) -> (r: SnapshotRequest)
    ensures
        r.kind@ == snapshot_kind::CHECKPOINT@,
        r.label@ == checkpoint_text(paths::view_opt(name), now as int),
{
    SnapshotRequest {
        kind: snapshot_kind::CHECKPOINT.to_string(),
        label: checkpoint_label(name, now),
    }
}

/// The event of a checkpoint.
pub fn checkpoint_event(label: &str) -> (r: NewEvent)
    ensures
        r.kind@ == event_kind::CHECKPOINT@,
        r.summary@ == label@,
{
    event_of(event_kind::CHECKPOINT, label)
}

/// The event of a snapshot.
pub fn snapshot_event(label: &str, file_count: i64) -> (r: NewEvent)
    ensures
        r.kind@ == event_kind::SNAPSHOT@,
        r.summary@ == "snapshot "@ + label@ + " ("@ + text::dec_signed(file_count as int)
            + " files)"@,
{
    NewEvent {
        kind: event_kind::SNAPSHOT.to_string(),
        summary: snapshot::event_summary(label, file_count),
    }
}

/// The event of an investigation.
pub fn investigation_event(inv: &Investigation) -> (r: NewEvent)
    ensures
        r.kind@ == event_kind::INVESTIGATION@,
        r.summary@ == inv.summary@,
{
    event_of(event_kind::INVESTIGATION, inv.summary.as_str())
}

// ---------------------------------------------------------------------------
// Laws
// ---------------------------------------------------------------------------

/// A run passes if it ends by itself with code 0, and in no other case. Of a
/// cancelled run nothing is known, and every other run that does not pass has
/// failed.
pub proof fn lemma_verdict(outcome: CommandOutcome)
    ensures
        verdict(outcome) == Some(true) <==> outcome.exit_code == Some(0i32) && !outcome.cancelled
            && !outcome.timed_out,
        verdict(outcome) is None <==> outcome.cancelled,
        outcome.timed_out ==> !has_passed(outcome),
        outcome.cancelled ==> !has_passed(outcome),
        outcome.exit_code is None ==> !has_passed(outcome),
        outcome.exit_code matches Some(c) && c != 0 ==> !has_passed(outcome),
{
}

/// The words on how a run ended say "passed" of a run that passed and of no
/// other, tell being cancelled from running out of time, and name the exit code
/// of a failure.
pub proof fn lemma_status_words(outcome: CommandOutcome)
    ensures
        status_text(outcome) == "passed"@ <==> verdict(outcome) == Some(true),
        status_text(outcome) == "cancelled"@ <==> outcome.cancelled,
        status_text(outcome) == "timed out"@ <==> outcome.timed_out && !outcome.cancelled,
        verdict(outcome) == Some(false) && !outcome.timed_out ==> {
            &&& "failed ("@.is_prefix_of(status_text(outcome))
            &&& outcome.exit_code matches Some(c) ==> status_text(outcome) == "failed (exit "@
                + text::dec_signed(c as int) + ")"@
            &&& outcome.exit_code is None ==> text::occurs(status_text(outcome), "killed"@)
        },
{
    reveal_strlit("passed");
    reveal_strlit("cancelled");
    reveal_strlit("timed out");
    reveal_strlit("failed (");
    reveal_strlit("failed (exit ");
    reveal_strlit("failed (killed)");
    reveal_strlit("killed");
    let s = status_text(outcome);
    assert("passed"@[0] == 'p' && "cancelled"@[0] == 'c' && "timed out"@[0] == 't');
    if verdict(outcome) == Some(false) && !outcome.timed_out {
        assert(s[0] == 'f') by {
            if outcome.exit_code is Some {
                assert(s[0] == "failed (exit "@[0]);
            }
        }
        assert(s.subrange(0, 8) =~= "failed ("@);
        if outcome.exit_code is None {
            assert(text::occurs_at(s, "killed"@, 8)) by {
                assert(s.subrange(8, 14) =~= "killed"@);
            }
        }
    }
}

/// A checkpoint with a name is labelled with it, without the space around it,
/// and one without a name by the time of day.
pub proof fn lemma_checkpoint_label(v: Seq<char>, name: Seq<char>, w: Seq<char>, now: int)
    requires
        text::all_in(v, text::CharClass::WhiteSpace),
        text::all_in(w, text::CharClass::WhiteSpace),
        name.len() > 0,
        !text::is_white_space(name[0]),
        !text::is_white_space(name.last()),
    ensures
        checkpoint_text(Some(v + name + w), now) == "checkpoint: "@ + name,
        checkpoint_text(Some(v), now) == "checkpoint "@ + util::clock_text(now),
        checkpoint_text(None, now) == "checkpoint "@ + util::clock_text(now),
{
    text::laws::lemma_trimmed(v, name, w);
}

/// A restore of everything, of one path and of any other number of paths are
/// told apart.
pub proof fn lemma_scope(set: Set<Seq<char>>)
    ensures
        scope_text(SelectionView::All) == "full"@,
        set.len() == 1 ==> scope_text(SelectionView::Paths(set)) == "single"@,
        set.len() != 1 ==> scope_text(SelectionView::Paths(set)) == "selected"@,
{
}

} // verus!
