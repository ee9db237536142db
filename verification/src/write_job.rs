//! Writing a file in one step: the bytes go to a temporary file beside the
//! target, which is then renamed.
//!
//! The job says what to do next; its owner does it and tells how it went.

use vstd::prelude::*;

use crate::error::RewindError;
use crate::paths;
use crate::text;

verus! {

/// What a job wants done next.
#[derive(Debug, PartialEq, Eq)]
pub enum Step {
    /// Look whether the target is already there.
    Probe,
    /// Make the directory of the target, with all above it.
    MakeDir,
    /// Write the bytes to the temporary file and bring them to disk.
    WriteTemp,
    /// Rename the temporary file to the target.
    Rename,
    /// The rename failed so: look whether the target is there by now.
    ProbeAgain(String),
    /// Remove the temporary file. The job then ends, in the failure if there
    /// is one.
    Discard(Option<String>),
    /// The target is in place.
    Done,
    /// The job failed so.
    Failed(String),
}

/// How the last step went.
#[derive(Debug, PartialEq, Eq)]
pub enum Outcome {
    /// The target was there, or was not.
    Present(bool),
    /// The step was done.
    Finished,
    /// The step failed so.
    Failed(String),
}

/// A step with its texts as sequences of characters.
pub enum StepView {
    Probe,
    MakeDir,
    WriteTemp,
    Rename,
    ProbeAgain(Seq<char>),
    Discard(Option<Seq<char>>),
    Done,
    Failed(Seq<char>),
}

/// An outcome with its text as a sequence of characters.
pub enum OutcomeView {
    Present(bool),
    Finished,
    Failed(Seq<char>),
}

impl View for Step {
    type V = StepView;

    open spec fn view(&self) -> StepView {
        match self {
            Step::Probe => StepView::Probe,
            Step::MakeDir => StepView::MakeDir,
            Step::WriteTemp => StepView::WriteTemp,
            Step::Rename => StepView::Rename,
            Step::ProbeAgain(m) => StepView::ProbeAgain(m@),
            Step::Discard(m) => StepView::Discard(text::opt_text(*m)),
            Step::Done => StepView::Done,
            Step::Failed(m) => StepView::Failed(m@),
        }
    }
}

impl View for Outcome {
    type V = OutcomeView;

    open spec fn view(&self) -> OutcomeView {
        match self {
            Outcome::Present(b) => OutcomeView::Present(*b),
            Outcome::Finished => OutcomeView::Finished,
            Outcome::Failed(m) => OutcomeView::Failed(m@),
        }
    }
}

/// `outcome` is one that `step` can have.
pub open spec fn answers(step: StepView, outcome: OutcomeView) -> bool {
    match step {
        StepView::Probe | StepView::ProbeAgain(_) => outcome is Present,
        StepView::MakeDir | StepView::WriteTemp | StepView::Rename | StepView::Discard(_) =>
            !(outcome is Present),
        StepView::Done | StepView::Failed(_) => false,
    }
}

/// The step that follows `step` once it has gone as `outcome` says. With
/// `keep_existing`, a target that is already there is left alone, and one that
/// is there after a failed rename counts as success.
pub open spec fn step_after(step: StepView, outcome: OutcomeView, keep_existing: bool) -> StepView {
    match (step, outcome) {
        (StepView::Probe, OutcomeView::Present(there)) => if there {
            StepView::Done
        } else {
            StepView::MakeDir
        },
        (StepView::MakeDir, OutcomeView::Finished) => StepView::WriteTemp,
        (StepView::MakeDir, OutcomeView::Failed(m)) => StepView::Failed(m),
        (StepView::WriteTemp, OutcomeView::Finished) => StepView::Rename,
        (StepView::WriteTemp, OutcomeView::Failed(m)) => StepView::Failed(m),
        (StepView::Rename, OutcomeView::Finished) => StepView::Done,
        (StepView::Rename, OutcomeView::Failed(m)) => if keep_existing {
            StepView::ProbeAgain(m)
        } else {
            StepView::Discard(Some(m))
        },
        (StepView::ProbeAgain(m), OutcomeView::Present(there)) => StepView::Discard(
            if there {
                None
            } else {
                Some(m)
            },
        ),
        (StepView::Discard(None), _) => StepView::Done,
        (StepView::Discard(Some(m)), _) => StepView::Failed(m),
        _ => step,
    }
}

/// A file to be written in one step.
#[derive(Debug, PartialEq, Eq)]
pub struct WriteJob {
    /// Where the file goes.
    pub target: String,
    /// The directory of the target.
    pub dir: String,
    /// The temporary file, in the same directory.
    pub temp: String,
    /// Whether a target that is already there is left alone.
    pub keep_existing: bool,
    /// What to do next.
    pub step: Step,
}

impl WriteJob {
    /// The job at its first step, for a target in `dir` and a temporary file
    /// of the name `temp_name` there.
    pub fn new(target: String, dir: String, temp_name: &str, keep_existing: bool) -> (r: WriteJob)
        ensures
            r.target == target,
            r.dir == dir,
            r.temp@ == paths::joined(dir@, temp_name@),
            r.keep_existing == keep_existing,
            r.step == if keep_existing {
                Step::Probe
            } else {
                Step::MakeDir
            },
    {
        let temp = paths::join(dir.as_str(), temp_name);
        let step = if keep_existing {
            Step::Probe
        } else {
            Step::MakeDir
        };
        WriteJob { target, dir, temp, keep_existing, step }
    }

    /// The job once its step has gone as `outcome` says.
    pub fn advance(self, outcome: Outcome) -> (r: WriteJob)
        requires
            answers(self.step@, outcome@),
        ensures
            r.step@ == step_after(self.step@, outcome@, self.keep_existing),
            r.target == self.target,
            r.dir == self.dir,
            r.temp == self.temp,
            r.keep_existing == self.keep_existing,
    {
        let keep_existing: bool = self.keep_existing;
        let step = match (self.step, outcome) {
            (Step::Probe, Outcome::Present(there)) => if there {
                Step::Done
            } else {
                Step::MakeDir
            },
            (Step::MakeDir, Outcome::Finished) => Step::WriteTemp,
            (Step::MakeDir, Outcome::Failed(m)) => Step::Failed(m),
            (Step::WriteTemp, Outcome::Finished) => Step::Rename,
            (Step::WriteTemp, Outcome::Failed(m)) => Step::Failed(m),
            (Step::Rename, Outcome::Finished) => Step::Done,
            (Step::Rename, Outcome::Failed(m)) => if keep_existing {
                Step::ProbeAgain(m)
            } else {
                Step::Discard(Some(m))
            },
            (Step::ProbeAgain(m), Outcome::Present(there)) => if there {
                Step::Discard(None)
            } else {
                Step::Discard(Some(m))
            },
            (Step::Discard(None), _) => Step::Done,
            (Step::Discard(Some(m)), _) => Step::Failed(m),
            (step, _) => step,
        };
        WriteJob { target: self.target, dir: self.dir, temp: self.temp, keep_existing, step }
    }

    /// How the job ended, if it has.
    pub fn result(&self) -> (r: Option<Result<(), RewindError>>)
        ensures
            match (r, self.step@) {
                (Some(Ok(())), StepView::Done) => true,
                (Some(Err(e)), StepView::Failed(m)) => e@ == crate::error::ErrorView::Io(m),
                (None, StepView::Done | StepView::Failed(_)) => false,
                (None, _) => true,
                _ => false,
            },
    {
        match &self.step {
            Step::Done => Some(Ok(())),
            Step::Failed(m) => Some(Err(RewindError::Io(m.clone()))),
            _ => None,
        }
    }
}

// ---------------------------------------------------------------------------
// What the steps do to a disk
// ---------------------------------------------------------------------------

/// The files of a disk.
pub type Disk = Map<Seq<char>, Seq<u8>>;

/// Doing `step` on `disk` can have `outcome` and leave `after`. A write that
/// fails may leave anything in the temporary file, and nothing else.
pub open spec fn does(
    step: StepView,
    target: Seq<char>,
    temp: Seq<char>,
    data: Seq<u8>,
    disk: Disk,
    outcome: OutcomeView,
    after: Disk,
) -> bool {
    &&& answers(step, outcome)
    &&& match (step, outcome) {
        (StepView::Probe | StepView::ProbeAgain(_), _) => after == disk && outcome
            == OutcomeView::Present(disk.contains_key(target)),
        (StepView::WriteTemp, OutcomeView::Finished) => after == disk.insert(temp, data),
        (StepView::WriteTemp, _) => after.remove(temp) == disk.remove(temp),
        (StepView::Rename, OutcomeView::Finished) => disk.contains_key(temp) && after
            == disk.remove(temp).insert(target, disk[temp]),
        (StepView::Discard(_), OutcomeView::Finished) => after == disk.remove(temp),
        _ => after == disk,
    }
}

/// What holds of the disk when a job stands before `step`: before the rename
/// the temporary file holds the bytes, and a job that ends well, or is about
/// to, has its target in place.
pub open spec fn on_course(
    step: StepView,
    target: Seq<char>,
    temp: Seq<char>,
    data: Seq<u8>,
    disk: Disk,
) -> bool {
    match step {
        StepView::Rename => disk.contains_key(temp) && disk[temp] == data,
        StepView::Discard(None) => disk.contains_key(target),
        StepView::Done => disk.contains_key(target),
        _ => true,
    }
}

/// A job stays on course, whatever comes of its steps.
pub proof fn lemma_stays_on_course(
    step: StepView,
    keep_existing: bool,
    target: Seq<char>,
    temp: Seq<char>,
    data: Seq<u8>,
    disk: Disk,
    outcome: OutcomeView,
    after: Disk,
)
    requires
        target != temp,
        on_course(step, target, temp, data, disk),
        does(step, target, temp, data, disk, outcome, after),
    ensures
        on_course(step_after(step, outcome, keep_existing), target, temp, data, after),
{
}

/// Writes are all or nothing: no step leaves the target with anything but what
/// it held before or the whole of the bytes, and no step touches a file that
/// is neither the target nor the temporary file.
pub proof fn lemma_all_or_nothing(
    step: StepView,
    target: Seq<char>,
    temp: Seq<char>,
    data: Seq<u8>,
    disk: Disk,
    outcome: OutcomeView,
    after: Disk,
    other: Seq<char>,
)
    requires
        target != temp,
        on_course(step, target, temp, data, disk),
        does(step, target, temp, data, disk, outcome, after),
    ensures
        after.contains_key(target) && after[target] == data || (after.contains_key(target)
            == disk.contains_key(target) && (disk.contains_key(target) ==> after[target]
            == disk[target])),
        other != target && other != temp ==> after.contains_key(other) == disk.contains_key(other)
            && (disk.contains_key(other) ==> after[other] == disk[other]),
{
    if step is WriteTemp && outcome is Failed {
        assert(after.remove(temp).contains_key(target) == disk.remove(temp).contains_key(target));
        assert(after.remove(temp)[target] == disk.remove(temp)[target]);
        assert(after.remove(temp).contains_key(other) == disk.remove(temp).contains_key(other));
        assert(after.remove(temp)[other] == disk.remove(temp)[other]);
    }
}

/// With `keep_existing`, a target that is already there is never written: the
/// job ends at once, and the disk is as it was.
pub proof fn lemma_existing_is_kept(
    target: Seq<char>,
    temp: Seq<char>,
    data: Seq<u8>,
    disk: Disk,
    outcome: OutcomeView,
    after: Disk,
)
    requires
        disk.contains_key(target),
        does(StepView::Probe, target, temp, data, disk, outcome, after),
    ensures
        step_after(StepView::Probe, outcome, true) == StepView::Done,
        after == disk,
{
}

/// A run of a job: before step `i` the disk is `disks[i]`, the step goes as
/// `outcomes[i]` says, and the job moves on.
pub open spec fn is_run(
    steps: Seq<StepView>,
    outcomes: Seq<OutcomeView>,
    disks: Seq<Disk>,
    keep_existing: bool,
    target: Seq<char>,
    temp: Seq<char>,
    data: Seq<u8>,
) -> bool {
    &&& steps.len() == outcomes.len() + 1
    &&& disks.len() == outcomes.len() + 1
    &&& steps[0] == if keep_existing {
        StepView::Probe
    } else {
        StepView::MakeDir
    }
    &&& forall|i: int|
        #![trigger outcomes[i]]
        0 <= i < outcomes.len() ==> {
            &&& does(steps[i], target, temp, data, disks[i], outcomes[i], disks[i + 1])
            &&& steps[i + 1] == step_after(steps[i], outcomes[i], keep_existing)
        }
}

/// What a run keeps: it is on course, its target holds what it held at first
/// or the whole of the bytes, other files are untouched, and once it has ended
/// well the bytes are in place, unless a target already there was kept.
pub proof fn lemma_run(
    steps: Seq<StepView>,
    outcomes: Seq<OutcomeView>,
    disks: Seq<Disk>,
    keep_existing: bool,
    target: Seq<char>,
    temp: Seq<char>,
    data: Seq<u8>,
)
    requires
        target != temp,
        is_run(steps, outcomes, disks, keep_existing, target, temp, data),
    ensures
        on_course(steps.last(), target, temp, data, disks.last()),
        (disks.last().contains_key(target) && disks.last()[target] == data) || (
        disks.last().contains_key(target) == disks[0].contains_key(target) && (
        disks[0].contains_key(target) ==> disks.last()[target] == disks[0][target])),
        forall|other: Seq<char>|
            other != target && other != temp ==> #[trigger] disks.last().contains_key(other)
                == disks[0].contains_key(other) && (disks[0].contains_key(other)
                ==> disks.last()[other] == disks[0][other]),
        steps.last() is Done && !(keep_existing && disks[0].contains_key(target)) ==> (
        disks.last().contains_key(target) && disks.last()[target] == data),
        keep_existing && disks[0].contains_key(target) ==> disks.last() == disks[0] && (
        steps.last() is Done || outcomes.len() == 0),
        !keep_existing ==> !(steps.last() is Probe) && !(steps.last() is ProbeAgain)
            && steps.last() != StepView::Discard(None),
    decreases outcomes.len(),
{
    let n = outcomes.len() as int;
    if n > 0 {
        let s = steps.drop_last();
        let o = outcomes.drop_last();
        let d = disks.drop_last();
        assert forall|i: int| #![trigger o[i]] 0 <= i < o.len() implies {
            &&& does(s[i], target, temp, data, d[i], o[i], d[i + 1])
            &&& s[i + 1] == step_after(s[i], o[i], keep_existing)
        } by {
            assert(outcomes[i] == o[i]);
        }
        lemma_run(s, o, d, keep_existing, target, temp, data);
        let step = steps[n - 1];
        let disk = disks[n - 1];
        let after = disks[n];
        let outcome = outcomes[n - 1];
        assert(s.last() == step && d.last() == disk && d[0] == disks[0]);
        assert(does(step, target, temp, data, disk, outcome, after));
        lemma_stays_on_course(step, keep_existing, target, temp, data, disk, outcome, after);
        lemma_all_or_nothing(step, target, temp, data, disk, outcome, after, target);
        assert forall|other: Seq<char>| other != target && other != temp implies (
        #[trigger] after.contains_key(other)) == disks[0].contains_key(other) && (
        disks[0].contains_key(other) ==> after[other] == disks[0][other]) by {
            lemma_all_or_nothing(step, target, temp, data, disk, outcome, after, other);
            assert(disk.contains_key(other) == disks[0].contains_key(other));
        }
    }
}

} // verus!
