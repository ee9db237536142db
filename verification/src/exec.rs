//! Running commands: what to run, what came of it, and the decisions on the
//! way. Whether a run passed is decided by its exit code alone.

use vstd::prelude::*;

use crate::error::ErrorView;
use crate::error::RewindError;
use crate::text;

verus! {

/// A change of the version of a dependency.
#[derive(Debug, PartialEq, Eq)]
pub struct DependencyChange {
    pub file: String,
    pub name: String,
    pub old: Option<String>,
    pub new: Option<String>,
}

/// A dependency change with its texts as sequences of characters.
pub struct DependencyView {
    pub file: Seq<char>,
    pub name: Seq<char>,
    pub old: Option<Seq<char>>,
    pub new: Option<Seq<char>>,
}

impl View for DependencyChange {
    type V = DependencyView;

    open spec fn view(&self) -> DependencyView {
        DependencyView {
            file: self.file@,
            name: self.name@,
            old: text::opt_text(self.old),
            new: text::opt_text(self.new),
        }
    }
}

impl Clone for DependencyChange {
    fn clone(&self) -> (r: DependencyChange)
        ensures
            r@ == self@,
    {
        DependencyChange {
            file: self.file.clone(),
            name: self.name.clone(),
            old: text::copy_opt(&self.old),
            new: text::copy_opt(&self.new),
        }
    }
}

/// The views of a list of dependency changes.
pub open spec fn dependency_views(v: Seq<DependencyChange>) -> Seq<DependencyView> {
    Seq::new(v.len(), |i: int| v[i]@)
}

/// The names of the files that record dependency versions.
pub open spec fn dependency_manifests() -> Seq<Seq<char>> {
    seq![
        "Cargo.toml"@,
        "Cargo.lock"@,
        "package.json"@,
        "package-lock.json"@,
        "yarn.lock"@,
        "pnpm-lock.yaml"@,
        "requirements.txt"@,
        "Pipfile"@,
        "Pipfile.lock"@,
        "poetry.lock"@,
        "pyproject.toml"@,
        "go.mod"@,
        "go.sum"@,
        "Gemfile"@,
        "Gemfile.lock"@,
        "composer.json"@,
        "composer.lock"@,
        "pom.xml"@,
        "build.gradle"@,
    ]
}

/// Whether the base name of `path` is that of a file that records dependency
/// versions.
pub fn is_dependency_manifest(path: &str) -> (r: bool)
    ensures
        r == dependency_manifests().contains(text::base_name(path@)),
{
    let names: [&str; 19] = [
        "Cargo.toml",
        "Cargo.lock",
        "package.json",
        "package-lock.json",
        "yarn.lock",
        "pnpm-lock.yaml",
        "requirements.txt",
        "Pipfile",
        "Pipfile.lock",
        "poetry.lock",
        "pyproject.toml",
        "go.mod",
        "go.sum",
        "Gemfile",
        "Gemfile.lock",
        "composer.json",
        "composer.lock",
        "pom.xml",
        "build.gradle",
    ];
    proof {
        assert(text::strs(names@) =~= dependency_manifests());
    }
    text::listed(&names, text::basename(path))
}

// ---------------------------------------------------------------------------
// What to run
// ---------------------------------------------------------------------------

/// A command to run.
#[derive(Debug, PartialEq, Eq)]
pub struct RunSpec {
    /// The command line, which the shell interprets.
    pub command: String,
    /// The working directory.
    pub cwd: String,
    /// The shell.
    pub shell: String,
    /// The limit on the running time in milliseconds. `None` means no limit.
    pub timeout: Option<u128>,
}

impl RunSpec {
    /// `command` in `cwd`, run by `shell`, without a time limit.
    pub fn new(command: &str, cwd: &str, shell: String) -> (r: RunSpec)
        ensures
            r.command@ == command@,
            r.cwd@ == cwd@,
            r.shell == shell,
            r.timeout is None,
    {
        RunSpec { command: command.to_string(), cwd: cwd.to_string(), shell, timeout: None }
    }

    /// The same with a time limit in seconds, where 0 means none.
    pub fn with_timeout_secs(self, secs: u64) -> (r: RunSpec)
        ensures
            r.command == self.command,
            r.cwd == self.cwd,
            r.shell == self.shell,
            secs == 0 ==> r.timeout is None,
            secs > 0 ==> (r.timeout matches Some(ms) && ms == secs * 1000),
    {
        let timeout: Option<u128> = if secs == 0 {
            None
        } else {
            Some(secs as u128 * 1000)
        };
        RunSpec { command: self.command, cwd: self.cwd, shell: self.shell, timeout }
    }

    /// The program and the arguments that run the command.
    pub fn arguments(&self, windows: bool) -> (r: Vec<String>)
        ensures
            text::texts(r@) == seq![
                self.shell@,
                if windows {
                    "/C"@
                } else {
                    "-c"@
                },
                self.command@,
            ],
    {
        let flag = if windows {
            "/C".to_string()
        } else {
            "-c".to_string()
        };
        let mut r: Vec<String> = Vec::new();
        r.push(self.shell.clone());
        r.push(flag);
        r.push(self.command.clone());
        r
    }

    /// Why the command could not be started.
    pub fn launch_failure(&self, why: &str) -> (r: RewindError)
        ensures
            r@ == ErrorView::Other("failed to launch `"@ + self.command@ + "`: "@ + why@),
    {
        let mut m = "failed to launch `".to_string();
        m.append(self.command.as_str());
        m.append("`: ");
        m.append(why);
        RewindError::Other(m)
    }
}

/// The shell to run commands with: what the environment names, else the usual
/// shell of the platform.
pub fn resolve_shell(windows: bool, named: Option<&str>) -> (r: String)
    ensures
        r@ == match named {
            Some(s) => s@,
            None => if windows {
                "cmd"@
            } else {
                "/bin/sh"@
            },
        },
{
    match named {
        Some(s) => s.to_string(),
        None => if windows {
            "cmd".to_string()
        } else {
            "/bin/sh".to_string()
        },
    }
}

// ---------------------------------------------------------------------------
// What came of it
// ---------------------------------------------------------------------------

/// Where a piece of output came from.
#[derive(Debug, Clone, Copy, PartialEq, Eq)]
pub enum StreamKind {
    Stdout,
    Stderr,
}

/// A piece of output.
#[derive(Debug, PartialEq, Eq)]
pub struct OutputChunk {
    pub kind: StreamKind,
    pub data: Vec<u8>,
}

/// The outcome of a run.
#[derive(Debug, PartialEq, Eq)]
pub struct CommandOutcome {
    /// The exit code, or `None` if a signal ended the process.
    pub exit_code: Option<i32>,
    pub duration_ms: u64,
    pub cancelled: bool,
    pub timed_out: bool,
    pub stdout: Vec<u8>,
    pub stderr: Vec<u8>,
    /// Both streams in the order of arrival.
    pub combined: Vec<u8>,
}

impl CommandOutcome {
    /// Whether the process ended by itself with code 0.
    pub fn passed(&self) -> (r: bool)
        ensures
            r == (!self.cancelled && !self.timed_out && self.exit_code == Some(0i32)),
    {
        match self.exit_code {
            Some(code) => !self.cancelled && !self.timed_out && code == 0,
            None => false,
        }
    }

    /// The combined log as text.
    pub fn log_string(&self) -> (r: String)
        ensures
            r@ == text::lossy(self.combined@),
    {
        text::lossy_text(self.combined.as_slice())
    }
}

// ---------------------------------------------------------------------------
// A run under way
// ---------------------------------------------------------------------------

/// A piece of output as a pair of its stream and its bytes.
pub type ChunkView = (StreamKind, Seq<u8>);

/// The bytes of all pieces in order.
pub open spec fn all_bytes(chunks: Seq<ChunkView>) -> Seq<u8>
    decreases chunks.len(),
{
    if chunks.len() == 0 {
        Seq::empty()
    } else {
        all_bytes(chunks.drop_last()) + chunks.last().1
    }
}

/// The bytes of the pieces of one stream in order.
pub open spec fn bytes_from(chunks: Seq<ChunkView>, kind: StreamKind) -> Seq<u8>
    decreases chunks.len(),
{
    if chunks.len() == 0 {
        Seq::empty()
    } else {
        let before = bytes_from(chunks.drop_last(), kind);
        if chunks.last().0 == kind {
            before + chunks.last().1
        } else {
            before
        }
    }
}

/// What to wait for next.
#[derive(Debug, Clone, Copy, PartialEq, Eq)]
pub enum Wait {
    /// Output, for at most this many milliseconds.
    Output(u64),
    /// Nothing but this many milliseconds.
    Sleep(u64),
}

/// What waiting brought.
#[derive(Debug, PartialEq, Eq)]
pub enum Arrival {
    /// A piece of output.
    Chunk(OutputChunk),
    /// Nothing in time.
    Nothing,
    /// The end of all output.
    Closed,
}

/// A run under way: what it has put out, whether its output has ended, and
/// whether and why it was killed.
pub struct RunState {
    stdout: Vec<u8>,
    stderr: Vec<u8>,
    combined: Vec<u8>,
    closed: bool,
    cancelled: bool,
    timed_out: bool,
    chunks: Ghost<Seq<ChunkView>>,
}

impl RunState {
    /// The pieces of output so far.
    pub closed spec fn chunks(self) -> Seq<ChunkView> {
        self.chunks@
    }

    /// The output has ended.
    pub closed spec fn is_closed(self) -> bool {
        self.closed
    }

    /// The run was killed because it was cancelled.
    pub closed spec fn is_cancelled(self) -> bool {
        self.cancelled
    }

    /// The run was killed because its time was up.
    pub closed spec fn is_timed_out(self) -> bool {
        self.timed_out
    }

    #[verifier::type_invariant]
    spec fn inv(self) -> bool {
        &&& self.stdout@ == bytes_from(self.chunks@, StreamKind::Stdout)
        &&& self.stderr@ == bytes_from(self.chunks@, StreamKind::Stderr)
        &&& self.combined@ == all_bytes(self.chunks@)
        &&& !(self.cancelled && self.timed_out)
    }

    /// A run that has just started.
    pub fn start() -> (r: RunState)
        ensures
            r.chunks() == Seq::<ChunkView>::empty(),
            !r.is_closed(),
            !r.is_cancelled(),
            !r.is_timed_out(),
    {
        RunState {
            stdout: Vec::new(),
            stderr: Vec::new(),
            combined: Vec::new(),
            closed: false,
            cancelled: false,
            timed_out: false,
            chunks: Ghost(Seq::empty()),
        }
    }

    /// What to wait for: output while it lasts, then a short time.
    pub fn wait(&self) -> (r: Wait)
        ensures
            r == if self.is_closed() {
                Wait::Sleep(15)
            } else {
                Wait::Output(40)
            },
    {
        if self.closed {
            Wait::Sleep(15)
        } else {
            Wait::Output(40)
        }
    }

    /// The run once waiting has brought `arrival`.
    pub fn arrived(self, arrival: &Arrival) -> (r: RunState)
        ensures
            r.chunks() == match *arrival {
                Arrival::Chunk(c) => self.chunks().push((c.kind, c.data@)),
                _ => self.chunks(),
            },
            r.is_closed() == (self.is_closed() || *arrival is Closed),
            r.is_cancelled() == self.is_cancelled(),
            r.is_timed_out() == self.is_timed_out(),
    {
        proof {
            use_type_invariant(&self);
        }
        let RunState { mut stdout, mut stderr, mut combined, closed, cancelled, timed_out, chunks } =
            self;
        match arrival {
            Arrival::Chunk(c) => {
                match c.kind {
                    StreamKind::Stdout => stdout.extend_from_slice(c.data.as_slice()),
                    StreamKind::Stderr => stderr.extend_from_slice(c.data.as_slice()),
                }
                combined.extend_from_slice(c.data.as_slice());
                let ghost after = chunks@.push((c.kind, c.data@));
                proof {
                    assert(after.drop_last() =~= chunks@);
                    assert(all_bytes(after) == all_bytes(chunks@) + c.data@);
                    assert(combined@ =~= all_bytes(after));
                    assert(stdout@ =~= bytes_from(after, StreamKind::Stdout));
                    assert(stderr@ =~= bytes_from(after, StreamKind::Stderr));
                }
                RunState {
                    stdout,
                    stderr,
                    combined,
                    closed,
                    cancelled,
                    timed_out,
                    chunks: Ghost(after),
                }
            },
            Arrival::Nothing => RunState {
                stdout,
                stderr,
                combined,
                closed,
                cancelled,
                timed_out,
                chunks,
            },
            Arrival::Closed => RunState {
                stdout,
                stderr,
                combined,
                closed: true,
                cancelled,
                timed_out,
                chunks,
            },
        }
    }

    /// Decides whether to kill the run now: the first time that it is to be
    /// cancelled, or else that its time is up. A run is killed once at most.
    pub fn check(self, cancel: bool, elapsed_ms: u128, timeout: Option<u128>) -> (r: (RunState, bool))
        ensures
            ({
                let killed = self.is_cancelled() || self.is_timed_out();
                let late = timeout matches Some(limit) && elapsed_ms >= limit;
                &&& r.0.chunks() == self.chunks()
                &&& r.0.is_closed() == self.is_closed()
                &&& r.1 == (!killed && (cancel || late))
                &&& r.0.is_cancelled() == (self.is_cancelled() || (!killed && cancel))
                &&& r.0.is_timed_out() == (self.is_timed_out() || (!killed && !cancel && late))
            }),
    {
        proof {
            use_type_invariant(&self);
        }
        let RunState { stdout, stderr, combined, closed, cancelled, timed_out, chunks } = self;
        let late: bool = match timeout {
            Some(limit) => elapsed_ms >= limit,
            None => false,
        };
        let kill: bool = !cancelled && !timed_out && (cancel || late);
        (
            RunState {
                stdout,
                stderr,
                combined,
                closed,
                cancelled: cancelled || (kill && cancel),
                timed_out: timed_out || (kill && !cancel),
                chunks,
            },
            kill,
        )
    }

    /// Whether the run is over: its process has exited and its output has ended.
    pub fn is_over(&self, exited: bool) -> (r: bool)
        ensures
            r == (exited && self.is_closed()),
    {
        exited && self.closed
    }

    /// The outcome of the run: all of its output, stream by stream and
    /// together.
    pub fn finish(self, exit_code: Option<i32>, duration_ms: u64) -> (r: CommandOutcome)
        ensures
            r.exit_code == exit_code,
            r.duration_ms == duration_ms,
            r.cancelled == self.is_cancelled(),
            r.timed_out == self.is_timed_out(),
            !(r.cancelled && r.timed_out),
            r.stdout@ == bytes_from(self.chunks(), StreamKind::Stdout),
            r.stderr@ == bytes_from(self.chunks(), StreamKind::Stderr),
            r.combined@ == all_bytes(self.chunks()),
    {
        proof {
            use_type_invariant(&self);
        }
        CommandOutcome {
            exit_code,
            duration_ms,
            cancelled: self.cancelled,
            timed_out: self.timed_out,
            stdout: self.stdout,
            stderr: self.stderr,
            combined: self.combined,
        }
    }
}

/// No output is lost: the two streams together have as many bytes as the log.
pub proof fn lemma_nothing_lost(chunks: Seq<ChunkView>)
    ensures
        all_bytes(chunks).len() == bytes_from(chunks, StreamKind::Stdout).len() + bytes_from(
            chunks,
            StreamKind::Stderr,
        ).len(),
    decreases chunks.len(),
{
    if chunks.len() > 0 {
        lemma_nothing_lost(chunks.drop_last());
    }
}

/// The log holds the pieces in the order of arrival, each of them whole, and a
/// stream holds its own pieces in that order and no others.
pub proof fn lemma_pieces_in_order(a: Seq<ChunkView>, b: Seq<ChunkView>, kind: StreamKind)
    ensures
        all_bytes(a + b) == all_bytes(a) + all_bytes(b),
        bytes_from(a + b, kind) == bytes_from(a, kind) + bytes_from(b, kind),
        a.len() == 0 ==> all_bytes(a).len() == 0 && bytes_from(a, kind).len() == 0,
        a.len() == 1 ==> all_bytes(a) == a[0].1,
        a.len() == 1 && a[0].0 == kind ==> bytes_from(a, kind) == a[0].1,
        a.len() == 1 && a[0].0 != kind ==> bytes_from(a, kind).len() == 0,
    decreases b.len(),
{
    if a.len() == 1 {
        let none = a.drop_last();
        assert(none.len() == 0);
        assert(all_bytes(none) =~= Seq::<u8>::empty());
        assert(bytes_from(none, kind) =~= Seq::<u8>::empty());
        assert(Seq::<u8>::empty() + a[0].1 =~= a[0].1);
    }
    if b.len() == 0 {
        assert(a + b =~= a);
        assert(all_bytes(a) + Seq::<u8>::empty() =~= all_bytes(a));
        assert(bytes_from(a, kind) + Seq::<u8>::empty() =~= bytes_from(a, kind));
    } else {
        assert((a + b).drop_last() =~= a + b.drop_last());
        assert((a + b).last() == b.last());
        lemma_pieces_in_order(a, b.drop_last(), kind);
        assert(all_bytes(a + b) =~= all_bytes(a) + all_bytes(b));
        assert(bytes_from(a + b, kind) =~= bytes_from(a, kind) + bytes_from(b, kind));
    }
}

} // verus!
