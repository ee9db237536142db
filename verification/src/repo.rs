//! The Git repository: where it is, and the state it is in. Git itself is run
//! elsewhere; what it put out is read here.

use vstd::prelude::*;

use crate::error::ErrorView;
use crate::error::RewindError;
use crate::paths;
use crate::paths::PartView;
use crate::paths::PathPart;
use crate::text;

verus! {

/// A Git repository.
#[derive(Debug, PartialEq, Eq)]
pub struct Repo {
    /// The canonical root of the working tree.
    pub root: String,
}

/// The state of a repository at some moment.
#[derive(Debug, PartialEq, Eq)]
pub struct GitState {
    pub branch: Option<String>,
    pub head: Option<String>,
    /// Whether there are changes that are not committed.
    pub dirty: bool,
}

/// What a Git command put out.
#[derive(Debug, PartialEq, Eq)]
pub struct GitOutput {
    pub success: bool,
    pub stdout: Vec<u8>,
    pub stderr: Vec<u8>,
}

/// The text of bytes without white space at its ends.
pub open spec fn tidy(bytes: Seq<u8>) -> Seq<char> {
    text::trimmed(text::lossy(bytes))
}

/// The root that `git rev-parse --show-toplevel` names, or why there is none.
pub open spec fn root_named(out: GitOutput) -> Result<Seq<char>, ErrorView> {
    if !out.success {
        if text::occurs(text::lossy(out.stderr@), "not a git repository"@) {
            Err(ErrorView::NotAGitRepo)
        } else {
            Err(ErrorView::Git(tidy(out.stderr@)))
        }
    } else if tidy(out.stdout@).len() == 0 {
        Err(ErrorView::NotAGitRepo)
    } else {
        Ok(tidy(out.stdout@))
    }
}

/// What a Git command says, or why it failed.
pub open spec fn said(out: GitOutput) -> Result<Seq<char>, ErrorView> {
    if out.success {
        Ok(tidy(out.stdout@))
    } else {
        Err(ErrorView::Git(tidy(out.stderr@)))
    }
}

fn tidy_text(bytes: &Vec<u8>) -> (r: String)
    ensures
        r@ == tidy(bytes@),
{
    let s = text::lossy_text(bytes.as_slice());
    text::trim(s.as_str()).to_string()
}

/// The root that `git rev-parse --show-toplevel` names, or why there is none.
pub fn discovered_root(out: &GitOutput) -> (r: Result<String, RewindError>)
    ensures
        match (r, root_named(*out)) {
            (Ok(s), Ok(root)) => s@ == root,
            (Err(e), Err(why)) => e@ == why,
            _ => false,
        },
{
    if !out.success {
        let stderr = text::lossy_text(out.stderr.as_slice());
        if text::contains(stderr.as_str(), "not a git repository") {
            return Err(RewindError::NotAGitRepo);
        }
        return Err(RewindError::Git(text::trim(stderr.as_str()).to_string()));
    }
    let root = tidy_text(&out.stdout);
    if root.as_str().is_empty() {
        return Err(RewindError::NotAGitRepo);
    }
    Ok(root)
}

/// What a Git command says, or why it failed.
pub fn git_text(out: &GitOutput) -> (r: Result<String, RewindError>)
    ensures
        match (r, said(*out)) {
            (Ok(s), Ok(t)) => s@ == t,
            (Err(e), Err(why)) => e@ == why,
            _ => false,
        },
{
    if out.success {
        Ok(tidy_text(&out.stdout))
    } else {
        Err(RewindError::Git(tidy_text(&out.stderr)))
    }
}

/// What a Git command says, if it could be run, did not fail, and says
/// anything.
pub open spec fn told(out: Option<GitOutput>) -> Option<Seq<char>> {
    match out {
        Some(o) => match said(o) {
            Ok(s) => if s.len() > 0 {
                Some(s)
            } else {
                None
            },
            Err(_) => None,
        },
        None => None,
    }
}

fn tell(out: &Option<GitOutput>) -> (r: Option<String>)
    ensures
        text::opt_text(r) == told(*out),
{
    match out {
        Some(o) => match git_text(o) {
            Ok(s) => if s.as_str().is_empty() {
                None
            } else {
                Some(s)
            },
            Err(_) => None,
        },
        None => None,
    }
}

impl GitState {
    /// The state of a repository, from what `git rev-parse --abbrev-ref HEAD`,
    /// `git rev-parse HEAD` and `git status --porcelain` put out. What is
    /// missing, such as the head of a repository without commits, is `None`. A
    /// detached head is on no branch.
    pub fn from_output(
        branch: &Option<GitOutput>,
        head: &Option<GitOutput>,
        status: &Option<GitOutput>,
    ) -> (r: GitState)
        ensures
            text::opt_text(r.branch) == if told(*branch) == Some("HEAD"@) {
                None
            } else {
                told(*branch)
            },
            text::opt_text(r.head) == told(*head),
            r.dirty == (told(*status) is Some),
    {
        let branch = match tell(branch) {
            Some(b) => if text::same(b.as_str(), "HEAD") {
                None
            } else {
                Some(b)
            },
            None => None,
        };
        GitState { branch, head: tell(head), dirty: tell(status).is_some() }
    }
}

/// The name of a repository: the last component of its root if that is a name,
/// else the root itself.
pub open spec fn name_of(root: Seq<char>) -> Seq<char> {
    let parts = paths::parts_of(root);
    if parts.len() > 0 {
        match parts.last() {
            PartView::Normal(name) => name,
            _ => root,
        }
    } else {
        root
    }
}

impl Repo {
    /// The name of the repository.
    pub fn name(&self) -> (r: String)
        ensures
            r@ == name_of(self.root@),
    {
        let parts = paths::parts(self.root.as_str());
        let n: usize = parts.len();
        if n > 0 {
            proof {
                assert(paths::part_views(parts@).last() == parts@[n - 1]@);
            }
            if let PathPart::Normal(name) = &parts[n - 1] {
                return name.clone();
            }
        }
        self.root.clone()
    }
}

// ---------------------------------------------------------------------------
// Laws
// ---------------------------------------------------------------------------

/// A repository has the name of its directory.
pub proof fn lemma_named_by_directory(dir: Seq<char>, name: Seq<char>)
    requires
        paths::laws::is_name(name),
    ensures
        name_of(paths::joined(dir, name)) == name,
{
    paths::laws::lemma_last_part(dir, name);
}

/// Git is believed only where it succeeds. Where it fails, that there is no
/// repository is told apart from every other failure.
pub proof fn lemma_git_answers(out: GitOutput)
    ensures
        said(out) is Ok <==> out.success,
        out.success ==> said(out) == Ok::<Seq<char>, ErrorView>(
            text::trimmed(text::lossy(out.stdout@)),
        ),
        !out.success ==> said(out) == Err::<Seq<char>, ErrorView>(
            ErrorView::Git(text::trimmed(text::lossy(out.stderr@))),
        ),
        root_named(out) is Ok ==> out.success && root_named(out) == said(out) && root_named(
            out,
        )->Ok_0.len() > 0,
        !out.success ==> (root_named(out) == Err::<Seq<char>, ErrorView>(ErrorView::NotAGitRepo)
            <==> text::occurs(text::lossy(out.stderr@), "not a git repository"@)),
        out.success && root_named(out) is Err ==> root_named(out) == Err::<Seq<char>, ErrorView>(
            ErrorView::NotAGitRepo,
        ) && text::trimmed(text::lossy(out.stdout@)).len() == 0,
{
}

/// What git does not tell is left out, and so is an empty answer.
pub proof fn lemma_git_tells(out: Option<GitOutput>)
    ensures
        told(out) is Some <==> out is Some && out->0.success && text::trimmed(
            text::lossy(out->0.stdout@),
        ).len() > 0,
        told(out) is Some ==> told(out)->0 == text::trimmed(text::lossy(out->0.stdout@)),
{
}

} // verus!
