//! The failures the library and its callers report.

use vstd::prelude::*;

use crate::text;

verus! {

/// The set of failures. Those of the file system, the database and the parsers
/// carry the message of the layer they come from.
#[derive(Debug, PartialEq, Eq)]
pub enum RewindError {
    Io(String),
    Db(String),
    Config(String),
    Toml(String),
    Json(String),
    NotAGitRepo,
    Git(String),
    PathEscapesRoot { path: String, root: String },
    ObjectMissing(String),
    SnapshotMissing(String),
    Corrupt(String),
    Cancelled,
    Other(String),
}

/// A failure with its texts as sequences of characters.
pub enum ErrorView {
    Io(Seq<char>),
    Db(Seq<char>),
    Config(Seq<char>),
    Toml(Seq<char>),
    Json(Seq<char>),
    NotAGitRepo,
    Git(Seq<char>),
    PathEscapesRoot { path: Seq<char>, root: Seq<char> },
    ObjectMissing(Seq<char>),
    SnapshotMissing(Seq<char>),
    Corrupt(Seq<char>),
    Cancelled,
    Other(Seq<char>),
}

impl View for RewindError {
    type V = ErrorView;

    open spec fn view(&self) -> ErrorView {
        match self {
            RewindError::Io(s) => ErrorView::Io(s@),
            RewindError::Db(s) => ErrorView::Db(s@),
            RewindError::Config(s) => ErrorView::Config(s@),
            RewindError::Toml(s) => ErrorView::Toml(s@),
            RewindError::Json(s) => ErrorView::Json(s@),
            RewindError::NotAGitRepo => ErrorView::NotAGitRepo,
            RewindError::Git(s) => ErrorView::Git(s@),
            RewindError::PathEscapesRoot { path, root } => ErrorView::PathEscapesRoot {
                path: path@,
                root: root@,
            },
            RewindError::ObjectMissing(s) => ErrorView::ObjectMissing(s@),
            RewindError::SnapshotMissing(s) => ErrorView::SnapshotMissing(s@),
            RewindError::Corrupt(s) => ErrorView::Corrupt(s@),
            RewindError::Cancelled => ErrorView::Cancelled,
            RewindError::Other(s) => ErrorView::Other(s@),
        }
    }
}

/// What a failure tells the user.
pub open spec fn error_message(e: ErrorView) -> Seq<char> {
    match e {
        ErrorView::Io(s) => "I/O error: "@ + s,
        ErrorView::Db(s) => "database error: "@ + s,
        ErrorView::Config(s) => "configuration error: "@ + s,
        ErrorView::Toml(s) => "failed to parse TOML: "@ + s,
        ErrorView::Json(s) => "JSON error: "@ + s,
        ErrorView::NotAGitRepo => "not inside a Git repository (run `git init` or `rewind init`)"@,
        ErrorView::Git(s) => "git command failed: "@ + s,
        ErrorView::PathEscapesRoot { path, root } => "path "@ + path
            + " escapes the repository root "@ + root,
        ErrorView::ObjectMissing(s) => "object "@ + s + " not found in the content store"@,
        ErrorView::SnapshotMissing(s) => "snapshot "@ + s + " not found"@,
        ErrorView::Corrupt(s) => "data corruption: "@ + s,
        ErrorView::Cancelled => "operation cancelled"@,
        ErrorView::Other(s) => s,
    }
}

fn prefixed(prefix: &str, s: &String) -> (r: String)
    ensures
        r@ == prefix@ + s@,
{
    let mut r = prefix.to_string();
    r.append(s.as_str());
    r
}

impl RewindError {
    /// An ad-hoc failure with a message of its own.
    pub fn other(msg: &str) -> (r: RewindError)
        ensures
            r@ == ErrorView::Other(msg@),
    {
        RewindError::Other(msg.to_string())
    }

    /// What the failure tells the user.
    pub fn message(&self) -> (r: String)
        ensures
            r@ == error_message(self@),
    {
        match self {
            RewindError::Io(s) => prefixed("I/O error: ", s),
            RewindError::Db(s) => prefixed("database error: ", s),
            RewindError::Config(s) => prefixed("configuration error: ", s),
            RewindError::Toml(s) => prefixed("failed to parse TOML: ", s),
            RewindError::Json(s) => prefixed("JSON error: ", s),
            RewindError::NotAGitRepo =>
                "not inside a Git repository (run `git init` or `rewind init`)".to_string(),
            RewindError::Git(s) => prefixed("git command failed: ", s),
            RewindError::PathEscapesRoot { path, root } => {
                let mut r = prefixed("path ", path);
                r.append(" escapes the repository root ");
                r.append(root.as_str());
                r
            },
            RewindError::ObjectMissing(s) => {
                let mut r = prefixed("object ", s);
                r.append(" not found in the content store");
                r
            },
            RewindError::SnapshotMissing(s) => {
                let mut r = prefixed("snapshot ", s);
                r.append(" not found");
                r
            },
            RewindError::Corrupt(s) => prefixed("data corruption: ", s),
            RewindError::Cancelled => "operation cancelled".to_string(),
            RewindError::Other(s) => s.clone(),
        }
    }
}

/// Every message tells what the error holds, and the sorts of errors are told
/// apart by how their messages begin.
pub proof fn lemma_messages(s: Seq<char>, path: Seq<char>, root: Seq<char>)
    ensures
        error_message(ErrorView::Other(s)) == s,
        text::occurs(error_message(ErrorView::Io(s)), s),
        text::occurs(error_message(ErrorView::Db(s)), s),
        text::occurs(error_message(ErrorView::Config(s)), s),
        text::occurs(error_message(ErrorView::Toml(s)), s),
        text::occurs(error_message(ErrorView::Json(s)), s),
        text::occurs(error_message(ErrorView::Git(s)), s),
        text::occurs(error_message(ErrorView::ObjectMissing(s)), s),
        text::occurs(error_message(ErrorView::SnapshotMissing(s)), s),
        text::occurs(error_message(ErrorView::Corrupt(s)), s),
        text::occurs(error_message(ErrorView::PathEscapesRoot { path, root }), path),
        text::occurs(error_message(ErrorView::PathEscapesRoot { path, root }), root),
        error_message(ErrorView::Io(s))[0] == 'I',
        error_message(ErrorView::Db(s))[0] == 'd' && error_message(ErrorView::Corrupt(s))[0] == 'd',
        error_message(ErrorView::Db(s)) != error_message(ErrorView::Corrupt(s)),
        error_message(ErrorView::Config(s))[0] == 'c',
        error_message(ErrorView::Toml(s))[0] == 'f',
        error_message(ErrorView::Json(s))[0] == 'J',
        error_message(ErrorView::Git(s))[0] == 'g',
        error_message(ErrorView::ObjectMissing(s))[0] == 'o',
        error_message(ErrorView::SnapshotMissing(s))[0] == 's',
{
    lemma_ends_with("I/O error: "@, s);
    lemma_ends_with("database error: "@, s);
    lemma_ends_with("configuration error: "@, s);
    lemma_ends_with("failed to parse TOML: "@, s);
    lemma_ends_with("JSON error: "@, s);
    lemma_ends_with("git command failed: "@, s);
    lemma_ends_with("data corruption: "@, s);
    text::lemma_occurs_within("object "@, s, " not found in the content store"@);
    text::lemma_occurs_within("snapshot "@, s, " not found"@);
    text::lemma_occurs_within("path "@, path, " escapes the repository root "@ + root);
    let all = error_message(ErrorView::PathEscapesRoot { path, root });
    assert(all =~= "path "@ + path + (" escapes the repository root "@ + root));
    lemma_ends_with("path "@ + path + " escapes the repository root "@, root);
    reveal_strlit("I/O error: ");
    reveal_strlit("database error: ");
    reveal_strlit("configuration error: ");
    reveal_strlit("failed to parse TOML: ");
    reveal_strlit("JSON error: ");
    reveal_strlit("git command failed: ");
    reveal_strlit("data corruption: ");
    reveal_strlit("object ");
    reveal_strlit("snapshot ");
    assert(error_message(ErrorView::Db(s))[4] == 'b');
    assert(error_message(ErrorView::Corrupt(s))[4] == ' ');
}

proof fn lemma_ends_with(a: Seq<char>, s: Seq<char>)
    ensures
        text::occurs(a + s, s),
{
    let none = Seq::<char>::empty();
    assert(a + s =~= a + s + none);
    text::lemma_occurs_within(a, s, none);
}

} // verus!
