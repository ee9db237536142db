//! Which files are tracked.
//!
//! The rules layer the `.gitignore` of the repository with built-in exclusions
//! (version control and tool internals, dependency and build directories,
//! caches, secrets) and the patterns of the configuration.

use vstd::prelude::*;

use crate::config;
use crate::config::Config;
use crate::error::ErrorView;
use crate::error::RewindError;
use crate::paths;
use crate::text;
use crate::text::CharClass;
use crate::text_map::TextMap;

pub mod watcher;

verus! {

// ---------------------------------------------------------------------------
// Pattern matchers
// ---------------------------------------------------------------------------

/// A matcher of gitignore patterns.
#[verifier::external_type_specification]
#[verifier::external_body]
pub struct ExGitignore(ignore::gitignore::Gitignore);

/// A matcher of gitignore patterns in the making.
#[verifier::external_type_specification]
#[verifier::external_body]
pub struct ExGitignoreBuilder(ignore::gitignore::GitignoreBuilder);

/// The lines that a builder was given and took, in order.
pub uninterp spec fn lines_given(b: ignore::gitignore::GitignoreBuilder) -> Seq<Seq<char>>;

/// The directory that a builder was made for.
pub uninterp spec fn given_root(b: ignore::gitignore::GitignoreBuilder) -> Seq<char>;

/// The lines that a matcher was made of, in order.
pub uninterp spec fn lines_of(g: ignore::gitignore::Gitignore) -> Seq<Seq<char>>;

/// The directory that a matcher was made for.
pub uninterp spec fn root_of(g: ignore::gitignore::Gitignore) -> Seq<char>;

/// What is wrong with a line as a gitignore pattern, if anything.
pub uninterp spec fn line_fault(line: Seq<char>) -> Option<Seq<char>>;

/// Why no matcher can be made of the lines, if there is a reason.
pub uninterp spec fn build_fault(lines: Seq<Seq<char>>) -> Option<Seq<char>>;

/// The patterns in `lines`, for the directory `root`, ignore `path`.
pub uninterp spec fn ignored_alone(
    root: Seq<char>,
    lines: Seq<Seq<char>>,
    path: Seq<char>,
    is_dir: bool,
) -> bool;

/// The patterns in `lines`, for the directory `root`, ignore `path` or, where
/// they say nothing of it, the nearest directory above it of which they do.
pub uninterp spec fn ignored_below(
    root: Seq<char>,
    lines: Seq<Seq<char>>,
    path: Seq<char>,
    is_dir: bool,
) -> bool;

/// `ignore::gitignore::GitignoreBuilder::new` makes a builder without lines.
#[verifier::external_body]
fn builder_new(root: &str) -> (b: ignore::gitignore::GitignoreBuilder)
    ensures
        given_root(b) == root@,
        lines_given(b) == Seq::<Seq<char>>::empty(),
{
    ignore::gitignore::GitignoreBuilder::new(root)
}

/// `ignore::gitignore::GitignoreBuilder::add_line` takes a line unless it
/// cannot be read as a pattern, which depends on the line alone. It then says
/// why, and the builder is as it was.
#[verifier::external_body]
fn builder_add(b: &mut ignore::gitignore::GitignoreBuilder, line: &str) -> (r: Option<String>)
    ensures
        text::opt_text(r) == line_fault(line@),
        given_root(*final(b)) == given_root(*old(b)),
        lines_given(*final(b)) == if line_fault(line@) is None {
            lines_given(*old(b)).push(line@)
        } else {
            lines_given(*old(b))
        },
{
    match b.add_line(None, line) {
        Ok(_) => None,
        Err(e) => Some(e.to_string()),
    }
}

/// `ignore::gitignore::GitignoreBuilder::build` makes the matcher of the lines
/// taken, or says why it cannot. Without lines it always can.
#[verifier::external_body]
fn builder_build(b: &ignore::gitignore::GitignoreBuilder) -> (r: Result<
    ignore::gitignore::Gitignore,
    String,
>)
    ensures
        match r {
            Ok(g) => build_fault(lines_given(*b)) is None && lines_of(g) == lines_given(*b) && root_of(
                g,
            ) == given_root(*b),
            Err(m) => build_fault(lines_given(*b)) == Some(m@) && lines_given(*b).len() > 0,
        },
{
    b.build().map_err(|e| e.to_string())
}

/// `s` without one `./` at its start.
pub open spec fn without_dot_slash(s: Seq<char>) -> Seq<char> {
    if s.len() >= 2 && s[0] == '.' && s[1] == '/' {
        s.skip(2)
    } else {
        s
    }
}

/// What a matcher for `root` makes of `path` before it looks at the patterns:
/// it takes off a `./`, and then the root and a slash after it, unless the root
/// is `.` or the path is a bare name.
pub open spec fn stripped(root: Seq<char>, path: Seq<char>) -> Seq<char> {
    let top = without_dot_slash(root);
    let p = without_dot_slash(path);
    if top != seq!['.'] && p.contains('/') && top.is_prefix_of(p) {
        let rest = p.skip(top.len() as int);
        if rest.len() > 0 && rest[0] == '/' {
            rest.skip(1)
        } else {
            rest
        }
    } else {
        p
    }
}

/// `path` lies below the directory of a matcher for `root`: what is left of it
/// is a relative path.
pub open spec fn lies_below(root: Seq<char>, path: Seq<char>) -> bool {
    stripped(root, path).len() == 0 || stripped(root, path)[0] != '/'
}

/// The rules for a root can be asked about a path on disk: taken relative to the
/// root, if it is below it, the path still lies below the root.
pub open spec fn can_judge(root: Seq<char>, path: Seq<char>) -> bool {
    paths::relative_to(root, path) matches Some(rel) ==> lies_below(root, rel)
}

/// `ignore::gitignore::Gitignore::matched` and `is_ignore` of what it gives.
/// Without patterns nothing is ignored.
#[verifier::external_body]
fn matcher_matched(g: &ignore::gitignore::Gitignore, path: &str, is_dir: bool) -> (r: bool)
    ensures
        r == ignored_alone(root_of(*g), lines_of(*g), path@, is_dir),
        lines_of(*g).len() == 0 ==> !r,
{
    g.matched(path, is_dir).is_ignore()
}

/// `ignore::gitignore::Gitignore::matched_path_or_any_parents` and `is_ignore`
/// of what it gives. It goes by the path itself wherever a pattern speaks of
/// it, so a path that is ignored alone is ignored. Without patterns nothing is.
/// A path that does not lie below the directory of the matcher makes it panic.
#[verifier::external_body]
fn matcher_matched_below(g: &ignore::gitignore::Gitignore, path: &str, is_dir: bool) -> (r: bool)
    requires
        lies_below(root_of(*g), path@),
    ensures
        r == ignored_below(root_of(*g), lines_of(*g), path@, is_dir),
        ignored_alone(root_of(*g), lines_of(*g), path@, is_dir) ==> r,
        lines_of(*g).len() == 0 ==> !r,
{
    g.matched_path_or_any_parents(path, is_dir).is_ignore()
}

/// A text in quotes, with what needs it escaped, as `{:?}` writes it.
pub uninterp spec fn quoted(s: Seq<char>) -> Seq<char>;

/// `{:?}` of a `str`.
#[verifier::external_body]
fn quote(s: &str) -> (r: String)
    ensures
        r@ == quoted(s@),
{
    format!("{s:?}")
}

/// The lines of which a matcher is made, or why it is not: because of the
/// first line that is no pattern, or because the whole cannot be compiled.
pub open spec fn compiled(lines: Seq<Seq<char>>) -> Result<Seq<Seq<char>>, ErrorView> {
    match first_fault(lines) {
        Some(e) => Err(e),
        None => match build_fault(lines) {
            Some(m) => Err(ErrorView::Other("failed to compile ignore rules: "@ + m)),
            None => Ok(lines),
        },
    }
}

/// What is wrong with the first line that is no pattern.
pub open spec fn first_fault(lines: Seq<Seq<char>>) -> Option<ErrorView>
    decreases lines.len(),
{
    if lines.len() == 0 {
        None
    } else if first_fault(lines.drop_last()) is Some {
        first_fault(lines.drop_last())
    } else {
        match line_fault(lines.last()) {
            Some(m) => Some(
                ErrorView::Other(
                    "invalid ignore pattern "@ + quoted(lines.last()) + ": "@ + m,
                ),
            ),
            None => None,
        }
    }
}

proof fn lemma_first_fault_stays(lines: Seq<Seq<char>>, n: int)
    requires
        0 <= n <= lines.len(),
        first_fault(lines.take(n)) is Some,
    ensures
        first_fault(lines) == first_fault(lines.take(n)),
    decreases lines.len() - n,
{
    if n < lines.len() {
        assert(lines.take(n + 1).drop_last() =~= lines.take(n));
        lemma_first_fault_stays(lines, n + 1);
    } else {
        assert(lines.take(n) =~= lines);
    }
}

/// The matcher of `patterns` for `root`.
fn build_gitignore(root: &str, patterns: &Vec<String>) -> (r: Result<
    ignore::gitignore::Gitignore,
    RewindError,
>)
    ensures
        match (r, compiled(text::texts(patterns@))) {
            (Ok(g), Ok(lines)) => root_of(g) == root@ && lines_of(g) == lines,
            (Err(e), Err(why)) => e@ == why,
            _ => false,
        },
{
    let mut b = builder_new(root);
    let ghost all = text::texts(patterns@);
    let mut i: usize = 0;
    proof {
        assert(all.take(0) =~= Seq::<Seq<char>>::empty());
    }
    while i < patterns.len()
        invariant
            i <= patterns@.len(),
            all == text::texts(patterns@),
            given_root(b) == root@,
            lines_given(b) == all.take(i as int),
            first_fault(all.take(i as int)) is None,
        decreases patterns@.len() - i,
    {
        let p = patterns[i].as_str();
        proof {
            assert(all.take(i + 1).drop_last() =~= all.take(i as int));
            assert(all.take(i + 1).last() == p@);
            assert(all.take(i + 1) =~= all.take(i as int).push(p@));
        }
        if let Some(m) = builder_add(&mut b, p) {
            let mut why = "invalid ignore pattern ".to_string();
            let q = quote(p);
            why.append(q.as_str());
            why.append(": ");
            why.append(m.as_str());
            proof {
                lemma_first_fault_stays(all, i + 1);
            }
            return Err(RewindError::Other(why));
        }
        i += 1;
    }
    proof {
        assert(all.take(i as int) =~= all);
    }
    match builder_build(&b) {
        Ok(g) => Ok(g),
        Err(m) => {
            let mut why = "failed to compile ignore rules: ".to_string();
            why.append(m.as_str());
            Err(RewindError::Other(why))
        },
    }
}

/// The lines of a list that are patterns.
pub open spec fn usable(lines: Seq<Seq<char>>) -> Seq<Seq<char>>
    decreases lines.len(),
{
    if lines.len() == 0 {
        Seq::empty()
    } else if line_fault(lines.last()) is None {
        usable(lines.drop_last()).push(lines.last())
    } else {
        usable(lines.drop_last())
    }
}

/// The lines of a gitignore file, without a byte order mark at their start.
pub open spec fn without_mark(lines: Seq<Seq<char>>) -> Seq<Seq<char>> {
    if lines.len() == 0 {
        lines
    } else {
        lines.update(0, text::strip_front(lines[0], CharClass::AnyOf("\u{feff}")))
    }
}

/// Gives the builder the lines of a gitignore file. Lines that are no patterns
/// are passed over.
fn add_file(b: &mut ignore::gitignore::GitignoreBuilder, lines: &Vec<String>)
    ensures
        given_root(*final(b)) == given_root(*old(b)),
        lines_given(*final(b)) == lines_given(*old(b)) + usable(without_mark(text::texts(lines@))),
{
    let ghost start = lines_given(*b);
    let ghost all = without_mark(text::texts(lines@));
    let mut i: usize = 0;
    proof {
        assert(all.take(0) =~= Seq::<Seq<char>>::empty());
        assert(start =~= start + usable(all.take(0)));
    }
    while i < lines.len()
        invariant
            i <= lines@.len(),
            all == without_mark(text::texts(lines@)),
            given_root(*b) == given_root(*old(b)),
            lines_given(*b) == start + usable(all.take(i as int)),
        decreases lines@.len() - i,
    {
        let line = if i == 0 {
            text::trim_front_of(lines[i].as_str(), &CharClass::AnyOf("\u{feff}"))
        } else {
            lines[i].as_str()
        };
        proof {
            assert(all[i as int] == line@);
            assert(all.take(i + 1).drop_last() =~= all.take(i as int));
            assert(all.take(i + 1).last() == line@);
        }
        let _ = builder_add(b, line);
        proof {
            assert(lines_given(*b) =~= start + usable(all.take(i + 1)));
        }
        i += 1;
    }
    proof {
        assert(all.take(i as int) =~= all);
    }
}

// ---------------------------------------------------------------------------
// The rules
// ---------------------------------------------------------------------------

/// Why a path is not tracked.
#[derive(Debug, Clone, Copy, PartialEq, Eq)]
pub enum IgnoreReason {
    /// It is tracked.
    Included,
    DefaultDir,
    GitIgnored,
    Secret,
    Extra,
    TooLarge,
    Binary,
}

/// The rules by which the files of a repository are tracked.
pub struct IgnoreRules {
    root: String,
    default_dirs: ignore::gitignore::Gitignore,
    secrets: ignore::gitignore::Gitignore,
    extra: ignore::gitignore::Gitignore,
    repo_gitignore: ignore::gitignore::Gitignore,
    max_file_size: u64,
    track_secrets: bool,
}

/// The rules as lists of patterns.
pub struct RulesView {
    pub root: Seq<char>,
    pub default_dirs: Seq<Seq<char>>,
    pub secrets: Seq<Seq<char>>,
    pub extra: Seq<Seq<char>>,
    pub repo_gitignore: Seq<Seq<char>>,
    pub max_file_size: u64,
    pub track_secrets: bool,
}

impl View for IgnoreRules {
    type V = RulesView;

    closed spec fn view(&self) -> RulesView {
        RulesView {
            root: self.root@,
            default_dirs: lines_of(self.default_dirs),
            secrets: lines_of(self.secrets),
            extra: lines_of(self.extra),
            repo_gitignore: lines_of(self.repo_gitignore),
            max_file_size: self.max_file_size,
            track_secrets: self.track_secrets,
        }
    }
}

/// The patterns of the directories that are never tracked.
pub open spec fn dir_patterns(dirs: Seq<Seq<char>>) -> Seq<Seq<char>> {
    Seq::new(dirs.len(), |i: int| dirs[i] + "/"@)
}

/// The rules for the repository `root`, from its configuration and the lines
/// of its `.gitignore` and of its `.git/info/exclude`.
pub open spec fn rules_for(
    root: Seq<char>,
    config: Config,
    gitignore: Seq<Seq<char>>,
    exclude: Seq<Seq<char>>,
) -> Result<RulesView, ErrorView> {
    let repo = usable(without_mark(gitignore)) + usable(without_mark(exclude));
    match compiled(dir_patterns(config::default_ignored_dirs())) {
        Err(e) => Err(e),
        Ok(default_dirs) => match compiled(config::secret_patterns()) {
            Err(e) => Err(e),
            Ok(secrets) => match compiled(text::texts(config.ignore@)) {
                Err(e) => Err(e),
                Ok(extra) => match build_fault(repo) {
                    Some(m) => Err(ErrorView::Other("invalid .gitignore: "@ + m)),
                    None => Ok(
                        RulesView {
                            root,
                            default_dirs,
                            secrets,
                            extra,
                            repo_gitignore: repo,
                            max_file_size: config.max_file_size,
                            track_secrets: config.track_secrets,
                        },
                    ),
                },
            },
        },
    }
}

/// A path is excluded by the patterns that do not come from Git.
pub open spec fn custom_ignored(rules: RulesView, rel: Seq<char>, is_dir: bool) -> bool {
    ||| ignored_below(rules.root, rules.default_dirs, rel, is_dir)
    ||| ignored_below(rules.root, rules.extra, rel, is_dir)
    ||| (!rules.track_secrets && ignored_below(rules.root, rules.secrets, rel, is_dir))
}

/// Which of the lists of patterns exclude a path.
#[derive(Debug, Clone, Copy, PartialEq, Eq)]
pub struct Matches {
    pub default_dir: bool,
    pub secret: bool,
    pub extra: bool,
    pub gitignored: bool,
}

/// Why a path of that size is not tracked, or that it is. The first list of
/// patterns that excludes it counts, that of the secrets only unless they are
/// tracked, and then the size where it is known.
pub open spec fn reason_of(
    matches: Matches,
    track_secrets: bool,
    max_file_size: u64,
    size: Option<u64>,
) -> IgnoreReason {
    if matches.default_dir {
        IgnoreReason::DefaultDir
    } else if !track_secrets && matches.secret {
        IgnoreReason::Secret
    } else if matches.extra {
        IgnoreReason::Extra
    } else if matches.gitignored {
        IgnoreReason::GitIgnored
    } else if size is Some && size->0 > max_file_size {
        IgnoreReason::TooLarge
    } else {
        IgnoreReason::Included
    }
}

/// Why a path of that size is not tracked, or that it is, given which lists of
/// patterns exclude it.
pub fn decide(
    matches: Matches,
    track_secrets: bool,
    max_file_size: u64,
    size: Option<u64>,
) -> (r: IgnoreReason)
    ensures
        r == reason_of(matches, track_secrets, max_file_size, size),
{
    if matches.default_dir {
        return IgnoreReason::DefaultDir;
    }
    if !track_secrets && matches.secret {
        return IgnoreReason::Secret;
    }
    if matches.extra {
        return IgnoreReason::Extra;
    }
    if matches.gitignored {
        return IgnoreReason::GitIgnored;
    }
    if let Some(n) = size {
        if n > max_file_size {
            return IgnoreReason::TooLarge;
        }
    }
    IgnoreReason::Included
}

/// Which lists of patterns exclude a path.
pub open spec fn matches_of(rules: RulesView, rel: Seq<char>, is_dir: bool) -> Matches {
    Matches {
        default_dir: ignored_below(rules.root, rules.default_dirs, rel, is_dir),
        secret: ignored_below(rules.root, rules.secrets, rel, is_dir),
        extra: ignored_below(rules.root, rules.extra, rel, is_dir),
        gitignored: ignored_below(rules.root, rules.repo_gitignore, rel, is_dir),
    }
}

/// Why a path of that size is not tracked, or that it is. The size counts only
/// where it is known.
pub open spec fn reason_for(
    rules: RulesView,
    rel: Seq<char>,
    is_dir: bool,
    size: Option<u64>,
) -> IgnoreReason {
    reason_of(matches_of(rules, rel, is_dir), rules.track_secrets, rules.max_file_size, size)
}

fn owned_list(list: &[&str], suffix: &str) -> (r: Vec<String>)
    ensures
        text::texts(r@) == Seq::new(list@.len(), |i: int| text::strs(list@)[i] + suffix@),
{
    let ghost want = Seq::new(list@.len(), |i: int| text::strs(list@)[i] + suffix@);
    let mut r: Vec<String> = Vec::new();
    let mut i: usize = 0;
    while i < list.len()
        invariant
            i <= list@.len(),
            want == Seq::new(list@.len(), |i: int| text::strs(list@)[i] + suffix@),
            text::texts(r@) == want.take(i as int),
        decreases list@.len() - i,
    {
        let ghost before = r@;
        let mut s = list[i].to_string();
        s.append(suffix);
        r.push(s);
        proof {
            assert(s@ == want[i as int]);
            assert(text::texts(r@) =~= text::texts(before).push(want[i as int]));
            assert(want.take(i + 1) =~= want.take(i as int).push(want[i as int]));
        }
        i += 1;
    }
    proof {
        assert(want.take(i as int) =~= want);
    }
    r
}

impl IgnoreRules {
    #[verifier::type_invariant]
    spec fn inv(self) -> bool {
        &&& root_of(self.default_dirs) == self.root@
        &&& root_of(self.secrets) == self.root@
        &&& root_of(self.extra) == self.root@
        &&& root_of(self.repo_gitignore) == self.root@
    }

    /// The rules for the repository `root`, from its configuration and the
    /// lines of its `.gitignore` and of its `.git/info/exclude`.
    pub fn new(
        root: &str,
        config: &Config,
        gitignore: &Vec<String>,
        exclude: &Vec<String>,
    ) -> (r: Result<IgnoreRules, RewindError>)
        ensures
            match (
                r,
                rules_for(root@, *config, text::texts(gitignore@), text::texts(exclude@)),
            ) {
                (Ok(rules), Ok(view)) => rules@ == view,
                (Err(e), Err(why)) => e@ == why,
                _ => false,
            },
    {
        let dirs = config::default_ignored_dir_list();
        let dir_list = owned_list(&dirs, "/");
        proof {
            assert(text::texts(dir_list@) =~= dir_patterns(config::default_ignored_dirs()));
        }
        let default_dirs = match build_gitignore(root, &dir_list) {
            Ok(g) => g,
            Err(e) => return Err(e),
        };
        let secret_list = config::secret_pattern_list();
        let secret_lines = owned_list(&secret_list, "");
        proof {
            reveal_strlit("");
            let want = config::secret_patterns();
            assert forall|i: int| 0 <= i < want.len() implies text::texts(secret_lines@)[i]
                == want[i] by {
                assert(text::strs(secret_list@)[i] + ""@ =~= want[i]);
            }
            assert(text::texts(secret_lines@) =~= want);
        }
        let secrets = match build_gitignore(root, &secret_lines) {
            Ok(g) => g,
            Err(e) => return Err(e),
        };
        let extra = match build_gitignore(root, &config.ignore) {
            Ok(g) => g,
            Err(e) => return Err(e),
        };
        let mut b = builder_new(root);
        add_file(&mut b, gitignore);
        add_file(&mut b, exclude);
        proof {
            let repo = usable(without_mark(text::texts(gitignore@))) + usable(
                without_mark(text::texts(exclude@)),
            );
            assert(lines_given(b) =~= repo);
        }
        let repo_gitignore = match builder_build(&b) {
            Ok(g) => g,
            Err(m) => {
                let mut why = "invalid .gitignore: ".to_string();
                why.append(m.as_str());
                return Err(RewindError::Other(why));
            },
        };
        Ok(
            IgnoreRules {
                root: root.to_string(),
                default_dirs,
                secrets,
                extra,
                repo_gitignore,
                max_file_size: config.max_file_size,
                track_secrets: config.track_secrets,
            },
        )
    }

    /// Whether a path is excluded by the patterns that do not come from Git.
    /// Used not to descend into directories.
    pub fn is_custom_ignored(&self, rel: &str, is_dir: bool) -> (r: bool)
        requires
            lies_below(self@.root, rel@),
        ensures
            r == custom_ignored(self@, rel@, is_dir),
    {
        proof {
            use_type_invariant(self);
        }
        if matcher_matched_below(&self.default_dirs, rel, is_dir) {
            return true;
        }
        if matcher_matched_below(&self.extra, rel, is_dir) {
            return true;
        }
        !self.track_secrets && matcher_matched_below(&self.secrets, rel, is_dir)
    }

    /// Whether a path matches a pattern of secrets, tracked or not.
    pub fn matches_secret(&self, rel: &str) -> (r: bool)
        ensures
            r == ignored_alone(self@.root, self@.secrets, rel@, false),
    {
        proof {
            use_type_invariant(self);
        }
        matcher_matched(&self.secrets, rel, false)
    }

    /// Why a path is not tracked, or that it is. The `.gitignore` of the root
    /// counts too, and the size where it is known.
    pub fn classify(&self, rel: &str, is_dir: bool, size: Option<u64>) -> (r: IgnoreReason)
        requires
            lies_below(self@.root, rel@),
        ensures
            r == reason_for(self@, rel@, is_dir, size),
            r is Included ==> !custom_ignored(self@, rel@, is_dir),
            r is Included && !self@.track_secrets ==> !ignored_alone(
                self@.root,
                self@.secrets,
                rel@,
                is_dir,
            ),
    {
        proof {
            use_type_invariant(self);
        }
        let matches = Matches {
            default_dir: matcher_matched_below(&self.default_dirs, rel, is_dir),
            secret: matcher_matched_below(&self.secrets, rel, is_dir),
            extra: matcher_matched_below(&self.extra, rel, is_dir),
            gitignored: matcher_matched_below(&self.repo_gitignore, rel, is_dir),
        };
        decide(matches, self.track_secrets, self.max_file_size, size)
    }

    /// Whether a file is tracked, whatever its size and content. Unless secrets
    /// are tracked, no file that matches a pattern of secrets is.
    pub fn should_track(&self, rel: &str) -> (r: bool)
        requires
            lies_below(self@.root, rel@),
        ensures
            r == (reason_for(self@, rel@, false, None) is Included),
            r && !self@.track_secrets ==> !ignored_alone(
                self@.root,
                self@.secrets,
                rel@,
                false,
            ),
    {
        match self.classify(rel, false, None) {
            IgnoreReason::Included => true,
            _ => false,
        }
    }

    /// Whether a change of a path, which may be a file or a directory, is of
    /// interest: it is if the path is tracked either way.
    pub fn should_track_event(&self, rel: &str) -> (r: bool)
        requires
            lies_below(self@.root, rel@),
        ensures
            r == (reason_for(self@, rel@, false, None) is Included && reason_for(
                self@,
                rel@,
                true,
                None,
            ) is Included),
    {
        let as_file = match self.classify(rel, false, None) {
            IgnoreReason::Included => true,
            _ => false,
        };
        let as_dir = match self.classify(rel, true, None) {
            IgnoreReason::Included => true,
            _ => false,
        };
        as_file && as_dir
    }

    /// The repository that the rules are for.
    pub fn root(&self) -> (r: &str)
        ensures
            r@ == self@.root,
    {
        self.root.as_str()
    }

    /// The size in bytes up to which files are tracked.
    pub fn max_file_size(&self) -> (r: u64)
        ensures
            r == self@.max_file_size,
    {
        self.max_file_size
    }
}

/// Whether `path` lies below the directory of a matcher for `root`.
pub fn is_below(root: &str, path: &str) -> (r: bool)
    ensures
        r == lies_below(root@, path@),
{
    let top = strip_dot_slash(root);
    let p = strip_dot_slash(path);
    let n: usize = p.unicode_len();
    let mut rest = p;
    if !text::same(top, ".") && text::has_char(p, '/') && text::starts_with(p, top) {
        let k: usize = top.unicode_len();
        rest = p.substring_char(k, n);
        proof {
            assert(p@.subrange(k as int, n as int) =~= p@.skip(k as int));
            reveal_strlit(".");
            assert("."@ =~= seq!['.']);
        }
        let cs = text::to_chars(rest);
        if cs.len() > 0 && cs[0] == '/' {
            proof {
                assert(rest@.subrange(1, cs@.len() as int) =~= rest@.skip(1));
            }
            rest = rest.substring_char(1, cs.len());
        }
    } else {
        proof {
            reveal_strlit(".");
            assert("."@ =~= seq!['.']);
        }
    }
    let cs = text::to_chars(rest);
    cs.len() == 0 || cs[0] != '/'
}

fn strip_dot_slash<'a>(s: &'a str) -> (r: &'a str)
    ensures
        r@ == without_dot_slash(s@),
{
    let cs = text::to_chars(s);
    if cs.len() >= 2 && cs[0] == '.' && cs[1] == '/' {
        proof {
            assert(s@.subrange(2, cs@.len() as int) =~= s@.skip(2));
        }
        s.substring_char(2, cs.len())
    } else {
        s
    }
}

/// Under an absolute root, every relative path lies below it that does not
/// begin with a slash or a dot and a slash.
pub proof fn lemma_relative_lies_below(root: Seq<char>, rel: Seq<char>)
    requires
        root.len() > 0,
        root[0] == '/',
        rel.len() == 0 || rel[0] != '/',
        without_dot_slash(rel) == rel,
    ensures
        lies_below(root, rel),
{
    assert(without_dot_slash(root) == root);
    if root.is_prefix_of(rel) {
        assert(rel.subrange(0, root.len() as int)[0] == rel[0]);
    }
}

// ---------------------------------------------------------------------------
// Scanning
// ---------------------------------------------------------------------------

/// How many bytes of a file are looked at to tell whether it is binary.
pub const BINARY_SNIFF_LEN: usize = 8192;

/// A tracked file.
#[derive(Debug, PartialEq, Eq)]
pub struct TrackedFile {
    /// The path relative to the root of the repository.
    pub rel_path: String,
    /// The path on disk.
    pub abs_path: String,
    /// The size in bytes.
    pub size: u64,
    /// The permission bits.
    pub mode: u32,
}

/// A tracked file with its texts as sequences of characters.
pub struct TrackedView {
    pub rel_path: Seq<char>,
    pub abs_path: Seq<char>,
    pub size: u64,
    pub mode: u32,
}

impl View for TrackedFile {
    type V = TrackedView;

    open spec fn view(&self) -> TrackedView {
        TrackedView {
            rel_path: self.rel_path@,
            abs_path: self.abs_path@,
            size: self.size,
            mode: self.mode,
        }
    }
}

/// The views of tracked files by relative path.
pub open spec fn tracked_views(files: Map<Seq<char>, TrackedFile>) -> Map<Seq<char>, TrackedView> {
    files.map_values(|f: TrackedFile| f@)
}

/// A file that begins so is binary: there is a zero byte among its first bytes.
pub open spec fn sniffs_binary(head: Seq<u8>) -> bool {
    exists|i: int| 0 <= i < head.len() && i < BINARY_SNIFF_LEN && #[trigger] head[i] == 0
}

/// Whether a file that begins so is binary.
pub fn is_binary(head: &[u8]) -> (r: bool)
    ensures
        r == sniffs_binary(head@),
{
    let mut i: usize = 0;
    while i < head.len() && i < BINARY_SNIFF_LEN
        invariant
            i <= head@.len(),
            forall|j: int| 0 <= j < i ==> #[trigger] head@[j] != 0,
        decreases head@.len() - i,
    {
        if head[i] == 0 {
            return true;
        }
        i += 1;
    }
    false
}

/// The permission bits of a file, out of its mode.
pub fn file_mode(raw: u32) -> (r: u32)
    ensures
        r == raw & 0o777,
        r < 512,
{
    assert(raw & 0o777 < 512) by (bit_vector);
    raw & 0o777
}

/// Whether to descend into, or look at, an entry of the tree: it is the root
/// itself, or not excluded by the patterns that do not come from Git.
pub fn enters(rules: &IgnoreRules, rel: Option<&str>, is_dir: bool) -> (r: bool)
    requires
        rel matches Some(p) ==> lies_below(rules@.root, p@),
    ensures
        r == match rel {
            Some(p) => p@.len() == 0 || !custom_ignored(rules@, p@, is_dir),
            None => true,
        },
{
    match rel {
        Some(p) => p.is_empty() || !rules.is_custom_ignored(p, is_dir),
        None => true,
    }
}

/// The relative path under which a file of that size may be tracked: it lies
/// below the root and is not too large.
pub fn candidate(rules: &IgnoreRules, abs_path: &str, size: u64) -> (r: Option<String>)
    ensures
        text::opt_text(r) == if size <= rules@.max_file_size {
            paths::relative_to(rules@.root, abs_path@)
        } else {
            None
        },
{
    if size > rules.max_file_size() {
        return None;
    }
    paths::rel_string(rules.root(), abs_path)
}

/// A file that the walk of a tree came upon: where it lies, its size and mode,
/// and its first bytes.
pub struct EntryView {
    pub abs_path: Seq<char>,
    pub size: u64,
    pub raw_mode: u32,
    pub head: Seq<u8>,
}

/// The relative path under which a file is tracked, if it is: it lies below the
/// root, is not too large, is not excluded by the patterns that do not come from
/// Git, and is not binary.
pub open spec fn found_as(rules: RulesView, e: EntryView) -> Option<Seq<char>> {
    match paths::relative_to(rules.root, e.abs_path) {
        Some(rel) => if e.size <= rules.max_file_size && !custom_ignored(rules, rel, false)
            && !sniffs_binary(e.head) {
            Some(rel)
        } else {
            None
        },
        None => None,
    }
}

/// The tracked files with `e` added to them if it is tracked.
pub open spec fn entered(
    rules: RulesView,
    files: Map<Seq<char>, TrackedView>,
    e: EntryView,
) -> Map<Seq<char>, TrackedView> {
    match found_as(rules, e) {
        Some(rel) => files.insert(
            rel,
            TrackedView {
                rel_path: rel,
                abs_path: e.abs_path,
                size: e.size,
                mode: e.raw_mode & 0o777,
            },
        ),
        None => files,
    }
}

/// The tracked files among those that the walk of a tree came upon, by relative
/// path.
pub open spec fn scanned(rules: RulesView, entries: Seq<EntryView>) -> Map<Seq<char>, TrackedView>
    decreases entries.len(),
{
    if entries.len() == 0 {
        Map::empty()
    } else {
        entered(rules, scanned(rules, entries.drop_last()), entries.last())
    }
}

/// A scan of a tree under way.
pub struct Scan<'a> {
    rules: &'a IgnoreRules,
    files: TextMap<TrackedFile>,
}

impl<'a> Scan<'a> {
    /// The rules of the scan.
    pub closed spec fn rules(self) -> RulesView {
        self.rules@
    }

    /// The files found so far, by relative path.
    pub closed spec fn files(self) -> Map<Seq<char>, TrackedView> {
        tracked_views(self.files@)
    }

    /// Nothing found yet.
    pub fn new(rules: &'a IgnoreRules) -> (r: Scan<'a>)
        ensures
            r.rules() == rules@,
            r.files() == scanned(rules@, Seq::empty()),
    {
        let r = Scan { rules, files: TextMap::new() };
        proof {
            assert(r.files() =~= Map::<Seq<char>, TrackedView>::empty());
        }
        r
    }

    /// Enters a file if it is tracked, and tells under which path.
    pub fn enter(&mut self, abs_path: &str, size: u64, raw_mode: u32, head: &[u8]) -> (r: Option<
        String,
    >)
        requires
            can_judge(old(self).rules().root, abs_path@),
        ensures
            ({
                let e = EntryView { abs_path: abs_path@, size, raw_mode, head: head@ };
                &&& final(self).rules() == old(self).rules()
                &&& final(self).files() == entered(old(self).rules(), old(self).files(), e)
                &&& text::opt_text(r) == found_as(old(self).rules(), e)
            }),
    {
        let rel = match candidate(self.rules, abs_path, size) {
            Some(rel) => rel,
            None => return None,
        };
        if self.rules.is_custom_ignored(rel.as_str(), false) || is_binary(head) {
            return None;
        }
        let file = TrackedFile {
            rel_path: rel.clone(),
            abs_path: abs_path.to_string(),
            size,
            mode: file_mode(raw_mode),
        };
        self.files.insert(rel.clone(), file);
        proof {
            let e = EntryView { abs_path: abs_path@, size, raw_mode, head: head@ };
            assert(self.files() =~= entered(old(self).rules(), old(self).files(), e));
        }
        Some(rel)
    }

    /// The files found, by relative path.
    pub fn finish(self) -> (r: TextMap<TrackedFile>)
        ensures
            tracked_views(r@) == self.files(),
    {
        self.files
    }
}

/// Every file that a scan finds is one that the walk came upon, and the rules
/// let it be tracked: unless secrets are tracked on purpose, none of them looks
/// like a secret, and none lies in a directory that is never tracked, is
/// excluded by the configuration, is too large or is binary.
pub proof fn lemma_scan_obeys_rules(rules: RulesView, entries: Seq<EntryView>, p: Seq<char>)
    requires
        scanned(rules, entries).contains_key(p),
    ensures
        exists|i: int|
            0 <= i < entries.len() && found_as(rules, #[trigger] entries[i]) == Some(p)
                && scanned(rules, entries)[p].abs_path == entries[i].abs_path && entries[i].size
                <= rules.max_file_size && !sniffs_binary(entries[i].head),
        scanned(rules, entries)[p].rel_path == p,
        scanned(rules, entries)[p].size <= rules.max_file_size,
        !rules.track_secrets ==> !ignored_below(rules.root, rules.secrets, p, false),
        !ignored_below(rules.root, rules.default_dirs, p, false),
        !ignored_below(rules.root, rules.extra, p, false),
    decreases entries.len(),
{
    let last = entries.last();
    let before = entries.drop_last();
    if found_as(rules, last) == Some(p) {
        assert(entries[entries.len() - 1] == last);
    } else {
        lemma_scan_obeys_rules(rules, before, p);
        let i = choose|i: int|
            0 <= i < before.len() && found_as(rules, #[trigger] before[i]) == Some(p) && scanned(
                rules,
                before,
            )[p].abs_path == before[i].abs_path && before[i].size <= rules.max_file_size
                && !sniffs_binary(before[i].head);
        assert(entries[i] == before[i]);
    }
}

/// The scan is complete: a file below the root that is not larger than the limit,
/// that no pattern excludes, and that has no zero among its first 8192 bytes is
/// found, under its relative path.
pub proof fn lemma_scan_finds_text(
    rules: RulesView,
    entries: Seq<EntryView>,
    i: int,
    p: Seq<char>,
)
    requires
        0 <= i < entries.len(),
        paths::relative_to(rules.root, entries[i].abs_path) == Some(p),
        entries[i].size <= rules.max_file_size,
        !ignored_below(rules.root, rules.default_dirs, p, false),
        !ignored_below(rules.root, rules.extra, p, false),
        rules.track_secrets || !ignored_below(rules.root, rules.secrets, p, false),
        forall|k: int| 0 <= k < entries[i].head.len() && k < 8192 ==> entries[i].head[k] != 0,
    ensures
        scanned(rules, entries).contains_key(p),
    decreases entries.len(),
{
    if i < entries.len() - 1 {
        assert(entries.drop_last()[i] == entries[i]);
        lemma_scan_finds_text(rules, entries.drop_last(), i, p);
    }
}

/// The scan finds nothing else: whatever it finds lies below the root, is not
/// larger than the limit, has no zero among its first 8192 bytes, and is
/// recorded with the place, the size and the permission bits that the walk told.
pub proof fn lemma_scan_finds_only_text(rules: RulesView, entries: Seq<EntryView>, p: Seq<char>) -> (i:
    int)
    requires
        scanned(rules, entries).contains_key(p),
    ensures
        0 <= i < entries.len(),
        paths::relative_to(rules.root, entries[i].abs_path) == Some(p),
        entries[i].size <= rules.max_file_size,
        forall|k: int| 0 <= k < entries[i].head.len() && k < 8192 ==> entries[i].head[k] != 0,
        scanned(rules, entries)[p] == (TrackedView {
            rel_path: p,
            abs_path: entries[i].abs_path,
            size: entries[i].size,
            mode: entries[i].raw_mode & 0o777,
        }),
    decreases entries.len(),
{
    if found_as(rules, entries.last()) == Some(p) {
        entries.len() - 1
    } else {
        let i = lemma_scan_finds_only_text(rules, entries.drop_last(), p);
        assert(entries.drop_last()[i] == entries[i]);
        i
    }
}

/// What one pattern or limit excludes is not found, whatever the others say.
pub proof fn lemma_scan_leaves_out(
    rules: RulesView,
    entries: Seq<EntryView>,
    p: Seq<char>,
)
    requires
        ignored_below(rules.root, rules.default_dirs, p, false) || ignored_below(
            rules.root,
            rules.extra,
            p,
            false,
        ) || (!rules.track_secrets && ignored_below(rules.root, rules.secrets, p, false)),
    ensures
        !scanned(rules, entries).contains_key(p),
    decreases entries.len(),
{
    if entries.len() > 0 {
        lemma_scan_leaves_out(rules, entries.drop_last(), p);
    }
}

/// A path is classified by the first reason that holds of it, in this order: it
/// lies in a directory that is never tracked, looks like a secret, is excluded by
/// the configuration, is ignored by Git, or is too large.
pub proof fn lemma_reasons(rules: RulesView, rel: Seq<char>, is_dir: bool, size: Option<u64>)
    ensures
        ({
            let why = reason_for(rules, rel, is_dir, size);
            let dir = ignored_below(rules.root, rules.default_dirs, rel, is_dir);
            let secret = ignored_below(rules.root, rules.secrets, rel, is_dir);
            let extra = ignored_below(rules.root, rules.extra, rel, is_dir);
            let git = ignored_below(rules.root, rules.repo_gitignore, rel, is_dir);
            &&& why is Included <==> !dir && (rules.track_secrets || !secret) && !extra && !git
                && !(size matches Some(n) && n > rules.max_file_size)
            &&& why is DefaultDir <==> dir
            &&& why is Secret <==> !dir && secret && !rules.track_secrets
            &&& why is Extra <==> !dir && (rules.track_secrets || !secret) && extra
            &&& why is GitIgnored <==> !dir && (rules.track_secrets || !secret) && !extra && git
            &&& why is TooLarge <==> !dir && (rules.track_secrets || !secret) && !extra && !git && (
            size matches Some(n) && n > rules.max_file_size)
            &&& !(why is Binary)
        }),
{
}

proof fn lemma_usable_keeps(lines: Seq<Seq<char>>, i: int)
    requires
        0 <= i < lines.len(),
        line_fault(lines[i]) is None,
    ensures
        usable(lines).contains(lines[i]),
    decreases lines.len(),
{
    let front = lines.drop_last();
    if i == lines.len() - 1 {
        assert(usable(lines).last() == lines[i]);
    } else {
        lemma_usable_keeps(front, i);
        let k = choose|k: int| 0 <= k < usable(front).len() && usable(front)[k] == front[i];
        assert(usable(lines)[k] == lines[i]);
    }
}

/// The rules of a repository leave out the directories and the secrets that are
/// commonly not wanted, and what the configuration names, with its limit on the
/// size of a file. Every line of the repository's own ignore files that can be
/// used counts.
pub proof fn lemma_rules(
    root: Seq<char>,
    config: Config,
    gitignore: Seq<Seq<char>>,
    exclude: Seq<Seq<char>>,
    i: int,
)
    requires
        rules_for(root, config, gitignore, exclude) is Ok,
    ensures
        ({
            let rules = rules_for(root, config, gitignore, exclude)->Ok_0;
            &&& rules.root == root
            &&& rules.max_file_size == config.max_file_size
            &&& rules.track_secrets == config.track_secrets
            &&& rules.extra == text::texts(config.ignore@)
            &&& 1 <= i < gitignore.len() && line_fault(gitignore[i]) is None
                ==> rules.repo_gitignore.contains(gitignore[i])
            &&& 1 <= i < exclude.len() && line_fault(exclude[i]) is None
                ==> rules.repo_gitignore.contains(exclude[i])
        }),
{
    let rules = rules_for(root, config, gitignore, exclude)->Ok_0;
    let a = usable(without_mark(gitignore));
    let b = usable(without_mark(exclude));
    if 1 <= i < gitignore.len() && line_fault(gitignore[i]) is None {
        assert(without_mark(gitignore)[i] == gitignore[i]);
        lemma_usable_keeps(without_mark(gitignore), i);
        let k = choose|k: int| 0 <= k < a.len() && a[k] == gitignore[i];
        assert((a + b)[k] == gitignore[i]);
    }
    if 1 <= i < exclude.len() && line_fault(exclude[i]) is None {
        assert(without_mark(exclude)[i] == exclude[i]);
        lemma_usable_keeps(without_mark(exclude), i);
        let k = choose|k: int| 0 <= k < b.len() && b[k] == exclude[i];
        assert((a + b)[a.len() + k] == exclude[i]);
    }
}

/// Files that commonly hold secrets are among the rules, whatever the
/// configuration.
pub proof fn lemma_secrets_among_rules(
    root: Seq<char>,
    config: Config,
    gitignore: Seq<Seq<char>>,
    exclude: Seq<Seq<char>>,
)
    requires
        rules_for(root, config, gitignore, exclude) is Ok,
    ensures
        ({
            let secrets = rules_for(root, config, gitignore, exclude)->Ok_0.secrets;
            &&& secrets.len() == 19
            &&& secrets.contains(".env"@) && secrets.contains(".env.*"@)
            &&& secrets.contains("*.pem"@) && secrets.contains("*.key"@)
            &&& secrets.contains("*.keystore"@) && secrets.contains("*.der"@)
            &&& secrets.contains("*.p12"@) && secrets.contains("*.pfx"@)
            &&& secrets.contains("id_rsa"@) && secrets.contains("id_dsa"@)
            &&& secrets.contains("id_ecdsa"@) && secrets.contains("id_ed25519"@)
            &&& secrets.contains("*_rsa"@) && secrets.contains("credentials"@)
            &&& secrets.contains(".netrc"@) && secrets.contains(".pgpass"@)
            &&& secrets.contains(".htpasswd"@)
            &&& secrets.contains("secrets.yml"@) && secrets.contains("secrets.yaml"@)
        }),
{
    let s = rules_for(root, config, gitignore, exclude)->Ok_0.secrets;
    assert(s == config::secret_patterns());
    assert(s[0] == ".env"@ && s[1] == ".env.*"@ && s[2] == "*.pem"@ && s[3] == "*.key"@);
    assert(s[4] == "*.keystore"@ && s[5] == "*.p12"@ && s[6] == "*.pfx"@ && s[7] == "id_rsa"@);
    assert(s[8] == "id_dsa"@ && s[9] == "id_ecdsa"@ && s[10] == "id_ed25519"@);
    assert(s[11] == "*.der"@ && s[12] == "credentials"@ && s[13] == ".netrc"@);
    assert(s[14] == ".pgpass"@ && s[15] == ".htpasswd"@ && s[16] == "secrets.yml"@);
    assert(s[17] == "secrets.yaml"@ && s[18] == "*_rsa"@);
}

/// The internals of version control, dependencies, build outputs, environments
/// and caches are among the rules as directories, whatever the configuration.
pub proof fn lemma_directories_among_rules(
    root: Seq<char>,
    config: Config,
    gitignore: Seq<Seq<char>>,
    exclude: Seq<Seq<char>>,
)
    requires
        rules_for(root, config, gitignore, exclude) is Ok,
    ensures
        ({
            let dirs = rules_for(root, config, gitignore, exclude)->Ok_0.default_dirs;
            &&& dirs.len() == 34
            &&& dirs.contains(".git"@ + "/"@) && dirs.contains(".hg"@ + "/"@)
            &&& dirs.contains(".svn"@ + "/"@) && dirs.contains(".rewind"@ + "/"@)
            &&& dirs.contains(".rewind-report"@ + "/"@) && dirs.contains("node_modules"@ + "/"@)
            &&& dirs.contains("bower_components"@ + "/"@) && dirs.contains("vendor"@ + "/"@)
            &&& dirs.contains("target"@ + "/"@) && dirs.contains("dist"@ + "/"@)
            &&& dirs.contains("build"@ + "/"@) && dirs.contains("out"@ + "/"@)
            &&& dirs.contains(".next"@ + "/"@) && dirs.contains(".nuxt"@ + "/"@)
            &&& dirs.contains(".svelte-kit"@ + "/"@) && dirs.contains("__pycache__"@ + "/"@)
            &&& dirs.contains(".venv"@ + "/"@) && dirs.contains("venv"@ + "/"@)
            &&& dirs.contains("env"@ + "/"@) && dirs.contains(".env.d"@ + "/"@)
            &&& dirs.contains(".tox"@ + "/"@) && dirs.contains(".mypy_cache"@ + "/"@)
            &&& dirs.contains(".pytest_cache"@ + "/"@) && dirs.contains(".ruff_cache"@ + "/"@)
            &&& dirs.contains(".gradle"@ + "/"@) && dirs.contains(".idea"@ + "/"@)
            &&& dirs.contains(".vscode"@ + "/"@) && dirs.contains("coverage"@ + "/"@)
            &&& dirs.contains(".cache"@ + "/"@) && dirs.contains(".parcel-cache"@ + "/"@)
            &&& dirs.contains("DerivedData"@ + "/"@) && dirs.contains("Pods"@ + "/"@)
            &&& dirs.contains(".terraform"@ + "/"@) && dirs.contains("elm-stuff"@ + "/"@)
        }),
{
    let n = config::default_ignored_dirs();
    let d = rules_for(root, config, gitignore, exclude)->Ok_0.default_dirs;
    assert(d == dir_patterns(n));
    assert(n[0] == ".git"@ && n[1] == ".hg"@ && n[2] == ".svn"@ && n[3] == ".rewind"@);
    assert(n[4] == ".rewind-report"@ && n[5] == "node_modules"@ && n[6] == "bower_components"@);
    assert(n[7] == "vendor"@ && n[8] == "target"@ && n[9] == "dist"@ && n[10] == "build"@);
    assert(n[11] == "out"@ && n[12] == ".next"@ && n[13] == ".nuxt"@ && n[14] == ".svelte-kit"@);
    assert(n[15] == "__pycache__"@ && n[16] == ".venv"@ && n[17] == "venv"@ && n[18] == "env"@);
    assert(n[19] == ".env.d"@ && n[20] == ".tox"@ && n[21] == ".mypy_cache"@);
    assert(n[22] == ".pytest_cache"@ && n[23] == ".ruff_cache"@ && n[24] == ".gradle"@);
    assert(n[25] == ".idea"@ && n[26] == ".vscode"@ && n[27] == "coverage"@ && n[28] == ".cache"@);
    assert(n[29] == ".parcel-cache"@ && n[30] == "DerivedData"@ && n[31] == "Pods"@);
    assert(n[32] == ".terraform"@ && n[33] == "elm-stuff"@);
    assert forall|i: int| 0 <= i < n.len() implies d.contains(#[trigger] n[i] + "/"@) by {
        assert(d[i] == n[i] + "/"@);
    }
}

/// Patterns can be used together only if each of them can, and the first that
/// cannot is named.
pub proof fn lemma_faults(lines: Seq<Seq<char>>, i: int)
    ensures
        compiled(lines) is Ok ==> compiled(lines)->Ok_0 == lines,
        compiled(lines) is Ok && 0 <= i < lines.len() ==> line_fault(lines[i]) is None,
        0 <= i < lines.len() && line_fault(lines[i]) is Some && (forall|k: int|
            0 <= k < i ==> line_fault(#[trigger] lines[k]) is None) ==> first_fault(lines) == Some(
            ErrorView::Other(
                "invalid ignore pattern "@ + quoted(lines[i]) + ": "@ + line_fault(lines[i])->0,
            ),
        ),
        (forall|k: int| 0 <= k < lines.len() ==> line_fault(#[trigger] lines[k]) is None)
            ==> first_fault(lines) is None,
{
    if 0 <= i < lines.len() && line_fault(lines[i]) is Some {
        lemma_fault_found(lines, i);
        if forall|k: int| 0 <= k < i ==> line_fault(#[trigger] lines[k]) is None {
            lemma_first_fault(lines, i);
        }
    }
    if forall|k: int| 0 <= k < lines.len() ==> line_fault(#[trigger] lines[k]) is None {
        lemma_no_fault(lines);
    }
}

proof fn lemma_fault_found(lines: Seq<Seq<char>>, i: int)
    requires
        0 <= i < lines.len(),
        line_fault(lines[i]) is Some,
    ensures
        first_fault(lines) is Some,
    decreases lines.len(),
{
    if i < lines.len() - 1 {
        assert(lines.drop_last()[i] == lines[i]);
        lemma_fault_found(lines.drop_last(), i);
    }
}

proof fn lemma_no_fault(lines: Seq<Seq<char>>)
    requires
        forall|k: int| 0 <= k < lines.len() ==> line_fault(#[trigger] lines[k]) is None,
    ensures
        first_fault(lines) is None,
    decreases lines.len(),
{
    if lines.len() > 0 {
        let front = lines.drop_last();
        assert forall|k: int| 0 <= k < front.len() implies line_fault(
            #[trigger] front[k],
        ) is None by {
            assert(line_fault(lines[k]) is None);
        }
        lemma_no_fault(front);
        assert(line_fault(lines[lines.len() - 1]) is None);
    }
}

proof fn lemma_first_fault(lines: Seq<Seq<char>>, i: int)
    requires
        0 <= i < lines.len(),
        line_fault(lines[i]) is Some,
        forall|k: int| 0 <= k < i ==> line_fault(#[trigger] lines[k]) is None,
    ensures
        first_fault(lines) == Some(
            ErrorView::Other(
                "invalid ignore pattern "@ + quoted(lines[i]) + ": "@ + line_fault(lines[i])->0,
            ),
        ),
    decreases lines.len(),
{
    let front = lines.drop_last();
    if i < lines.len() - 1 {
        assert(front[i] == lines[i]);
        assert forall|k: int| 0 <= k < i implies line_fault(#[trigger] front[k]) is None by {
            assert(line_fault(lines[k]) is None);
        }
        lemma_first_fault(front, i);
    } else {
        assert forall|k: int| 0 <= k < front.len() implies line_fault(
            #[trigger] front[k],
        ) is None by {
            assert(line_fault(lines[k]) is None);
        }
        lemma_no_fault(front);
    }
}

/// Of the lines of an ignore file those that cannot be used are left out and the
/// others stay in order.
pub proof fn lemma_usable(a: Seq<Seq<char>>, b: Seq<Seq<char>>)
    ensures
        usable(a + b) == usable(a) + usable(b),
        a.len() == 0 ==> usable(a).len() == 0,
        a.len() == 1 && line_fault(a[0]) is None ==> usable(a) == a,
        a.len() == 1 && line_fault(a[0]) is Some ==> usable(a).len() == 0,
    decreases b.len(),
{
    if a.len() == 1 {
        assert(a.drop_last() =~= Seq::<Seq<char>>::empty());
        assert(usable(a.drop_last()) =~= Seq::<Seq<char>>::empty());
        assert(Seq::<Seq<char>>::empty().push(a[0]) =~= a);
    }
    if b.len() == 0 {
        assert(a + b =~= a);
        assert(usable(a) + usable(b) =~= usable(a));
    } else {
        assert((a + b).drop_last() =~= a + b.drop_last());
        assert((a + b).last() == b.last());
        lemma_usable(a, b.drop_last());
        assert(usable(a + b) =~= usable(a) + usable(b));
    }
}

/// A byte order mark at the beginning of an ignore file is no part of its first
/// line.
pub proof fn lemma_mark(line: Seq<char>, rest: Seq<Seq<char>>)
    requires
        line.len() == 0 || line[0] != '\u{feff}',
    ensures
        without_mark(seq![seq!['\u{feff}'] + line] + rest) == seq![line] + rest,
        without_mark(seq![line] + rest) == seq![line] + rest,
{
    reveal_strlit("\u{feff}");
    let class = CharClass::AnyOf("\u{feff}");
    let mark = seq!['\u{feff}'];
    assert("\u{feff}"@ =~= mark);
    assert(mark.contains('\u{feff}')) by {
        assert(mark[0] == '\u{feff}');
    }
    assert(text::all_in(mark, class));
    assert(line.len() > 0 ==> !class.has_char(line[0]));
    text::lemma_strip_front(mark, line, class);
    text::lemma_strip_front(Seq::<char>::empty(), line, class);
    assert(Seq::<char>::empty() + line =~= line);
    assert(without_mark(seq![mark + line] + rest) =~= seq![line] + rest);
    assert(without_mark(seq![line] + rest) =~= seq![line] + rest);
}

} // verus!
