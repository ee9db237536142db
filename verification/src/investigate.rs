//! Deterministic investigation of failing test runs.
//!
//! When a passing test run is followed by a failing one, the files that
//! changed in between are ranked by a relevance score. The score is no
//! probability, and what it ranks are likely causes, not diagnoses.
//!
//! | signal                                   | delta |
//! |------------------------------------------|-------|
//! | appears in a stack-trace line            |  +5   |
//! | dependency version changed               |  +4   |
//! | changed between pass and failure         |  +3   |
//! | path appears in failing output           |  +3   |
//! | changed immediately before the failure   |  +2   |
//! | generated or unrelated file              |  -3   |

use vstd::prelude::*;
use vstd::utf8::*;

use crate::diff;
use crate::diff::ChangeStatus;
use crate::diff::ChangeView;
use crate::diff::FileChange;
use crate::diff::StatusView;
use crate::error::ErrorView;
use crate::error::RewindError;
use crate::exec;
use crate::exec::DependencyChange;
use crate::exec::DependencyView;
use crate::models::SnapshotFile;
use crate::models::TestRun;
use crate::objects;
use crate::objects::Loaded;
use crate::snapshot;
use crate::text;
use crate::text::CharClass;
use crate::text_map;
use crate::text_map::TextMap;
use crate::text_map::TextSet;

pub mod laws;
pub mod weight;

verus! {

// ---------------------------------------------------------------------------
// Scoring
// ---------------------------------------------------------------------------

/// What is known of one changed file.
#[derive(Debug, Clone, Copy, PartialEq, Eq)]
pub struct CauseSignals {
    pub changed_between_pass_and_fail: bool,
    pub changed_before_failure: bool,
    pub in_stack_trace: bool,
    pub in_failing_output: bool,
    pub dependency_changed: bool,
    pub generated_or_unrelated: bool,
}

impl Default for CauseSignals {
    fn default() -> (r: CauseSignals)
        ensures
            r == (CauseSignals {
                changed_between_pass_and_fail: false,
                changed_before_failure: false,
                in_stack_trace: false,
                in_failing_output: false,
                dependency_changed: false,
                generated_or_unrelated: false,
            }),
    {
        CauseSignals {
            changed_between_pass_and_fail: false,
            changed_before_failure: false,
            in_stack_trace: false,
            in_failing_output: false,
            dependency_changed: false,
            generated_or_unrelated: false,
        }
    }
}

/// The weight of a signal if it is there, else nothing.
pub open spec fn worth(signal: bool, delta: i32) -> int {
    if signal {
        delta as int
    } else {
        0
    }
}

/// The sum of the weights of the signals that are there.
pub open spec fn score_of(s: CauseSignals) -> int {
    worth(s.in_stack_trace, weight::STACK_TRACE) + worth(s.dependency_changed, weight::DEPENDENCY)
        + worth(s.changed_between_pass_and_fail, weight::CHANGED_PASS_TO_FAIL) + worth(
        s.in_failing_output,
        weight::IN_OUTPUT,
    ) + worth(s.changed_before_failure, weight::CHANGED_BEFORE) + worth(
        s.generated_or_unrelated,
        weight::GENERATED,
    )
}

/// The relevance score of a file.
pub fn score(s: &CauseSignals) -> (r: i32)
    ensures
        r == score_of(*s),
{
    let mut total: i32 = 0;
    if s.in_stack_trace {
        total += weight::STACK_TRACE;
    }
    if s.dependency_changed {
        total += weight::DEPENDENCY;
    }
    if s.changed_between_pass_and_fail {
        total += weight::CHANGED_PASS_TO_FAIL;
    }
    if s.in_failing_output {
        total += weight::IN_OUTPUT;
    }
    if s.changed_before_failure {
        total += weight::CHANGED_BEFORE;
    }
    if s.generated_or_unrelated {
        total += weight::GENERATED;
    }
    total
}

/// The line that tells of a signal if it is there: what it says, and its weight.
pub open spec fn telling(signal: bool, what: Seq<char>, delta: i32) -> Seq<Seq<char>> {
    if signal {
        seq![what + text::dec_signed(delta as int) + ")"@]
    } else {
        Seq::empty()
    }
}

/// One line for each signal that is there.
pub open spec fn evidence_of(s: CauseSignals) -> Seq<Seq<char>> {
    telling(s.in_stack_trace, "appears in a stack-trace line (+"@, weight::STACK_TRACE) + telling(
        s.dependency_changed,
        "dependency version changed (+"@,
        weight::DEPENDENCY,
    ) + telling(
        s.changed_between_pass_and_fail,
        "changed between the last pass and the failure (+"@,
        weight::CHANGED_PASS_TO_FAIL,
    ) + telling(s.in_failing_output, "path appears in failing output (+"@, weight::IN_OUTPUT)
        + telling(
        s.changed_before_failure,
        "changed immediately before the failing run (+"@,
        weight::CHANGED_BEFORE,
    ) + telling(
        s.generated_or_unrelated,
        "looks generated or unrelated ("@,
        weight::GENERATED,
    )
}

fn tell(out: &mut Vec<String>, signal: bool, what: &str, delta: i32)
    ensures
        text::texts(final(out)@) == text::texts(old(out)@) + telling(signal, what@, delta),
{
    let ghost before = out@;
    if signal {
        let mut line = what.to_string();
        let n = text::show_signed(delta as i64);
        line.append(n.as_str());
        line.append(")");
        out.push(line);
        proof {
            assert(text::texts(out@) =~= text::texts(before) + telling(signal, what@, delta));
        }
    } else {
        proof {
            assert(text::texts(out@) =~= text::texts(before) + telling(signal, what@, delta));
        }
    }
}

/// One line for each signal that is there.
pub fn evidence(s: &CauseSignals) -> (r: Vec<String>)
    ensures
        text::texts(r@) == evidence_of(*s),
{
    let mut out: Vec<String> = Vec::new();
    tell(&mut out, s.in_stack_trace, "appears in a stack-trace line (+", weight::STACK_TRACE);
    proof {
        assert(text::texts(out@) =~= telling(
            s.in_stack_trace,
            "appears in a stack-trace line (+"@,
            weight::STACK_TRACE,
        ));
    }
    tell(&mut out, s.dependency_changed, "dependency version changed (+", weight::DEPENDENCY);
    tell(
        &mut out,
        s.changed_between_pass_and_fail,
        "changed between the last pass and the failure (+",
        weight::CHANGED_PASS_TO_FAIL,
    );
    tell(&mut out, s.in_failing_output, "path appears in failing output (+", weight::IN_OUTPUT);
    tell(
        &mut out,
        s.changed_before_failure,
        "changed immediately before the failing run (+",
        weight::CHANGED_BEFORE,
    );
    tell(
        &mut out,
        s.generated_or_unrelated,
        "looks generated or unrelated (",
        weight::GENERATED,
    );
    out
}

// ---------------------------------------------------------------------------
// Reading the output
// ---------------------------------------------------------------------------

/// What a reference to a line of a source file holds.
pub open spec fn source_markers() -> Seq<Seq<char>> {
    seq![
        ".rs:"@,
        ".py:"@,
        ".py\""@,
        ".js:"@,
        ".jsx:"@,
        ".ts:"@,
        ".tsx:"@,
        ".go:"@,
        ".rb:"@,
        ".java:"@,
        ".kt:"@,
        ".c:"@,
        ".cc:"@,
        ".cpp:"@,
        ".h:"@,
        ".ex:"@,
        ".exs:"@,
        ".php:"@,
        ".cs:"@,
        ".swift:"@,
    ]
}

/// A line that looks like a frame of a stack trace.
pub open spec fn is_frame(line: Seq<char>) -> bool {
    let l = text::strip_front(line, CharClass::WhiteSpace);
    ||| "at "@.is_prefix_of(l)
    ||| "File \""@.is_prefix_of(l)
    ||| "from "@.is_prefix_of(l)
    ||| text::occurs(l, "panicked at"@)
    ||| text::occurs(l, "Traceback"@)
    ||| text::occurs(l, "stack backtrace"@)
    ||| text::any_occurs(l, source_markers())
}

/// Whether a line looks like a frame of a stack trace.
pub fn is_stack_frame_line(line: &str) -> (r: bool)
    ensures
        r == is_frame(line@),
{
    let l = text::trim_front_of(line, &CharClass::WhiteSpace);
    if text::starts_with(l, "at ") || text::starts_with(l, "File \"") || text::starts_with(
        l,
        "from ",
    ) || text::contains(l, "panicked at") || text::contains(l, "Traceback") || text::contains(
        l,
        "stack backtrace",
    ) {
        return true;
    }
    let markers: [&str; 20] = [
        ".rs:",
        ".py:",
        ".py\"",
        ".js:",
        ".jsx:",
        ".ts:",
        ".tsx:",
        ".go:",
        ".rb:",
        ".java:",
        ".kt:",
        ".c:",
        ".cc:",
        ".cpp:",
        ".h:",
        ".ex:",
        ".exs:",
        ".php:",
        ".cs:",
        ".swift:",
    ];
    proof {
        assert(text::strs(markers@) =~= source_markers());
    }
    text::contains_any(l, &markers)
}

/// `t` names `path`: it holds the path, or its base name if that has at least
/// three bytes.
pub open spec fn mentions(t: Seq<char>, path: Seq<char>) -> bool {
    text::occurs(t, path) || (encode_utf8(text::base_name(path)).len() >= 3 && text::occurs(
        t,
        text::base_name(path),
    ))
}

/// Whether the output names a path, in full or by its base name.
pub fn output_mentions(output: &str, path: &str) -> (r: bool)
    ensures
        r == mentions(output@, path@),
{
    if text::contains(output, path) {
        return true;
    }
    let base = text::basename(path);
    base.as_bytes().len() >= 3 && text::contains(output, base)
}

/// Some line names `path` and looks like a frame of a stack trace.
pub open spec fn some_frame_mentions(lines: Seq<Seq<char>>, path: Seq<char>) -> bool {
    exists|i: int|
        0 <= i < lines.len() && is_frame(#[trigger] lines[i]) && mentions(lines[i], path)
}

/// Whether some line names `path` and looks like a frame of a stack trace.
pub fn in_stack_trace(lines: &Vec<String>, path: &str) -> (r: bool)
    ensures
        r == some_frame_mentions(text::texts(lines@), path@),
{
    let ghost all = text::texts(lines@);
    let mut i: usize = 0;
    while i < lines.len()
        invariant
            i <= lines@.len(),
            all == text::texts(lines@),
            forall|j: int| 0 <= j < i ==> !(is_frame(#[trigger] all[j]) && mentions(all[j], path@)),
        decreases lines@.len() - i,
    {
        let line = lines[i].as_str();
        proof {
            assert(all[i as int] == lines@[i as int]@);
        }
        if is_stack_frame_line(line) && output_mentions(line, path) {
            return true;
        }
        i += 1;
    }
    false
}

/// The first `max` lines that name `path`, without white space at their end.
pub open spec fn naming_lines(lines: Seq<Seq<char>>, path: Seq<char>, max: nat) -> Seq<Seq<char>>
    decreases lines.len(),
{
    if lines.len() == 0 {
        Seq::empty()
    } else {
        let before = naming_lines(lines.drop_last(), path, max);
        if before.len() < max && mentions(lines.last(), path) {
            before.push(text::strip_back(lines.last(), CharClass::WhiteSpace))
        } else {
            before
        }
    }
}

proof fn lemma_naming_lines_full(lines: Seq<Seq<char>>, path: Seq<char>, max: nat, n: int)
    requires
        0 <= n <= lines.len(),
        naming_lines(lines.take(n), path, max).len() >= max,
    ensures
        naming_lines(lines, path, max) == naming_lines(lines.take(n), path, max),
    decreases lines.len() - n,
{
    if n == lines.len() {
        assert(lines.take(n) =~= lines);
    } else {
        assert(lines.take(n + 1).drop_last() =~= lines.take(n));
        lemma_naming_lines_full(lines, path, max, n + 1);
    }
}

/// The first `max` lines that name `path`, without white space at their end.
pub fn relevant_output_lines(lines: &Vec<String>, path: &str, max: usize) -> (r: Vec<String>)
    ensures
        text::texts(r@) == naming_lines(text::texts(lines@), path@, max as nat),
{
    let ghost all = text::texts(lines@);
    let mut r: Vec<String> = Vec::new();
    let mut i: usize = 0;
    proof {
        assert(all.take(0) =~= Seq::<Seq<char>>::empty());
        assert(text::texts(r@) =~= Seq::<Seq<char>>::empty());
    }
    while i < lines.len()
        invariant
            i <= lines@.len(),
            all == text::texts(lines@),
            text::texts(r@) == naming_lines(all.take(i as int), path@, max as nat),
        decreases lines@.len() - i,
    {
        let line = lines[i].as_str();
        proof {
            assert(all[i as int] == lines@[i as int]@);
            assert(all.take(i + 1).drop_last() =~= all.take(i as int));
            assert(all.take(i + 1).last() == all[i as int]);
        }
        if r.len() >= max {
            proof {
                lemma_naming_lines_full(all, path@, max as nat, i as int);
            }
            return r;
        }
        if output_mentions(line, path) {
            let ghost before = r@;
            let kept = text::trim_back_of(line, &CharClass::WhiteSpace).to_string();
            r.push(kept);
            proof {
                assert(text::texts(r@) =~= text::texts(before).push(kept@));
            }
        }
        i += 1;
    }
    proof {
        assert(all.take(i as int) =~= all);
    }
    r
}

/// The last `max` lines, with line feeds between them.
pub open spec fn tail_of(lines: Seq<Seq<char>>, max: nat) -> Seq<char> {
    let from = if lines.len() > max {
        lines.len() - max
    } else {
        0
    };
    text::joined(lines.skip(from), "\n"@)
}

/// The last `max` lines, with line feeds between them.
pub fn tail_excerpt(lines: &Vec<String>, max: usize) -> (r: String)
    ensures
        r@ == tail_of(text::texts(lines@), max as nat),
{
    let n: usize = lines.len();
    let from: usize = if n > max {
        n - max
    } else {
        0
    };
    let mut tail: Vec<String> = Vec::new();
    let ghost all = text::texts(lines@);
    let mut i: usize = from;
    proof {
        assert(text::texts(tail@) =~= all.subrange(from as int, from as int));
    }
    while i < n
        invariant
            from <= i <= n,
            n == lines@.len(),
            all == text::texts(lines@),
            text::texts(tail@) == all.subrange(from as int, i as int),
        decreases n - i,
    {
        let ghost before = tail@;
        tail.push(lines[i].clone());
        proof {
            assert(text::texts(tail@) =~= text::texts(before).push(all[i as int]));
            assert(all.subrange(from as int, i + 1) =~= all.subrange(from as int, i as int).push(
                all[i as int],
            ));
        }
        i += 1;
    }
    proof {
        assert(all.subrange(from as int, n as int) =~= all.skip(from as int));
    }
    text::join(&tail, "\n")
}

// ---------------------------------------------------------------------------
// Generated files
// ---------------------------------------------------------------------------

/// What the path of a generated file may hold.
pub open spec fn generated_markers() -> Seq<Seq<char>> {
    seq![
        "/generated/"@,
        "generated/"@,
        ".generated."@,
        "/__generated__/"@,
        "/.gen/"@,
        "/gen/"@,
        "/snapshots/"@,
        "__snapshots__"@,
    ]
}

/// How the name of a generated file may end.
pub open spec fn generated_suffixes() -> Seq<Seq<char>> {
    seq![
        ".min.js"@,
        ".min.css"@,
        ".map"@,
        ".pb.go"@,
        "_pb2.py"@,
        ".g.dart"@,
        ".freezed.dart"@,
        ".d.ts"@,
    ]
}

/// A path that looks generated or unrelated, whatever the case of its letters.
pub open spec fn looks_generated(path: Seq<char>) -> bool {
    let p = text::lower(path);
    text::any_occurs(p, generated_markers()) || text::any_suffix(
        text::base_name(p),
        generated_suffixes(),
    )
}

/// Whether a path looks generated or unrelated.
pub fn is_generated_or_unrelated(path: &str) -> (r: bool)
    ensures
        r == looks_generated(path@),
{
    let p = text::to_lower(path);
    let base = text::basename(p.as_str());
    let markers: [&str; 8] = [
        "/generated/",
        "generated/",
        ".generated.",
        "/__generated__/",
        "/.gen/",
        "/gen/",
        "/snapshots/",
        "__snapshots__",
    ];
    let suffixes: [&str; 8] = [
        ".min.js",
        ".min.css",
        ".map",
        ".pb.go",
        "_pb2.py",
        ".g.dart",
        ".freezed.dart",
        ".d.ts",
    ];
    proof {
        assert(text::strs(markers@) =~= generated_markers());
        assert(text::strs(suffixes@) =~= generated_suffixes());
    }
    text::contains_any(p.as_str(), &markers) || text::ends_with_any(base, &suffixes)
}

// ---------------------------------------------------------------------------
// Dependency versions
// ---------------------------------------------------------------------------

/// A character of a dependency's name.
pub open spec fn is_ident_char(c: char) -> bool {
    ||| 'a' <= c && c <= 'z'
    ||| 'A' <= c && c <= 'Z'
    ||| '0' <= c && c <= '9'
    ||| c == '-'
    ||| c == '_'
    ||| c == '.'
    ||| c == '/'
    ||| c == '@'
}

/// The name of a dependency: letters, digits and a few marks, at least one.
pub open spec fn is_name(s: Seq<char>) -> bool {
    s.len() > 0 && forall|i: int| 0 <= i < s.len() ==> is_ident_char(#[trigger] s[i])
}

/// A version: a digit, after signs such as `^` or `>=`.
pub open spec fn is_version(v: Seq<char>) -> bool {
    let rest = text::strip_front(v, CharClass::AnyOf("^~><= "));
    rest.len() > 0 && '0' <= rest[0] && rest[0] <= '9'
}

/// `s` without the quotes at its ends.
pub open spec fn unquoted(s: Seq<char>) -> Seq<char> {
    text::strip_both(s, CharClass::AnyOf("\""))
}

/// The name and version in a line of the form `"name": "^1.2.3",`.
pub open spec fn colon_pair(line: Seq<char>) -> Option<(Seq<char>, Seq<char>)> {
    match text::split_at_first(text::strip_back(line, CharClass::AnyOf(",")), ":"@) {
        Some((a, b)) => {
            let k = unquoted(text::trimmed(a));
            let v = unquoted(text::trimmed(b));
            if is_name(k) && v.len() > 0 && is_version(v) {
                Some((k, v))
            } else {
                None
            }
        },
        None => None,
    }
}

/// The name and version in a line of the form `name = "1.2.3"`.
pub open spec fn equals_pair(line: Seq<char>) -> Option<(Seq<char>, Seq<char>)> {
    match text::split_at_first(line, "="@) {
        Some((a, b)) => {
            let k = text::trimmed(a);
            let v = text::strip_both(unquoted(text::trimmed(b)), CharClass::AnyOf("'"));
            if !"="@.is_prefix_of(b) && is_name(k) && v.len() > 0 && is_version(v) {
                Some((k, v))
            } else {
                None
            }
        },
        None => None,
    }
}

/// The name and version in a line of the form `name==1.2.3`.
pub open spec fn pinned_pair(line: Seq<char>) -> Option<(Seq<char>, Seq<char>)> {
    match text::split_at_first(line, "=="@) {
        Some((a, b)) => {
            let k = text::trimmed(a);
            let v = unquoted(text::trimmed(b));
            if is_name(k) && v.len() > 0 {
                Some((k, v))
            } else {
                None
            }
        },
        None => None,
    }
}

/// The name and version that a line of a manifest gives, if it does. Empty
/// lines and comments give none.
pub open spec fn line_version(raw: Seq<char>) -> Option<(Seq<char>, Seq<char>)> {
    let line = text::trimmed(raw);
    if line.len() == 0 || "#"@.is_prefix_of(line) || "//"@.is_prefix_of(line) {
        None
    } else if colon_pair(line) is Some {
        colon_pair(line)
    } else if equals_pair(line) is Some {
        equals_pair(line)
    } else {
        pinned_pair(line)
    }
}

/// The versions that the lines of a manifest give. The last line with a name
/// counts.
pub open spec fn versions_in(lines: Seq<Seq<char>>) -> Map<Seq<char>, Seq<char>>
    decreases lines.len(),
{
    if lines.len() == 0 {
        Map::empty()
    } else {
        let before = versions_in(lines.drop_last());
        match line_version(lines.last()) {
            Some((k, v)) => before.insert(k, v),
            None => before,
        }
    }
}

/// The views of the values of a map.
pub open spec fn value_texts(m: Map<Seq<char>, String>) -> Map<Seq<char>, Seq<char>> {
    m.map_values(|s: String| s@)
}

fn is_ident(s: &str) -> (r: bool)
    ensures
        r == is_name(s@),
{
    let cs = text::to_chars(s);
    if cs.len() == 0 {
        return false;
    }
    let mut i: usize = 0;
    while i < cs.len()
        invariant
            i <= cs@.len(),
            cs@ == s@,
            forall|j: int| 0 <= j < i ==> is_ident_char(#[trigger] s@[j]),
        decreases cs@.len() - i,
    {
        let c = cs[i];
        let ok: bool = ('a' <= c && c <= 'z') || ('A' <= c && c <= 'Z') || ('0' <= c && c <= '9')
            || c == '-' || c == '_' || c == '.' || c == '/' || c == '@';
        if !ok {
            proof {
                assert(!is_ident_char(s@[i as int]));
            }
            return false;
        }
        i += 1;
    }
    true
}

fn looks_like_version(v: &str) -> (r: bool)
    ensures
        r == is_version(v@),
{
    let rest = text::trim_front_of(v, &CharClass::AnyOf("^~><= "));
    let cs = text::to_chars(rest);
    cs.len() > 0 && '0' <= cs[0] && cs[0] <= '9'
}

fn unquote<'a>(s: &'a str) -> (r: &'a str)
    ensures
        r@ == unquoted(s@),
{
    text::trim_of(s, &CharClass::AnyOf("\""))
}

/// A pair as sequences of characters.
pub open spec fn pair_view(p: Option<(String, String)>) -> Option<(Seq<char>, Seq<char>)> {
    match p {
        Some((k, v)) => Some((k@, v@)),
        None => None,
    }
}

fn parse_json_pair(line: &str) -> (r: Option<(String, String)>)
    ensures
        pair_view(r) == colon_pair(line@),
{
    let line = text::trim_back_of(line, &CharClass::AnyOf(","));
    match text::split_once(line, ":") {
        None => None,
        Some((a, b)) => {
            let k = unquote(text::trim(a));
            let v = unquote(text::trim(b));
            if v.is_empty() || !looks_like_version(v) || !is_ident(k) {
                None
            } else {
                Some((k.to_string(), v.to_string()))
            }
        },
    }
}

fn parse_eq_pair(line: &str) -> (r: Option<(String, String)>)
    ensures
        pair_view(r) == equals_pair(line@),
{
    match text::split_once(line, "=") {
        None => None,
        Some((a, b)) => {
            if text::starts_with(b, "=") {
                return None;
            }
            let k = text::trim(a);
            let v = text::trim_of(unquote(text::trim(b)), &CharClass::AnyOf("'"));
            if !is_ident(k) || v.is_empty() || !looks_like_version(v) {
                None
            } else {
                Some((k.to_string(), v.to_string()))
            }
        },
    }
}

fn parse_pinned_pair(line: &str) -> (r: Option<(String, String)>)
    ensures
        pair_view(r) == pinned_pair(line@),
{
    match text::split_once(line, "==") {
        None => None,
        Some((a, b)) => {
            let k = text::trim(a);
            let v = unquote(text::trim(b));
            if !is_ident(k) || v.is_empty() {
                None
            } else {
                Some((k.to_string(), v.to_string()))
            }
        },
    }
}

fn parse_line(raw: &str) -> (r: Option<(String, String)>)
    ensures
        pair_view(r) == line_version(raw@),
{
    let line = text::trim(raw);
    if line.is_empty() || text::starts_with(line, "#") || text::starts_with(line, "//") {
        return None;
    }
    let colon = parse_json_pair(line);
    if colon.is_some() {
        return colon;
    }
    let equals = parse_eq_pair(line);
    if equals.is_some() {
        return equals;
    }
    parse_pinned_pair(line)
}

/// The versions that the text of a manifest gives, by name.
pub fn parse_versions(manifest: &str) -> (r: TextMap<String>)
    ensures
        value_texts(r@) == versions_in(text::lines_of(manifest@)),
{
    let lines = text::lines(manifest);
    let ghost all = text::texts(lines@);
    let mut map: TextMap<String> = TextMap::new();
    let mut i: usize = 0;
    proof {
        assert(all.take(0) =~= Seq::<Seq<char>>::empty());
        assert(value_texts(map@) =~= Map::<Seq<char>, Seq<char>>::empty());
    }
    while i < lines.len()
        invariant
            i <= lines@.len(),
            all == text::texts(lines@),
            value_texts(map@) == versions_in(all.take(i as int)),
        decreases lines@.len() - i,
    {
        let ghost before = map@;
        proof {
            assert(all.take(i + 1).drop_last() =~= all.take(i as int));
            assert(all.take(i + 1).last() == lines@[i as int]@);
        }
        if let Some((k, v)) = parse_line(lines[i].as_str()) {
            map.insert(k, v);
            proof {
                assert(value_texts(map@) =~= value_texts(before).insert(k@, v@));
            }
        }
        i += 1;
    }
    proof {
        assert(all.take(i as int) =~= all);
    }
    map
}

/// The value of a key, if it has one.
pub open spec fn value_of(m: Map<Seq<char>, Seq<char>>, k: Seq<char>) -> Option<Seq<char>> {
    if m.contains_key(k) {
        Some(m[k])
    } else {
        None
    }
}

/// The names of dependency changes.
pub open spec fn dependency_names(v: Seq<DependencyView>) -> Seq<Seq<char>> {
    Seq::new(v.len(), |i: int| v[i].name)
}

/// `out` are the names whose version differs between `old` and `new`, in name
/// order, each with both of its versions.
pub open spec fn is_version_diff(
    out: Seq<DependencyView>,
    file: Seq<char>,
    old: Map<Seq<char>, Seq<char>>,
    new: Map<Seq<char>, Seq<char>>,
) -> bool {
    &&& text_map::ordered(dependency_names(out))
    &&& forall|n: Seq<char>| #[trigger]
        dependency_names(out).contains(n) <==> value_of(old, n) != value_of(new, n)
    &&& forall|i: int|
        0 <= i < out.len() ==> (#[trigger] out[i]) == (DependencyView {
            file,
            name: out[i].name,
            old: value_of(old, out[i].name),
            new: value_of(new, out[i].name),
        })
}

fn version_of(m: &TextMap<String>, name: &str) -> (r: Option<String>)
    ensures
        text::opt_text(r) == value_of(value_texts(m@), name@),
{
    match m.get(name) {
        Some(v) => Some(v.clone()),
        None => None,
    }
}

fn add_names(set: &mut TextSet, m: &TextMap<String>)
    ensures
        final(set)@.dom() == old(set)@.dom().union(m@.dom()),
{
    let n: usize = m.len();
    let ghost keys = m.keys();
    let ghost start = set@.dom();
    let ghost mut seen: Set<Seq<char>> = Set::empty();
    let mut i: usize = 0;
    while i < n
        invariant
            i <= n,
            n == keys.len(),
            keys == m.keys(),
            set@.dom() == start.union(seen),
            forall|j: int| 0 <= j < i ==> seen.contains(#[trigger] keys[j]),
            forall|p: Seq<char>| #[trigger] seen.contains(p) ==> m@.contains_key(p),
        decreases n - i,
    {
        let key = m.key_at(i).clone();
        proof {
            seen = seen.insert(key@);
        }
        set.insert(key, ());
        proof {
            assert(set@.dom() =~= start.union(seen));
        }
        i += 1;
    }
    proof {
        assert forall|p: Seq<char>| seen.contains(p) == m@.dom().contains(p) by {
            if m@.contains_key(p) {
                let j = choose|j: int| 0 <= j < keys.len() && keys[j] == p;
                assert(seen.contains(keys[j]));
            }
        }
        assert(set@.dom() =~= start.union(m@.dom()));
    }
}

/// The names whose version differs, in name order.
pub fn version_diff(file: &str, old: &TextMap<String>, new: &TextMap<String>) -> (r: Vec<
    DependencyChange,
>)
    ensures
        is_version_diff(exec::dependency_views(r@), file@, value_texts(old@), value_texts(new@)),
{
    let mut set: TextSet = TextMap::new();
    add_names(&mut set, old);
    add_names(&mut set, new);
    let ghost ov = value_texts(old@);
    let ghost nv = value_texts(new@);
    let n: usize = set.len();
    let ghost keys = set.keys();
    let mut r: Vec<DependencyChange> = Vec::new();
    let ghost mut at: Seq<int> = Seq::empty();
    let mut i: usize = 0;
    while i < n
        invariant
            i <= n,
            n == keys.len(),
            keys == set.keys(),
            ov == value_texts(old@),
            nv == value_texts(new@),
            r@.len() == at.len(),
            forall|k: int|
                #![trigger at[k]]
                0 <= k < at.len() ==> {
                    &&& 0 <= at[k] < i
                    &&& r@[k]@ == (DependencyView {
                        file: file@,
                        name: keys[at[k]],
                        old: value_of(ov, keys[at[k]]),
                        new: value_of(nv, keys[at[k]]),
                    })
                    &&& value_of(ov, keys[at[k]]) != value_of(nv, keys[at[k]])
                },
            forall|x: int, y: int| 0 <= x < y < at.len() ==> #[trigger] at[x] < #[trigger] at[y],
            forall|j: int|
                0 <= j < i && value_of(ov, #[trigger] keys[j]) != value_of(nv, keys[j])
                    ==> at.contains(j),
        decreases n - i,
    {
        let name = set.key_at(i);
        let o = version_of(old, name.as_str());
        let nw = version_of(new, name.as_str());
        if !text::same_opt(&o, &nw) {
            r.push(
                DependencyChange { file: file.to_string(), name: name.clone(), old: o, new: nw },
            );
            proof {
                let before = at;
                at = at.push(i as int);
                assert forall|j: int|
                    0 <= j < i + 1 && value_of(ov, #[trigger] keys[j]) != value_of(
                        nv,
                        keys[j],
                    ) implies at.contains(j) by {
                    if j < i {
                        let k = choose|k: int| 0 <= k < before.len() && before[k] == j;
                        assert(at[k] == j);
                    } else {
                        assert(at[before.len() as int] == j);
                    }
                }
            }
        }
        i += 1;
    }
    proof {
        let out = exec::dependency_views(r@);
        let names = dependency_names(out);
        assert forall|k: int| 0 <= k < out.len() implies names[k] == keys[#[trigger] at[k]] by {
            assert(r@[k]@ == out[k]);
        }
        assert forall|x: int, y: int| 0 <= x < y < names.len() implies text::lt(
            #[trigger] names[x],
            #[trigger] names[y],
        ) by {
            assert(at[x] < at[y]);
            assert(text::lt(keys[at[x]], keys[at[y]]));
        }
        assert forall|m: Seq<char>| #[trigger] names.contains(m) <==> value_of(ov, m) != value_of(
            nv,
            m,
        ) by {
            if names.contains(m) {
                let k = choose|k: int| 0 <= k < names.len() && names[k] == m;
                assert(0 <= at[k] < i);
            }
            if value_of(ov, m) != value_of(nv, m) {
                assert(old@.contains_key(m) || new@.contains_key(m));
                assert(set@.dom().contains(m));
                assert(set@.contains_key(m));
                let j = choose|j: int| 0 <= j < keys.len() && keys[j] == m;
                assert(value_of(ov, keys[j]) != value_of(nv, keys[j]));
                let k = choose|k: int| 0 <= k < at.len() && at[k] == j;
                assert(names[k] == m);
            }
        }
        assert forall|k: int| 0 <= k < out.len() implies (#[trigger] out[k]) == (DependencyView {
            file: file@,
            name: out[k].name,
            old: value_of(ov, out[k].name),
            new: value_of(nv, out[k].name),
        }) by {
            assert(0 <= at[k] < i);
            assert(out[k] == r@[k]@);
        }
    }
    r
}

/// The text of a manifest: nothing unless it is there and UTF-8.
pub open spec fn manifest_text(objects: Map<Seq<char>, Vec<u8>>, hash: Option<Seq<char>>) -> Seq<char> {
    match hash {
        Some(h) => match objects::loaded_bytes(objects, h) {
            Some(b) => if valid_utf8(b) {
                decode_utf8(b)
            } else {
                Seq::empty()
            },
            None => Seq::empty(),
        },
        None => Seq::empty(),
    }
}

fn load_manifest(objects: &Loaded, hash: &Option<String>) -> (r: String)
    ensures
        r@ == manifest_text(objects@, text::opt_text(*hash)),
{
    if let Some(h) = hash {
        if let Some(bytes) = objects.get(h.as_str()) {
            if let Some(s) = text::utf8_text(vstd::slice::slice_to_vec(bytes.as_slice())) {
                return s;
            }
        }
    }
    let none = String::new();
    proof {
        assert(none@ =~= Seq::<char>::empty());
    }
    none
}

/// The versions a file of a change gives on its old and on its new side.
pub open spec fn versions_at(objects: Map<Seq<char>, Vec<u8>>, hash: Option<Seq<char>>) -> Map<
    Seq<char>,
    Seq<char>,
> {
    versions_in(text::lines_of(manifest_text(objects, hash)))
}

/// The dependency versions that a change of a manifest changes.
pub fn dependency_diff(objects: &Loaded, change: &FileChange) -> (r: Vec<DependencyChange>)
    ensures
        is_version_diff(
            exec::dependency_views(r@),
            change@.path,
            versions_at(objects@, change@.old_hash),
            versions_at(objects@, change@.new_hash),
        ),
{
    let old_text = load_manifest(objects, &change.old_hash);
    let new_text = load_manifest(objects, &change.new_hash);
    let old = parse_versions(old_text.as_str());
    let new = parse_versions(new_text.as_str());
    version_diff(change.path.as_str(), &old, &new)
}

/// There is only one list of version changes between two manifests.
pub proof fn lemma_version_diff_unique(
    a: Seq<DependencyView>,
    b: Seq<DependencyView>,
    file: Seq<char>,
    old: Map<Seq<char>, Seq<char>>,
    new: Map<Seq<char>, Seq<char>>,
)
    requires
        is_version_diff(a, file, old, new),
        is_version_diff(b, file, old, new),
    ensures
        a == b,
{
    let x = dependency_names(a);
    let y = dependency_names(b);
    assert forall|n: Seq<char>| x.contains(n) == y.contains(n) by {}
    text_map::lemma_ordered_unique(x, y);
    assert(a.len() == x.len() && b.len() == y.len());
    assert forall|i: int| 0 <= i < a.len() implies a[i] == b[i] by {
        assert(x[i] == y[i]);
        assert(a[i].name == b[i].name);
    }
    assert(a =~= b);
}

// ---------------------------------------------------------------------------
// Likely causes
// ---------------------------------------------------------------------------

/// A changed file with its relevance score and what speaks for it.
#[derive(Debug, PartialEq, Eq)]
pub struct LikelyCause {
    pub path: String,
    pub score: i32,
    pub status: ChangeStatus,
    pub evidence: Vec<String>,
    pub changed_lines: Vec<usize>,
    pub relevant_output: Vec<String>,
    pub dependency_changes: Vec<DependencyChange>,
}

/// A likely cause with its parts as sequences.
pub struct CauseView {
    pub path: Seq<char>,
    pub score: int,
    pub status: StatusView,
    pub evidence: Seq<Seq<char>>,
    pub changed_lines: Seq<int>,
    pub relevant_output: Seq<Seq<char>>,
    pub dependency_changes: Seq<DependencyView>,
}

impl View for LikelyCause {
    type V = CauseView;

    open spec fn view(&self) -> CauseView {
        CauseView {
            path: self.path@,
            score: self.score as int,
            status: self.status@,
            evidence: text::texts(self.evidence@),
            changed_lines: diff::as_ints(self.changed_lines@),
            relevant_output: text::texts(self.relevant_output@),
            dependency_changes: exec::dependency_views(self.dependency_changes@),
        }
    }
}

/// The views of a list of causes.
pub open spec fn cause_views(v: Seq<LikelyCause>) -> Seq<CauseView> {
    Seq::new(v.len(), |i: int| v[i]@)
}

/// The version changes that a change brings: those of a manifest, and none of
/// any other file.
pub open spec fn dependencies_of(objects: Map<Seq<char>, Vec<u8>>, change: ChangeView) -> Seq<
    DependencyView,
> {
    if exec::dependency_manifests().contains(text::base_name(change.path)) {
        choose|d: Seq<DependencyView>|
            is_version_diff(
                d,
                change.path,
                versions_at(objects, change.old_hash),
                versions_at(objects, change.new_hash),
            )
    } else {
        Seq::empty()
    }
}

/// What is known of a change, given the paths that had changed before the
/// failing run began, and the output of that run.
pub open spec fn signals_of(
    objects: Map<Seq<char>, Vec<u8>>,
    change: ChangeView,
    before: Set<Seq<char>>,
    output: Seq<char>,
) -> CauseSignals {
    CauseSignals {
        changed_between_pass_and_fail: true,
        changed_before_failure: before.contains(change.path),
        in_stack_trace: some_frame_mentions(text::lines_of(output), change.path),
        in_failing_output: mentions(output, change.path),
        dependency_changed: dependencies_of(objects, change).len() > 0,
        generated_or_unrelated: looks_generated(change.path),
    }
}

/// The likely cause that a change is.
pub open spec fn cause_of(
    objects: Map<Seq<char>, Vec<u8>>,
    change: ChangeView,
    before: Set<Seq<char>>,
    output: Seq<char>,
) -> CauseView {
    let signals = signals_of(objects, change, before, output);
    CauseView {
        path: change.path,
        score: score_of(signals),
        status: change.status,
        evidence: evidence_of(signals),
        changed_lines: if change.status is Deleted {
            Seq::empty()
        } else {
            diff::changed_lines_of(objects, change.old_hash, change.new_hash)
        },
        relevant_output: naming_lines(text::lines_of(output), change.path, 4),
        dependency_changes: dependencies_of(objects, change),
    }
}

/// The causes that the changes are, in their order.
pub open spec fn causes_of(
    objects: Map<Seq<char>, Vec<u8>>,
    changes: Seq<ChangeView>,
    before: Set<Seq<char>>,
    output: Seq<char>,
) -> Seq<CauseView> {
    Seq::new(changes.len(), |i: int| cause_of(objects, changes[i], before, output))
}

/// The version changes that a change brings.
pub fn dependencies(objects: &Loaded, change: &FileChange) -> (r: Vec<DependencyChange>)
    ensures
        exec::dependency_views(r@) == dependencies_of(objects@, change@),
        exec::dependency_manifests().contains(text::base_name(change@.path)) ==> is_version_diff(
            exec::dependency_views(r@),
            change@.path,
            versions_at(objects@, change@.old_hash),
            versions_at(objects@, change@.new_hash),
        ),
        !exec::dependency_manifests().contains(text::base_name(change@.path)) ==> r@.len() == 0,
{
    if exec::is_dependency_manifest(change.path.as_str()) {
        let r = dependency_diff(objects, change);
        proof {
            let old = versions_at(objects@, change@.old_hash);
            let new = versions_at(objects@, change@.new_hash);
            let d = choose|d: Seq<DependencyView>| is_version_diff(d, change@.path, old, new);
            assert(is_version_diff(exec::dependency_views(r@), change@.path, old, new));
            lemma_version_diff_unique(exec::dependency_views(r@), d, change@.path, old, new);
        }
        r
    } else {
        let r: Vec<DependencyChange> = Vec::new();
        proof {
            assert(exec::dependency_views(r@) =~= Seq::<DependencyView>::empty());
        }
        r
    }
}

fn likely_cause(
    objects: &Loaded,
    change: &FileChange,
    before: &TextSet,
    output: &str,
    lines: &Vec<String>,
) -> (r: LikelyCause)
    requires
        text::texts(lines@) == text::lines_of(output@),
    ensures
        r@ == cause_of(objects@, change@, before@.dom(), output@),
{
    let path = change.path.as_str();
    let dependency_changes = dependencies(objects, change);
    let signals = CauseSignals {
        changed_between_pass_and_fail: true,
        changed_before_failure: before.contains_key(path),
        in_stack_trace: in_stack_trace(lines, path),
        in_failing_output: output_mentions(output, path),
        dependency_changed: dependency_changes.len() > 0,
        generated_or_unrelated: is_generated_or_unrelated(path),
    };
    let changed_lines = match change.status {
        ChangeStatus::Deleted => Vec::new(),
        _ => diff::changed_new_lines(
            objects,
            diff::borrowed(&change.old_hash),
            diff::borrowed(&change.new_hash),
        ),
    };
    let r = LikelyCause {
        path: change.path.clone(),
        score: score(&signals),
        status: change.status.clone(),
        evidence: evidence(&signals),
        changed_lines,
        relevant_output: relevant_output_lines(lines, path, 4),
        dependency_changes,
    };
    proof {
        let s = signals_of(objects@, change@, before@.dom(), output@);
        assert(dependency_changes@.len() == dependencies_of(objects@, change@).len());
        assert(signals == s);
        if change@.status is Deleted {
            assert(diff::as_ints(changed_lines@) =~= Seq::<int>::empty());
        }
    }
    r
}

/// `a` is ranked above `b`: it has the higher score, or the same score and the
/// smaller path.
pub open spec fn outranks(a: CauseView, b: CauseView) -> bool {
    a.score > b.score || (a.score == b.score && text::lt(a.path, b.path))
}

/// `causes` are `all`, the highest rank first.
pub open spec fn is_ranking(causes: Seq<CauseView>, all: Seq<CauseView>) -> bool {
    &&& causes.to_multiset() == all.to_multiset()
    &&& forall|i: int, j: int|
        0 <= i < j < causes.len() ==> outranks(#[trigger] causes[i], #[trigger] causes[j])
}

proof fn lemma_insert_multiset<A>(s: Seq<A>, i: int, a: A)
    requires
        0 <= i <= s.len(),
    ensures
        s.insert(i, a).to_multiset() == s.to_multiset().insert(a),
{
    let t = s.insert(i, a);
    vstd::seq_lib::to_multiset_remove(t, i);
    assert(t.remove(i) =~= s);
    assert(t.contains(t[i]));
    t.to_multiset_ensures();
    assert(t.to_multiset().count(a) > 0);
    assert(t.to_multiset() =~= s.to_multiset().insert(a));
}

/// Enters `cause` at its rank, given that its path comes after all others.
fn enter_ranked(causes: &mut Vec<LikelyCause>, cause: LikelyCause)
    requires
        forall|i: int, j: int|
            0 <= i < j < old(causes)@.len() ==> outranks(
                #[trigger] cause_views(old(causes)@)[i],
                #[trigger] cause_views(old(causes)@)[j],
            ),
        forall|i: int|
            0 <= i < old(causes)@.len() ==> text::lt(
                (#[trigger] cause_views(old(causes)@)[i]).path,
                cause@.path,
            ),
    ensures
        cause_views(final(causes)@).to_multiset() == cause_views(old(causes)@).to_multiset().insert(
            cause@,
        ),
        forall|i: int, j: int|
            0 <= i < j < final(causes)@.len() ==> outranks(
                #[trigger] cause_views(final(causes)@)[i],
                #[trigger] cause_views(final(causes)@)[j],
            ),
{
    let n: usize = causes.len();
    let mut i: usize = 0;
    while i < n && causes[i].score >= cause.score
        invariant
            i <= n,
            n == causes@.len(),
            causes@ == old(causes)@,
            forall|k: int| 0 <= k < i ==> (#[trigger] causes@[k]).score >= cause.score,
        decreases n - i,
    {
        i += 1;
    }
    let ghost was = cause_views(causes@);
    let ghost entered = cause@;
    causes.insert(i, cause);
    proof {
        let now = cause_views(causes@);
        assert(now =~= was.insert(i as int, entered));
        lemma_insert_multiset(was, i as int, entered);
        assert forall|a: int, b: int| 0 <= a < b < now.len() implies outranks(
            #[trigger] now[a],
            #[trigger] now[b],
        ) by {
            if a < i && b == i {
                assert(now[a] == was[a]);
                assert(old(causes)@[a].score >= entered.score);
                assert(text::lt(was[a].path, entered.path));
            } else if a == i {
                assert(now[b] == was[b - 1]);
                assert(now[a] == entered);
                assert(was[i as int].score < entered.score);
                if b - 1 > i {
                    assert(outranks(was[i as int], was[b - 1]));
                }
            } else {
                let x = if a < i {
                    a
                } else {
                    a - 1
                };
                let y = if b < i {
                    b
                } else {
                    b - 1
                };
                assert(now[a] == was[x]);
                assert(now[b] == was[y]);
                assert(outranks(was[x], was[y]));
            }
        }
    }
}

/// A ranking is determined by what it ranks.
pub proof fn lemma_ranking_unique(a: Seq<CauseView>, b: Seq<CauseView>, all: Seq<CauseView>)
    requires
        is_ranking(a, all),
        is_ranking(b, all),
    ensures
        a == b,
{
    lemma_ordered_multiset_unique(a, b);
}

proof fn lemma_outranks_asymmetric(a: CauseView, b: CauseView)
    ensures
        !(outranks(a, b) && outranks(b, a)),
{
    if outranks(a, b) && outranks(b, a) {
        text::lemma_lt_transitive(a.path, b.path, a.path);
        text::lemma_lt_irreflexive(a.path);
    }
}

proof fn lemma_ordered_multiset_unique(a: Seq<CauseView>, b: Seq<CauseView>)
    requires
        a.to_multiset() == b.to_multiset(),
        forall|i: int, j: int|
            0 <= i < j < a.len() ==> outranks(#[trigger] a[i], #[trigger] a[j]),
        forall|i: int, j: int|
            0 <= i < j < b.len() ==> outranks(#[trigger] b[i], #[trigger] b[j]),
    ensures
        a == b,
    decreases a.len(),
{
    a.to_multiset_ensures();
    b.to_multiset_ensures();
    assert(a.len() == b.len());
    if a.len() == 0 {
        assert(a =~= b);
    } else {
        assert(a.contains(a[0]));
        assert(b.contains(b[0]));
        assert(b.to_multiset().count(a[0]) > 0);
        assert(a.to_multiset().count(b[0]) > 0);
        assert(b.contains(a[0]));
        assert(a.contains(b[0]));
        let j = choose|j: int| 0 <= j < b.len() && b[j] == a[0];
        let i = choose|i: int| 0 <= i < a.len() && a[i] == b[0];
        if j > 0 {
            assert(outranks(b[0], b[j]));
            lemma_outranks_asymmetric(a[0], b[0]);
            lemma_outranks_asymmetric(a[0], a[0]);
            if i > 0 {
                assert(outranks(a[0], a[i]));
            }
        }
        assert(a[0] == b[0]);
        let x = a.remove(0);
        let y = b.remove(0);
        assert(x.to_multiset() == a.to_multiset().remove(a[0]));
        assert(y.to_multiset() == b.to_multiset().remove(b[0]));
        assert forall|p: int, q: int| 0 <= p < q < x.len() implies outranks(
            #[trigger] x[p],
            #[trigger] x[q],
        ) by {
            assert(outranks(a[p + 1], a[q + 1]));
        }
        assert forall|p: int, q: int| 0 <= p < q < y.len() implies outranks(
            #[trigger] y[p],
            #[trigger] y[q],
        ) by {
            assert(outranks(b[p + 1], b[q + 1]));
        }
        lemma_ordered_multiset_unique(x, y);
        assert(a =~= seq![a[0]] + x);
        assert(b =~= seq![b[0]] + y);
    }
}

/// The first cause of a ranking has the highest score.
pub proof fn lemma_top_cause(causes: Seq<CauseView>, all: Seq<CauseView>, i: int)
    requires
        is_ranking(causes, all),
        0 <= i < all.len(),
    ensures
        causes.len() == all.len(),
        all[i].score <= causes[0].score,
{
    causes.to_multiset_ensures();
    all.to_multiset_ensures();
    assert(all.contains(all[i]));
    assert(causes.to_multiset().count(all[i]) > 0);
    assert(causes.contains(all[i]));
    let j = choose|j: int| 0 <= j < causes.len() && causes[j] == all[i];
    if j > 0 {
        assert(outranks(causes[0], causes[j]));
    }
}

/// The list of version changes that all the causes bring.
pub open spec fn all_dependencies(causes: Seq<CauseView>) -> Seq<DependencyView>
    decreases causes.len(),
{
    if causes.len() == 0 {
        Seq::empty()
    } else {
        all_dependencies(causes.drop_last()) + causes.last().dependency_changes
    }
}

fn append_dependencies(out: &mut Vec<DependencyChange>, more: &Vec<DependencyChange>)
    ensures
        exec::dependency_views(final(out)@) == exec::dependency_views(old(out)@)
            + exec::dependency_views(more@),
{
    let ghost start = exec::dependency_views(out@);
    let ghost all = exec::dependency_views(more@);
    let mut i: usize = 0;
    proof {
        assert(start =~= start + all.take(0));
    }
    while i < more.len()
        invariant
            i <= more@.len(),
            all == exec::dependency_views(more@),
            exec::dependency_views(out@) == start + all.take(i as int),
        decreases more@.len() - i,
    {
        let ghost before = out@;
        out.push(more[i].clone());
        proof {
            assert(exec::dependency_views(out@) =~= exec::dependency_views(before).push(
                all[i as int],
            ));
            assert(all.take(i + 1) =~= all.take(i as int).push(all[i as int]));
            assert(exec::dependency_views(out@) =~= start + all.take(i + 1));
        }
        i += 1;
    }
    proof {
        assert(all.take(i as int) =~= all);
    }
}

/// The causes that the changes are, ranked, and all the version changes they
/// bring.
pub fn rank_causes(
    objects: &Loaded,
    changes: &Vec<FileChange>,
    before: &TextSet,
    output: &str,
) -> (r: (Vec<LikelyCause>, Vec<DependencyChange>))
    requires
        text_map::ordered(diff::change_paths(diff::change_views(changes@))),
    ensures
        is_ranking(
            cause_views(r.0@),
            causes_of(objects@, diff::change_views(changes@), before@.dom(), output@),
        ),
        exec::dependency_views(r.1@) == all_dependencies(
            causes_of(objects@, diff::change_views(changes@), before@.dom(), output@),
        ),
{
    let lines = text::lines(output);
    let ghost views = diff::change_views(changes@);
    let ghost all = causes_of(objects@, views, before@.dom(), output@);
    let mut causes: Vec<LikelyCause> = Vec::new();
    let mut deps: Vec<DependencyChange> = Vec::new();
    let mut i: usize = 0;
    proof {
        assert(all.take(0) =~= Seq::<CauseView>::empty());
        assert(cause_views(causes@) =~= Seq::<CauseView>::empty());
        assert(exec::dependency_views(deps@) =~= Seq::<DependencyView>::empty());
    }
    while i < changes.len()
        invariant
            i <= changes@.len(),
            views == diff::change_views(changes@),
            all == causes_of(objects@, views, before@.dom(), output@),
            text_map::ordered(diff::change_paths(views)),
            text::texts(lines@) == text::lines_of(output@),
            cause_views(causes@).to_multiset() == all.take(i as int).to_multiset(),
            forall|a: int, b: int|
                0 <= a < b < causes@.len() ==> outranks(
                    #[trigger] cause_views(causes@)[a],
                    #[trigger] cause_views(causes@)[b],
                ),
            exec::dependency_views(deps@) == all_dependencies(all.take(i as int)),
        decreases changes@.len() - i,
    {
        let cause = likely_cause(objects, &changes[i], before, output, &lines);
        proof {
            let now = cause_views(causes@);
            let upto = all.take(i as int);
            assert(all[i as int] == cause@);
            assert forall|k: int| 0 <= k < causes@.len() implies text::lt(
                (#[trigger] now[k]).path,
                cause@.path,
            ) by {
                now.to_multiset_ensures();
                upto.to_multiset_ensures();
                assert(now.contains(now[k]));
                assert(now.to_multiset().count(now[k]) > 0);
                assert(upto.contains(now[k]));
                let j = choose|j: int| 0 <= j < upto.len() && upto[j] == now[k];
                assert(upto[j].path == diff::change_paths(views)[j]);
                assert(cause@.path == diff::change_paths(views)[i as int]);
                assert(text::lt(diff::change_paths(views)[j], diff::change_paths(views)[i as int]));
            }
            assert(all.take(i + 1).drop_last() =~= upto);
            assert(all.take(i + 1) =~= upto.push(cause@));
            vstd::seq_lib::to_multiset_build(upto, cause@);
        }
        append_dependencies(&mut deps, &cause.dependency_changes);
        enter_ranked(&mut causes, cause);
        i += 1;
    }
    proof {
        assert(all.take(i as int) =~= all);
    }
    (causes, deps)
}

// ---------------------------------------------------------------------------
// Investigations
// ---------------------------------------------------------------------------

/// The outcome of an investigation.
#[derive(Debug, PartialEq, Eq)]
pub struct Investigation {
    pub failing_test_run_id: i64,
    pub passing_test_run_id: Option<i64>,
    pub summary: String,
    pub causes: Vec<LikelyCause>,
    pub dependency_changes: Vec<DependencyChange>,
    pub failing_output_excerpt: String,
    pub related_command: Option<String>,
}

/// The sentence that sums an investigation up.
pub open spec fn summary_of(causes: Seq<CauseView>, total: nat) -> Seq<char> {
    if causes.len() == 0 {
        "No tracked file changes between the last passing and failing runs."@
    } else {
        text::dec(total) + " changed file(s); most relevant: "@ + causes[0].path + " (relevance "@
            + text::dec_signed(causes[0].score) + ")"@
    }
}

/// The sentence that sums an investigation up.
pub fn build_summary(causes: &Vec<LikelyCause>, total_changes: usize) -> (r: String)
    ensures
        r@ == summary_of(cause_views(causes@), total_changes as nat),
{
    if causes.len() == 0 {
        return "No tracked file changes between the last passing and failing runs.".to_string();
    }
    let mut r = text::show_dec(total_changes as u128);
    r.append(" changed file(s); most relevant: ");
    r.append(causes[0].path.as_str());
    r.append(" (relevance ");
    let n = text::show_signed(causes[0].score as i64);
    r.append(n.as_str());
    r.append(")");
    proof {
        assert(cause_views(causes@)[0] == causes@[0]@);
    }
    r
}

/// The snapshots that an investigation compares.
#[derive(Debug, Clone, Copy, PartialEq, Eq)]
pub struct Compared {
    /// The snapshot after the passing run.
    pub passing_post: i64,
    /// The snapshot after the failing run.
    pub failing_post: i64,
    /// The snapshot before the failing run, if there is one.
    pub failing_pre: Option<i64>,
}

/// What an investigation compares. There is none unless the run failed, an
/// earlier run passed, and both have a snapshot from after the run.
pub open spec fn compared(failing: TestRun, passing: Option<&TestRun>) -> Option<Compared> {
    match (failing.passed, passing, failing.post_snapshot_id) {
        (Some(false), Some(p), Some(failing_post)) => match p.post_snapshot_id {
            Some(passing_post) => Some(
                Compared { passing_post, failing_post, failing_pre: failing.pre_snapshot_id },
            ),
            None => None,
        },
        _ => None,
    }
}

/// What an investigation of `failing` compares, given the last passing run
/// before it.
pub fn comparison(failing: &TestRun, passing: Option<&TestRun>) -> (r: Option<Compared>)
    ensures
        r == compared(*failing, passing),
{
    match (failing.passed, passing, failing.post_snapshot_id) {
        (Some(false), Some(p), Some(failing_post)) => match p.post_snapshot_id {
            Some(passing_post) => Some(
                Compared { passing_post, failing_post, failing_pre: failing.pre_snapshot_id },
            ),
            None => None,
        },
        _ => None,
    }
}

/// The output of a run: the text of its log, and nothing if it has no log.
/// There is none if the log is missing.
pub open spec fn output_of(objects: Map<Seq<char>, Vec<u8>>, log: Option<Seq<char>>) -> Option<Seq<char>> {
    match log {
        None => Some(Seq::empty()),
        Some(h) => match objects::loaded_bytes(objects, h) {
            Some(b) => Some(text::lossy(b)),
            None => None,
        },
    }
}

fn load_output(objects: &Loaded, log: &Option<String>) -> (r: Result<String, RewindError>)
    ensures
        match (r, output_of(objects@, text::opt_text(*log))) {
            (Ok(s), Some(out)) => s@ == out,
            (Err(e), None) => *log matches Some(h) && e@ == ErrorView::ObjectMissing(h@),
            _ => false,
        },
{
    match log {
        None => {
            let s = String::new();
            proof {
                assert(s@ =~= Seq::<char>::empty());
            }
            Ok(s)
        },
        Some(h) => match objects.get(h.as_str()) {
            Some(bytes) => Ok(text::lossy_text(bytes.as_slice())),
            None => Err(RewindError::ObjectMissing(h.clone())),
        },
    }
}

/// `inv` is the investigation of `failing` against `passing`, where `changes`
/// lie between their snapshots and `before` had changed before the failing
/// run, which put out `output`.
pub open spec fn investigates(
    inv: Investigation,
    failing: TestRun,
    passing: TestRun,
    objects: Map<Seq<char>, Vec<u8>>,
    changes: Seq<ChangeView>,
    before: Set<Seq<char>>,
    output: Seq<char>,
) -> bool {
    let all = causes_of(objects, changes, before, output);
    &&& inv.failing_test_run_id == failing.id
    &&& inv.passing_test_run_id == Some(passing.id)
    &&& is_ranking(cause_views(inv.causes@), all)
    &&& inv.summary@ == summary_of(cause_views(inv.causes@), changes.len())
    &&& exec::dependency_views(inv.dependency_changes@) == all_dependencies(all)
    &&& inv.failing_output_excerpt@ == tail_of(text::lines_of(output), 60)
    &&& text::opt_text(inv.related_command) == Some(failing.command@)
}

/// The paths that differ between two lists of stored files.
pub open spec fn paths_between(old: Seq<SnapshotFile>, new: Seq<SnapshotFile>) -> Set<Seq<char>> {
    Set::new(
        |p: Seq<char>|
            diff::change_of(
                snapshot::by_path(snapshot::file_views(old)),
                snapshot::by_path(snapshot::file_views(new)),
                p,
            ) is Some,
    )
}

fn changed_paths(old: &Vec<SnapshotFile>, new: &Vec<SnapshotFile>) -> (r: TextSet)
    ensures
        r@.dom() == paths_between(old@, new@),
{
    let changes = diff::diff_snapshots(old, new);
    let ghost views = diff::change_views(changes@);
    let ghost a = snapshot::by_path(snapshot::file_views(old@));
    let ghost b = snapshot::by_path(snapshot::file_views(new@));
    let mut set: TextSet = TextMap::new();
    let mut i: usize = 0;
    while i < changes.len()
        invariant
            i <= changes@.len(),
            views == diff::change_views(changes@),
            diff::is_diff(views, a, b),
            forall|p: Seq<char>| #[trigger] set@.dom().contains(p) ==> diff::change_of(a, b, p) is Some,
            forall|j: int| 0 <= j < i ==> set@.dom().contains((#[trigger] views[j]).path),
        decreases changes@.len() - i,
    {
        proof {
            assert(views[i as int].path == changes@[i as int].path@);
        }
        set.insert(changes[i].path.clone(), ());
        i += 1;
    }
    proof {
        assert forall|p: Seq<char>| set@.dom().contains(p) == paths_between(old@, new@).contains(
            p,
        ) by {
            if diff::change_of(a, b, p) is Some {
                let j = choose|j: int|
                    0 <= j < diff::change_paths(views).len() && diff::change_paths(views)[j] == p;
                assert(set@.dom().contains(views[j].path));
            }
        }
        assert(set@.dom() =~= paths_between(old@, new@));
    }
    set
}

fn no_paths() -> (r: TextSet)
    ensures
        r@.dom() == Set::<Seq<char>>::empty(),
{
    let r: TextSet = TextMap::new();
    proof {
        assert(r@.dom() =~= Set::<Seq<char>>::empty());
    }
    r
}

/// The paths that had changed between the passing run and the start of the
/// failing one, if there is a snapshot from then.
pub open spec fn changed_before(
    failing: TestRun,
    passing_post: Seq<SnapshotFile>,
    failing_pre: Seq<SnapshotFile>,
) -> Set<Seq<char>> {
    if failing.pre_snapshot_id is Some {
        paths_between(passing_post, failing_pre)
    } else {
        Set::empty()
    }
}

/// The hashes that an investigation reads: the log, and both sides of each
/// change.
pub open spec fn reads_object(changes: Seq<ChangeView>, log: Option<Seq<char>>, h: Seq<char>) -> bool {
    log == Some(h) || exists|i: int|
        0 <= i < changes.len() && ((#[trigger] changes[i]).old_hash == Some(h)
            || changes[i].new_hash == Some(h))
}

/// The hashes of the objects to have at hand for an investigation.
pub fn objects_needed(changes: &Vec<FileChange>, log: &Option<String>) -> (r: TextSet)
    ensures
        forall|h: Seq<char>| #[trigger]
            r@.dom().contains(h) <==> reads_object(
                diff::change_views(changes@),
                text::opt_text(*log),
                h,
            ),
{
    let ghost views = diff::change_views(changes@);
    let ghost lv = text::opt_text(*log);
    let mut set: TextSet = TextMap::new();
    if let Some(h) = log {
        set.insert(h.clone(), ());
    }
    let mut i: usize = 0;
    proof {
        assert(views.take(0) =~= Seq::<ChangeView>::empty());
    }
    while i < changes.len()
        invariant
            i <= changes@.len(),
            views == diff::change_views(changes@),
            forall|h: Seq<char>| #[trigger]
                set@.dom().contains(h) <==> reads_object(views.take(i as int), lv, h),
        decreases changes@.len() - i,
    {
        let ghost start = set@.dom();
        let change = &changes[i];
        if let Some(h) = &change.old_hash {
            set.insert(h.clone(), ());
        }
        if let Some(h) = &change.new_hash {
            set.insert(h.clone(), ());
        }
        proof {
            let a = views.take(i as int);
            let b = views.take(i + 1);
            let c = change@;
            assert(b[i as int] == c);
            assert forall|h: Seq<char>| #[trigger] set@.dom().contains(h) <==> reads_object(b, lv, h) by {
                assert(set@.dom().contains(h) <==> start.contains(h) || c.old_hash == Some(h)
                    || c.new_hash == Some(h));
                if reads_object(a, lv, h) && lv != Some(h) {
                    let j = choose|j: int|
                        0 <= j < a.len() && ((#[trigger] a[j]).old_hash == Some(h) || a[j].new_hash
                            == Some(h));
                    assert(b[j] == a[j]);
                }
                if reads_object(b, lv, h) && lv != Some(h) {
                    let j = choose|j: int|
                        0 <= j < b.len() && ((#[trigger] b[j]).old_hash == Some(h) || b[j].new_hash
                            == Some(h));
                    if j < i {
                        assert(a[j] == b[j]);
                    }
                }
            }
        }
        i += 1;
    }
    proof {
        assert(views.take(i as int) =~= views);
    }
    set
}

/// Investigates a failing run against the last passing run before it, given
/// the files of the snapshots that [`comparison`] names and the objects that
/// [`objects_needed`] names. There is no investigation if there is nothing to
/// compare, and it fails if the log of the failing run is missing.
pub fn investigate(
    failing: &TestRun,
    passing: Option<&TestRun>,
    passing_post: &Vec<SnapshotFile>,
    failing_post: &Vec<SnapshotFile>,
    failing_pre: &Vec<SnapshotFile>,
    objects: &Loaded,
) -> (r: Result<Option<Investigation>, RewindError>)
    ensures
        match compared(*failing, passing) {
            None => r matches Ok(None),
            Some(_) => match output_of(objects@, text::opt_text(failing.log_object)) {
                None => r matches Err(e) && e@ == ErrorView::ObjectMissing(failing.log_object->0@),
                Some(output) => r matches Ok(Some(inv)) && exists|changes: Seq<ChangeView>|
                    {
                        &&& #[trigger] diff::is_diff(
                            changes,
                            snapshot::by_path(snapshot::file_views(passing_post@)),
                            snapshot::by_path(snapshot::file_views(failing_post@)),
                        )
                        &&& investigates(
                            inv,
                            *failing,
                            *passing->0,
                            objects@,
                            changes,
                            changed_before(*failing, passing_post@, failing_pre@),
                            output,
                        )
                    },
            },
        },
{
    if comparison(failing, passing).is_none() {
        return Ok(None);
    }
    let passing = match passing {
        Some(p) => p,
        None => return Ok(None),
    };
    let changes = diff::diff_snapshots(passing_post, failing_post);
    let before = match failing.pre_snapshot_id {
        Some(_) => changed_paths(passing_post, failing_pre),
        None => no_paths(),
    };
    let output = match load_output(objects, &failing.log_object) {
        Ok(s) => s,
        Err(e) => return Err(e),
    };
    let (causes, dependency_changes) = rank_causes(objects, &changes, &before, output.as_str());
    let summary = build_summary(&causes, changes.len());
    let lines = text::lines(output.as_str());
    let inv = Investigation {
        failing_test_run_id: failing.id,
        passing_test_run_id: Some(passing.id),
        summary,
        causes,
        dependency_changes,
        failing_output_excerpt: tail_excerpt(&lines, 60),
        related_command: Some(failing.command.clone()),
    };
    proof {
        let views = diff::change_views(changes@);
        assert(investigates(
            inv,
            *failing,
            *passing,
            objects@,
            views,
            changed_before(*failing, passing_post@, failing_pre@),
            output@,
        ));
    }
    Ok(Some(inv))
}

} // verus!
