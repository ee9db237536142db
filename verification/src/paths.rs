//! Paths as text, and where the data of a repository is kept.
//!
//! Paths are `/`-separated. The data of a repository never lies inside it, but
//! under the data directory of the user, in a directory named by a hash of the
//! repository's canonical path:
//!
//! ```text
//! <app-data>/rewind/<repository-hash>/
//!   rewind.db
//!   objects/
//!   logs/
//! ```

use vstd::prelude::*;
use vstd::utf8::*;

use crate::error::ErrorView;
use crate::error::RewindError;
use crate::objects;
use crate::text;

pub mod laws;

verus! {

// ---------------------------------------------------------------------------
// Joining
// ---------------------------------------------------------------------------

/// `rel` below `base`: an absolute `rel` stands for itself, else one `/`
/// separates the two.
pub open spec fn joined(base: Seq<char>, rel: Seq<char>) -> Seq<char> {
    if rel.len() > 0 && rel[0] == '/' {
        rel
    } else if base.len() > 0 && base.last() != '/' {
        base + seq!['/'] + rel
    } else {
        base + rel
    }
}

/// `rel` below `base`.
pub fn join(base: &str, rel: &str) -> (r: String)
    ensures
        r@ == joined(base@, rel@),
{
    let b = text::to_chars(base);
    let n = text::to_chars(rel);
    if n.len() > 0 && n[0] == '/' {
        return rel.to_string();
    }
    let mut r = base.to_string();
    if b.len() > 0 && b[b.len() - 1] != '/' {
        r.push('/');
        proof {
            assert(base@.push('/') =~= base@ + seq!['/']);
        }
    }
    r.append(rel);
    r
}

// ---------------------------------------------------------------------------
// Components
// ---------------------------------------------------------------------------

/// One component of a path.
#[derive(Debug, PartialEq, Eq)]
pub enum PathPart {
    /// The `/` at the start of an absolute path.
    Root,
    /// A `.` at the start of a relative path.
    Current,
    /// A `..`.
    Parent,
    /// A name.
    Normal(String),
}

/// A component with its name as a sequence of characters.
pub enum PartView {
    Root,
    Current,
    Parent,
    Normal(Seq<char>),
}

impl View for PathPart {
    type V = PartView;

    open spec fn view(&self) -> PartView {
        match self {
            PathPart::Root => PartView::Root,
            PathPart::Current => PartView::Current,
            PathPart::Parent => PartView::Parent,
            PathPart::Normal(s) => PartView::Normal(s@),
        }
    }
}

/// The views of a list of components.
pub open spec fn part_views(parts: Seq<PathPart>) -> Seq<PartView> {
    Seq::new(parts.len(), |i: int| parts[i]@)
}

/// The components that the pieces between the slashes stand for. Empty pieces
/// and `.` stand for none.
pub open spec fn kept_parts(pieces: Seq<Seq<char>>) -> Seq<PartView>
    decreases pieces.len(),
{
    if pieces.len() == 0 {
        Seq::empty()
    } else {
        let before = kept_parts(pieces.drop_last());
        let last = pieces.last();
        if last.len() == 0 || last == seq!['.'] {
            before
        } else if last == seq!['.', '.'] {
            before.push(PartView::Parent)
        } else {
            before.push(PartView::Normal(last))
        }
    }
}

/// The component that the start of a path adds: its root, or the `.` with
/// which a relative path begins.
pub open spec fn start_parts(path: Seq<char>) -> Seq<PartView> {
    if path.len() > 0 && path[0] == '/' {
        seq![PartView::Root]
    } else if text::pieces_of(path, '/')[0] == seq!['.'] {
        seq![PartView::Current]
    } else {
        Seq::empty()
    }
}

/// The components of a path.
pub open spec fn parts_of(path: Seq<char>) -> Seq<PartView> {
    start_parts(path) + kept_parts(text::pieces_of(path, '/'))
}

fn is_dots(s: &String, n: usize) -> (r: bool)
    requires
        n == 1 || n == 2,
    ensures
        r == (s@ == if n == 1 { seq!['.'] } else { seq!['.', '.'] }),
{
    let cs = text::to_chars(s.as_str());
    if cs.len() != n {
        return false;
    }
    let r: bool = cs[0] == '.' && cs[n - 1] == '.';
    proof {
        if r {
            assert(s@ =~= if n == 1 { seq!['.'] } else { seq!['.', '.'] });
        }
    }
    r
}

/// The components of `path`.
pub fn parts(path: &str) -> (r: Vec<PathPart>)
    ensures
        part_views(r@) == parts_of(path@),
{
    let cs = text::to_chars(path);
    let pieces = text::split_char(path, '/');
    let mut r: Vec<PathPart> = Vec::new();
    if cs.len() > 0 && cs[0] == '/' {
        r.push(PathPart::Root);
    } else {
        proof {
            assert(text::texts(pieces@)[0] == pieces@[0]@);
        }
        if is_dots(&pieces[0], 1) {
            r.push(PathPart::Current);
        }
    }
    let mut i: usize = 0;
    let ghost all = text::texts(pieces@);
    proof {
        assert(part_views(r@) =~= start_parts(path@));
        assert(all.take(0) =~= Seq::<Seq<char>>::empty());
        assert(part_views(r@) =~= start_parts(path@) + kept_parts(all.take(0)));
    }
    while i < pieces.len()
        invariant
            i <= pieces@.len(),
            all == text::texts(pieces@),
            part_views(r@) == start_parts(path@) + kept_parts(all.take(i as int)),
        decreases pieces@.len() - i,
    {
        let ghost before = r@;
        let ghost start = start_parts(path@);
        proof {
            assert(all.take(i + 1).drop_last() =~= all.take(i as int));
            assert(all.take(i + 1).last() == pieces@[i as int]@);
        }
        let piece = &pieces[i];
        if piece.as_str().is_empty() || is_dots(piece, 1) {
        } else if is_dots(piece, 2) {
            r.push(PathPart::Parent);
            proof {
                assert(part_views(r@) =~= part_views(before).push(PartView::Parent));
                assert(part_views(r@) =~= start + kept_parts(all.take(i + 1)));
            }
        } else {
            r.push(PathPart::Normal(piece.clone()));
            proof {
                assert(part_views(r@) =~= part_views(before).push(PartView::Normal(piece@)));
                assert(part_views(r@) =~= start + kept_parts(all.take(i + 1)));
            }
        }
        i += 1;
    }
    proof {
        assert(all.take(i as int) =~= all);
    }
    r
}

/// The text of a component.
pub open spec fn part_text(part: PartView) -> Seq<char> {
    match part {
        PartView::Root => seq!['/'],
        PartView::Current => seq!['.'],
        PartView::Parent => seq!['.', '.'],
        PartView::Normal(s) => s,
    }
}

/// The texts of components.
pub open spec fn part_texts(parts: Seq<PartView>) -> Seq<Seq<char>> {
    Seq::new(parts.len(), |i: int| part_text(parts[i]))
}

fn same_part(a: &PathPart, b: &PathPart) -> (r: bool)
    ensures
        r == (a@ == b@),
{
    match (a, b) {
        (PathPart::Root, PathPart::Root) => true,
        (PathPart::Current, PathPart::Current) => true,
        (PathPart::Parent, PathPart::Parent) => true,
        (PathPart::Normal(x), PathPart::Normal(y)) => text::same(x.as_str(), y.as_str()),
        _ => false,
    }
}

fn show_part(p: &PathPart) -> (r: String)
    ensures
        r@ == part_text(p@),
{
    let mut r = String::new();
    match p {
        PathPart::Root => {
            r.push('/');
        },
        PathPart::Current => {
            r.push('.');
        },
        PathPart::Parent => {
            r.push('.');
            r.push('.');
        },
        PathPart::Normal(s) => {
            r.append(s.as_str());
        },
    }
    proof {
        assert(r@ =~= part_text(p@));
    }
    r
}

/// `path` relative to `root`: its components after those of `root`, with `/`
/// between them. There is none if `path` does not lie below `root`.
pub open spec fn relative_to(root: Seq<char>, path: Seq<char>) -> Option<Seq<char>> {
    let above = parts_of(root);
    let all = parts_of(path);
    if above.is_prefix_of(all) && text::joined(
        part_texts(all.skip(above.len() as int)),
        seq!['/'],
    ).len() > 0 {
        Some(text::joined(part_texts(all.skip(above.len() as int)), seq!['/']))
    } else {
        None
    }
}

/// `path` relative to `root`, or `None` if it does not lie below it.
pub fn rel_string(root: &str, path: &str) -> (r: Option<String>)
    ensures
        text::opt_text(r) == relative_to(root@, path@),
{
    let above = parts(root);
    let all = parts(path);
    let ghost av = part_views(above@);
    let ghost pv = part_views(all@);
    if above.len() > all.len() {
        return None;
    }
    let mut i: usize = 0;
    while i < above.len()
        invariant
            i <= above@.len() <= all@.len(),
            av == part_views(above@),
            pv == part_views(all@),
            av == parts_of(root@),
            pv == parts_of(path@),
            forall|j: int| 0 <= j < i ==> av[j] == pv[j],
        decreases above@.len() - i,
    {
        if !same_part(&above[i], &all[i]) {
            proof {
                assert(av[i as int] != pv[i as int]);
                if av.is_prefix_of(pv) {
                    assert(av[i as int] == pv.subrange(0, av.len() as int)[i as int]);
                }
            }
            return None;
        }
        proof {
            assert(av[i as int] == pv[i as int]);
        }
        i += 1;
    }
    proof {
        assert(av.is_prefix_of(pv)) by {
            assert(av =~= pv.subrange(0, av.len() as int));
        }
    }
    let s = show_parts(&all, above.len(), all.len());
    proof {
        assert(pv.subrange(av.len() as int, pv.len() as int) =~= pv.skip(av.len() as int));
    }
    if s.as_str().is_empty() {
        None
    } else {
        Some(s)
    }
}

/// The text of a path with the given components.
pub open spec fn rendered(parts: Seq<PartView>) -> Seq<char> {
    if parts.len() > 0 && parts[0] == PartView::Root {
        seq!['/'] + text::joined(part_texts(parts.skip(1)), seq!['/'])
    } else {
        text::joined(part_texts(parts), seq!['/'])
    }
}

/// The path above `path`: its components without the last. The root and the
/// empty path have none above them.
pub open spec fn above(path: Seq<char>) -> Option<Seq<char>> {
    let parts = parts_of(path);
    if parts.len() == 0 || parts.last() == PartView::Root {
        None
    } else {
        Some(rendered(parts.drop_last()))
    }
}

fn show_parts(parts: &Vec<PathPart>, from: usize, to: usize) -> (r: String)
    requires
        from <= to <= parts@.len(),
    ensures
        r@ == text::joined(part_texts(part_views(parts@).subrange(from as int, to as int)), seq!['/']),
{
    let mut names: Vec<String> = Vec::new();
    let ghost want = part_texts(part_views(parts@).subrange(from as int, to as int));
    let mut k: usize = from;
    while k < to
        invariant
            from <= k <= to <= parts@.len(),
            want == part_texts(part_views(parts@).subrange(from as int, to as int)),
            text::texts(names@) == want.take(k - from),
        decreases to - k,
    {
        let ghost before = names@;
        names.push(show_part(&parts[k]));
        proof {
            let j = k - from;
            assert(want[j] == part_text(parts@[k as int]@));
            assert(want.take(j + 1) =~= want.take(j).push(want[j]));
            assert(text::texts(names@) =~= text::texts(before).push(want[j]));
        }
        k += 1;
    }
    let mut sep = String::new();
    sep.push('/');
    proof {
        assert(sep@ =~= seq!['/']);
        assert(want.take(k - from) =~= want);
    }
    text::join(&names, sep.as_str())
}

/// The path above `path`, if there is one.
pub fn parent(path: &str) -> (r: Option<String>)
    ensures
        text::opt_text(r) == above(path@),
{
    let all = parts(path);
    let ghost pv = part_views(all@);
    let n: usize = all.len();
    if n == 0 {
        return None;
    }
    proof {
        assert(pv.last() == all@[n - 1]@);
        assert(pv.drop_last()[0] == all@[0]@ || n == 1);
    }
    if let PathPart::Root = all[n - 1] {
        return None;
    }
    let rooted: bool = n > 1 && (match all[0] {
        PathPart::Root => true,
        _ => false,
    });
    if rooted {
        let rest = show_parts(&all, 1, n - 1);
        let mut r = String::new();
        r.push('/');
        r.append(rest.as_str());
        proof {
            assert(pv.subrange(1, n - 1) =~= pv.drop_last().skip(1));
            assert(r@ =~= seq!['/'] + rest@);
        }
        Some(r)
    } else {
        let r = show_parts(&all, 0, n - 1);
        proof {
            assert(pv.subrange(0, n - 1) =~= pv.drop_last());
        }
        Some(r)
    }
}

// ---------------------------------------------------------------------------
// Joining and components
// ---------------------------------------------------------------------------

proof fn lemma_index_before(a: Seq<char>, b: Seq<char>, sep: char)
    ensures
        text::index_of_char(a, sep) < a.len() ==> text::index_of_char(a + b, sep)
            == text::index_of_char(a, sep),
        0 <= text::index_of_char(a, sep) <= a.len(),
        text::index_of_char(a, sep) == a.len() && b.len() > 0 && b[0] == sep ==> text::index_of_char(
            a + b,
            sep,
        ) == a.len(),
    decreases a.len(),
{
    if a.len() == 0 {
        assert(a + b =~= b);
    } else if a[0] != sep {
        lemma_index_before(a.drop_first(), b, sep);
        assert((a + b).drop_first() =~= a.drop_first() + b);
    }
}

/// The pieces of two texts with the separator between them are the pieces of
/// the one and the pieces of the other.
proof fn lemma_pieces_concat(a: Seq<char>, b: Seq<char>, sep: char)
    ensures
        text::pieces_of(a + seq![sep] + b, sep) == text::pieces_of(a, sep) + text::pieces_of(b, sep),
    decreases a.len(),
{
    let rest = seq![sep] + b;
    let all = a + seq![sep] + b;
    assert(all =~= a + rest);
    lemma_index_before(a, rest, sep);
    let i = text::index_of_char(a, sep);
    if i < a.len() {
        let tail = a.skip(i + 1);
        assert(all.skip(i + 1) =~= tail + seq![sep] + b);
        assert(all.take(i) =~= a.take(i));
        lemma_pieces_concat(tail, b, sep);
        assert(text::pieces_of(all, sep) =~= text::pieces_of(a, sep) + text::pieces_of(b, sep));
    } else {
        assert(all.take(i) =~= a);
        assert(all.skip(i + 1) =~= b);
        assert(text::pieces_of(all, sep) =~= seq![a] + text::pieces_of(b, sep));
    }
}

proof fn lemma_kept_concat(a: Seq<Seq<char>>, b: Seq<Seq<char>>)
    ensures
        kept_parts(a + b) == kept_parts(a) + kept_parts(b),
    decreases b.len(),
{
    if b.len() == 0 {
        assert(a + b =~= a);
        assert(kept_parts(a) + kept_parts(b) =~= kept_parts(a));
    } else {
        assert((a + b).drop_last() =~= a + b.drop_last());
        lemma_kept_concat(a, b.drop_last());
        assert(kept_parts(a + b) =~= kept_parts(a) + kept_parts(b));
    }
}

proof fn lemma_pieces_nonempty(s: Seq<char>, sep: char)
    ensures
        text::pieces_of(s, sep).len() > 0,
{
}

/// The components of a relative path below a root are those of the root and
/// then those of the path, if that begins neither with a slash nor with a `.`.
pub proof fn lemma_joined_parts(root: Seq<char>, rel: Seq<char>)
    requires
        start_parts(rel) == Seq::<PartView>::empty(),
    ensures
        parts_of(joined(root, rel)) == parts_of(root) + parts_of(rel),
{
    reveal_with_fuel(kept_parts, 2);
    let at = joined(root, rel);
    lemma_pieces_nonempty(root, '/');
    lemma_pieces_nonempty(rel, '/');
    if rel.len() > 0 && rel[0] == '/' {
        assert(start_parts(rel).len() == 1);
    }
    if text::pieces_of(rel, '/')[0] == seq!['.'] {
        assert(start_parts(rel).len() == 1);
    }
    if root.len() == 0 {
        assert(at =~= rel);
        assert(root =~= Seq::<char>::empty());
        assert(text::pieces_of(root, '/') =~= seq![root]);
        assert(seq![root].drop_last() =~= Seq::<Seq<char>>::empty());
        assert(kept_parts(seq![root]) =~= Seq::<PartView>::empty());
        assert(root.len() != seq!['.'].len());
        assert(start_parts(root) =~= Seq::<PartView>::empty());
        assert(parts_of(root) + parts_of(rel) =~= parts_of(rel));
    } else {
        let body = if root.last() != '/' {
            root
        } else {
            root.drop_last()
        };
        assert(at =~= body + seq!['/'] + rel);
        lemma_pieces_concat(body, rel, '/');
        lemma_kept_concat(text::pieces_of(body, '/'), text::pieces_of(rel, '/'));
        if root.last() == '/' {
            let none = Seq::<char>::empty();
            assert(root =~= body + seq!['/'] + none);
            lemma_pieces_concat(body, none, '/');
            assert(text::pieces_of(none, '/') =~= seq![none]);
            lemma_kept_concat(text::pieces_of(body, '/'), seq![none]);
            assert(seq![none].drop_last() =~= Seq::<Seq<char>>::empty());
            assert(kept_parts(seq![none]) =~= Seq::<PartView>::empty());
            assert(kept_parts(text::pieces_of(root, '/')) =~= kept_parts(
                text::pieces_of(body, '/'),
            ));
        }
        assert(kept_parts(text::pieces_of(at, '/')) == kept_parts(text::pieces_of(root, '/'))
            + kept_parts(text::pieces_of(rel, '/')));
        lemma_pieces_nonempty(body, '/');
        assert(text::pieces_of(at, '/')[0] == text::pieces_of(body, '/')[0]);
        if root.last() == '/' {
            assert(text::pieces_of(root, '/')[0] == text::pieces_of(body, '/')[0]);
        }
        assert(at[0] == root[0]);
        assert(start_parts(at) == start_parts(root));
        assert(parts_of(at) =~= parts_of(root) + parts_of(rel));
    }
}

/// A component that can stand after the start of a path: `..`, or a name that is
/// not empty, is neither `.` nor `..`, and holds no slash.
pub open spec fn is_proper(part: PartView) -> bool {
    match part {
        PartView::Parent => true,
        PartView::Normal(s) => s.len() > 0 && s != seq!['.'] && s != seq!['.', '.'] && !s.contains(
            '/',
        ),
        _ => false,
    }
}

proof fn lemma_pieces_whole(s: Seq<char>, sep: char, i: int)
    requires
        0 <= i < text::pieces_of(s, sep).len(),
    ensures
        !text::pieces_of(s, sep)[i].contains(sep),
    decreases s.len(),
{
    let k = text::index_of_char(s, sep);
    text::lemma_index_of_char(s, sep);
    if k < s.len() {
        let rest = text::pieces_of(s.skip(k + 1), sep);
        if i == 0 {
            assert(text::pieces_of(s, sep)[0] == s.take(k));
        } else {
            assert(text::pieces_of(s, sep)[i] == rest[i - 1]);
            lemma_pieces_whole(s.skip(k + 1), sep, i - 1);
        }
    }
}

proof fn lemma_kept_proper(pieces: Seq<Seq<char>>, k: int)
    requires
        forall|i: int| 0 <= i < pieces.len() ==> !(#[trigger] pieces[i]).contains('/'),
        0 <= k < kept_parts(pieces).len(),
    ensures
        is_proper(kept_parts(pieces)[k]),
    decreases pieces.len(),
{
    let front = pieces.drop_last();
    if k < kept_parts(front).len() {
        assert forall|i: int| 0 <= i < front.len() implies !(#[trigger] front[i]).contains('/') by {
            assert(front[i] == pieces[i]);
        }
        lemma_kept_proper(front, k);
    } else {
        assert(!pieces[pieces.len() - 1].contains('/'));
    }
}

/// Every component of a path after its start is proper.
pub(crate) proof fn lemma_part_is_proper(path: Seq<char>, k: int)
    requires
        start_parts(path).len() <= k < parts_of(path).len(),
    ensures
        is_proper(parts_of(path)[k]),
{
    let n = start_parts(path).len();
    let pieces = text::pieces_of(path, '/');
    assert forall|i: int| 0 <= i < pieces.len() implies !(#[trigger] pieces[i]).contains('/') by {
        lemma_pieces_whole(path, '/', i);
    }
    assert(kept_parts(pieces)[k - n] == parts_of(path)[k]);
    lemma_kept_proper(pieces, k - n);
}

proof fn lemma_pieces_of_joined(texts: Seq<Seq<char>>)
    requires
        texts.len() > 0,
        forall|i: int| 0 <= i < texts.len() ==> !(#[trigger] texts[i]).contains('/'),
    ensures
        text::pieces_of(text::joined(texts, seq!['/']), '/') == texts,
    decreases texts.len(),
{
    let last = texts.last();
    assert(!texts[texts.len() - 1].contains('/'));
    text::lemma_index_of_char(last, '/');
    assert(text::pieces_of(last, '/') =~= seq![last]);
    if texts.len() == 1 {
        assert(texts =~= seq![last]);
    } else {
        let front = texts.drop_last();
        assert forall|i: int| 0 <= i < front.len() implies !(#[trigger] front[i]).contains('/') by {
            assert(front[i] == texts[i]);
        }
        lemma_pieces_of_joined(front);
        lemma_pieces_concat(text::joined(front, seq!['/']), last, '/');
        assert(front + seq![last] =~= texts);
    }
}

proof fn lemma_texts_kept(parts: Seq<PartView>)
    requires
        forall|i: int| 0 <= i < parts.len() ==> is_proper(#[trigger] parts[i]),
    ensures
        kept_parts(part_texts(parts)) == parts,
    decreases parts.len(),
{
    let texts = part_texts(parts);
    if parts.len() > 0 {
        let front = parts.drop_last();
        assert forall|i: int| 0 <= i < front.len() implies is_proper(#[trigger] front[i]) by {
            assert(front[i] == parts[i]);
        }
        lemma_texts_kept(front);
        assert(texts.drop_last() =~= part_texts(front));
        assert(is_proper(parts[parts.len() - 1]));
        assert(texts.last() == part_text(parts.last()));
        assert(kept_parts(texts) =~= front.push(parts.last()));
        assert(parts =~= front.push(parts.last()));
    } else {
        assert(texts =~= Seq::<Seq<char>>::empty());
        assert(parts =~= kept_parts(texts));
    }
}

/// Proper components with slashes between them are the components of the text.
proof fn lemma_joined_proper(parts: Seq<PartView>)
    requires
        forall|i: int| 0 <= i < parts.len() ==> is_proper(#[trigger] parts[i]),
    ensures
        start_parts(text::joined(part_texts(parts), seq!['/'])) == Seq::<PartView>::empty(),
        kept_parts(text::pieces_of(text::joined(part_texts(parts), seq!['/']), '/')) == parts,
{
    reveal_with_fuel(kept_parts, 2);
    let texts = part_texts(parts);
    let s = text::joined(texts, seq!['/']);
    if parts.len() == 0 {
        assert(s =~= Seq::<char>::empty());
        let pieces = text::pieces_of(s, '/');
        assert(pieces =~= seq![s]);
        assert(pieces.drop_last() =~= Seq::<Seq<char>>::empty());
        assert(kept_parts(pieces) =~= parts);
        assert(pieces[0].len() != seq!['.'].len());
    } else {
        assert forall|i: int| 0 <= i < texts.len() implies !(#[trigger] texts[i]).contains('/') by {
            assert(is_proper(parts[i]));
        }
        lemma_pieces_of_joined(texts);
        lemma_texts_kept(parts);
        assert(is_proper(parts[0]));
        assert(texts[0].len() > 0);
        if parts[0] is Parent {
            assert(texts[0].len() == 2);
        }
        if s.len() > 0 && s[0] == '/' {
            assert(text::pieces_of(s, '/')[0] == s.take(0));
        }
    }
    assert(start_parts(s) =~= Seq::<PartView>::empty());
}

/// A text that is a proper component alone has that component.
pub(crate) proof fn lemma_one_part(name: Seq<char>)
    requires
        is_proper(PartView::Normal(name)),
    ensures
        parts_of(name) == seq![PartView::Normal(name)],
{
    let parts = seq![PartView::Normal(name)];
    lemma_joined_proper(parts);
    assert(text::joined(part_texts(parts), seq!['/']) == name);
    assert(parts_of(name) =~= parts);
}

/// A relative path that is not empty has a component.
pub(crate) proof fn lemma_some_part(path: Seq<char>)
    requires
        path.len() > 0,
    ensures
        parts_of(path).len() > 0,
{
    let pieces = text::pieces_of(path, '/');
    lemma_pieces_nonempty(path, '/');
    if start_parts(path).len() == 0 {
        text::lemma_index_of_char(path, '/');
        let first = seq![pieces[0]];
        assert(pieces =~= first + pieces.skip(1));
        lemma_kept_concat(first, pieces.skip(1));
        reveal_with_fuel(kept_parts, 2);
        assert(first.drop_last() =~= Seq::<Seq<char>>::empty());
        assert(pieces[0].len() > 0);
        assert(kept_parts(first).len() == 1);
    }
}

/// The text of the first components of a path has just those components.
pub(crate) proof fn lemma_rendered_parts(path: Seq<char>, n: int)
    requires
        0 <= n <= parts_of(path).len(),
    ensures
        parts_of(rendered(parts_of(path).take(n))) == parts_of(path).take(n),
{
    let parts = parts_of(path).take(n);
    let m = start_parts(path).len() as int;
    if n == 0 {
        lemma_joined_proper(parts);
        assert(parts_of(rendered(parts)) =~= parts);
    } else {
        let rest = parts.skip(m);
        assert forall|i: int| 0 <= i < rest.len() implies is_proper(#[trigger] rest[i]) by {
            lemma_part_is_proper(path, m + i);
        }
        if m == 0 {
            assert(rest =~= parts);
            assert(is_proper(rest[0]));
            lemma_joined_proper(parts);
            assert(parts_of(rendered(parts)) =~= parts);
        } else if start_parts(path)[0] == PartView::Root {
            assert(seq![PartView::Root] + rest =~= parts);
            lemma_rooted(rest);
        } else {
            assert(seq![PartView::Current] + rest =~= parts);
            lemma_dotted(rest);
        }
    }
}

proof fn lemma_rooted(rest: Seq<PartView>)
    requires
        forall|i: int| 0 <= i < rest.len() ==> is_proper(#[trigger] rest[i]),
    ensures
        parts_of(rendered(seq![PartView::Root] + rest)) == seq![PartView::Root] + rest,
{
    let parts = seq![PartView::Root] + rest;
    let tail = text::joined(part_texts(rest), seq!['/']);
    let s = seq!['/'] + tail;
    let none = Seq::<char>::empty();
    assert(parts.skip(1) =~= rest);
    assert(rendered(parts) == s);
    lemma_joined_proper(rest);
    assert(s =~= none + seq!['/'] + tail);
    lemma_pieces_concat(none, tail, '/');
    assert(text::pieces_of(none, '/') =~= seq![none]);
    lemma_kept_concat(seq![none], text::pieces_of(tail, '/'));
    assert(seq![none].drop_last() =~= Seq::<Seq<char>>::empty());
    assert(kept_parts(seq![none]) =~= Seq::<PartView>::empty()) by {
        reveal_with_fuel(kept_parts, 2);
    }
    assert(parts_of(s) =~= parts);
}

proof fn lemma_dotted(rest: Seq<PartView>)
    requires
        forall|i: int| 0 <= i < rest.len() ==> is_proper(#[trigger] rest[i]),
    ensures
        parts_of(rendered(seq![PartView::Current] + rest)) == seq![PartView::Current] + rest,
{
    let parts = seq![PartView::Current] + rest;
    let texts = part_texts(parts);
    let s = text::joined(texts, seq!['/']);
    assert(rendered(parts) == s);
    assert forall|i: int| 0 <= i < texts.len() implies !(#[trigger] texts[i]).contains('/') by {
        if i > 0 {
            assert(is_proper(rest[i - 1]));
            assert(parts[i] == rest[i - 1]);
        }
    }
    lemma_pieces_of_joined(texts);
    lemma_texts_kept(rest);
    let dot = seq![seq!['.']];
    assert(texts =~= dot + part_texts(rest));
    lemma_kept_concat(dot, part_texts(rest));
    assert(dot.drop_last() =~= Seq::<Seq<char>>::empty());
    assert(kept_parts(dot) =~= Seq::<PartView>::empty()) by {
        reveal_with_fuel(kept_parts, 2);
    }
    if s.len() > 0 && s[0] == '/' {
        assert(text::pieces_of(s, '/')[0] == s.take(0));
        assert(texts[0].len() == 1);
    }
    assert(text::pieces_of(s, '/')[0] == seq!['.']);
    assert(parts_of(s) =~= parts);
}

/// Below its root a path goes through names alone.
pub open spec fn is_plain_below(root: Seq<char>, path: Seq<char>) -> bool {
    forall|k: int|
        parts_of(root).len() <= k < parts_of(path).len() ==> (#[trigger] parts_of(path)[k]) is Normal
}

/// The components of a relative path are those that the path has below the root,
/// if they are names.
pub proof fn lemma_relative_parts(root: Seq<char>, path: Seq<char>)
    requires
        relative_to(root, path) is Some,
        is_plain_below(root, path),
    ensures
        parts_of(relative_to(root, path)->0) == parts_of(path).skip(parts_of(root).len() as int),
{
    let n = parts_of(root).len() as int;
    let below = parts_of(path).skip(n);
    assert forall|i: int| 0 <= i < below.len() implies is_proper(#[trigger] below[i]) by {
        assert(parts_of(path)[n + i] is Normal);
        if n + i < start_parts(path).len() {
            assert(start_parts(path)[n + i] == parts_of(path)[n + i]);
        }
        lemma_part_is_proper(path, n + i);
    }
    lemma_joined_proper(below);
    assert(parts_of(relative_to(root, path)->0) =~= below);
}

// ---------------------------------------------------------------------------
// Storage
// ---------------------------------------------------------------------------

/// Environment variable that overrides the base data directory.
pub const DATA_DIR_ENV: &'static str = "REWIND_DATA_DIR";

/// How many bytes a character takes in UTF-8.
pub open spec fn width(c: char) -> nat {
    if c as u32 <= 0x7F {
        1
    } else if c as u32 <= 0x7FF {
        2
    } else if c as u32 <= 0xFFFF {
        3
    } else {
        4
    }
}

/// The first two bytes of `hash` are whole characters.
pub open spec fn can_shard(hash: Seq<char>) -> bool {
    hash.len() == 0 || width(hash[0]) == 2 || (width(hash[0]) == 1 && (hash.len() == 1 || width(
        hash[1],
    ) == 1))
}

/// How many characters the first two bytes of `hash` are.
pub open spec fn shard_len(hash: Seq<char>) -> int {
    if hash.len() == 0 {
        0
    } else if hash.len() == 1 || width(hash[0]) == 2 {
        1
    } else {
        2
    }
}

/// Where the object `hash` lies below `objects`: in a directory named by the
/// first two bytes of the hash, under the rest of it.
pub open spec fn object_location(objects: Seq<char>, hash: Seq<char>) -> Seq<char> {
    joined(joined(objects, hash.take(shard_len(hash))), hash.skip(shard_len(hash)))
}

/// Whether the first two bytes of `hash` are whole characters.
pub fn is_shardable(hash: &str) -> (r: bool)
    ensures
        r == can_shard(hash@),
{
    let cs = text::to_chars(hash);
    if cs.len() == 0 {
        return true;
    }
    let a: u32 = cs[0] as u32;
    if a > 0x7F {
        return a <= 0x7FF;
    }
    cs.len() == 1 || cs[1] as u32 <= 0x7F
}

/// Where the object `hash` lies below `objects`.
pub fn sharded(objects: &str, hash: &str) -> (r: String)
    requires
        can_shard(hash@),
    ensures
        r@ == object_location(objects@, hash@),
{
    let cs = text::to_chars(hash);
    let n: usize = if cs.len() == 0 {
        0
    } else if cs.len() == 1 || cs[0] as u32 > 0x7F {
        1
    } else {
        2
    };
    proof {
        assert(hash@.subrange(0, n as int) =~= hash@.take(n as int));
        assert(hash@.subrange(n as int, cs@.len() as int) =~= hash@.skip(n as int));
    }
    let shard = hash.substring_char(0, n);
    let rest = hash.substring_char(n, cs.len());
    let dir = join(objects, shard);
    join(dir.as_str(), rest)
}

/// Where the data of one repository is kept.
#[derive(Debug, PartialEq, Eq)]
pub struct StoragePaths {
    /// The canonical root of the repository.
    pub repo_root: String,
    /// The hash of the root.
    pub repo_hash: String,
    /// `<app-data>/rewind/<hash>`
    pub root: String,
    /// The database file.
    pub db: String,
    /// The directory of the object store.
    pub objects: String,
    /// The directory of the logs.
    pub logs: String,
}

/// The name of a repository's storage directory: the first half of the BLAKE3
/// hash of its canonical path.
pub open spec fn storage_name(canonical: Seq<u8>) -> Seq<char> {
    objects::blake3_hex(canonical).take(32)
}

impl StoragePaths {
    /// The layout below `base` for the repository at `canonical`.
    pub open spec fn lays_out(self, base: Seq<char>, canonical: Seq<char>) -> bool {
        let name = storage_name(encode_utf8(canonical));
        let root = joined(joined(base, "rewind"@), name);
        &&& self.repo_root@ == canonical
        &&& self.repo_hash@ == name
        &&& self.root@ == root
        &&& self.db@ == joined(root, "rewind.db"@)
        &&& self.objects@ == joined(root, "objects"@)
        &&& self.logs@ == joined(root, "logs"@)
    }

    /// The layout for the repository at `canonical`, below the directory that
    /// `override_dir` names, or else below the data directory of the platform.
    pub fn for_repo(
        override_dir: Option<&str>,
        platform_dir: Option<&str>,
        canonical: &str,
    ) -> (r: Result<StoragePaths, RewindError>)
        ensures
            match (r, data_dir(view_opt(override_dir), view_opt(platform_dir))) {
                (Ok(s), Ok(base)) => s.lays_out(base, canonical@),
                (Err(e), Err(why)) => e@ == why,
                _ => false,
            },
    {
        match base_data_dir(override_dir, platform_dir) {
            Ok(base) => Ok(StoragePaths::for_repo_in(base.as_str(), canonical)),
            Err(e) => Err(e),
        }
    }

    /// The layout below `base` for the repository at `canonical`.
    pub fn for_repo_in(base: &str, canonical: &str) -> (r: StoragePaths)
        ensures
            r.lays_out(base@, canonical@),
    {
        let hash = repo_hash(canonical.as_bytes());
        let top = join(base, "rewind");
        let root = join(top.as_str(), hash.as_str());
        StoragePaths {
            db: join(root.as_str(), "rewind.db"),
            objects: join(root.as_str(), "objects"),
            logs: join(root.as_str(), "logs"),
            root,
            repo_root: canonical.to_string(),
            repo_hash: hash,
        }
    }

    /// Where the object `hash` is stored.
    pub fn object_path(&self, hash: &str) -> (r: String)
        requires
            can_shard(hash@),
        ensures
            r@ == object_location(self.objects@, hash@),
    {
        sharded(self.objects.as_str(), hash)
    }
}

/// The view of an optional borrowed text.
pub open spec fn view_opt(o: Option<&str>) -> Option<Seq<char>> {
    match o {
        Some(s) => Some(s@),
        None => None,
    }
}

/// The base data directory: the override if there is one, which may not be
/// empty, else the directory of the platform.
pub open spec fn data_dir(override_dir: Option<Seq<char>>, platform_dir: Option<Seq<char>>) -> Result<
    Seq<char>,
    ErrorView,
> {
    match (override_dir, platform_dir) {
        (Some(dir), _) => if dir.len() == 0 {
            Err(ErrorView::Config("REWIND_DATA_DIR is set but empty"@))
        } else {
            Ok(dir)
        },
        (None, Some(dir)) => Ok(dir),
        (None, None) => Err(
            ErrorView::Other("could not determine the platform data directory"@),
        ),
    }
}

/// The base data directory, given the value of [`DATA_DIR_ENV`] and the data
/// directory of the platform.
pub fn base_data_dir(override_dir: Option<&str>, platform_dir: Option<&str>) -> (r: Result<
    String,
    RewindError,
>)
    ensures
        match (r, data_dir(view_opt(override_dir), view_opt(platform_dir))) {
            (Ok(s), Ok(dir)) => s@ == dir,
            (Err(e), Err(why)) => e@ == why,
            _ => false,
        },
{
    match (override_dir, platform_dir) {
        (Some(dir), _) => {
            if dir.is_empty() {
                Err(RewindError::Config("REWIND_DATA_DIR is set but empty".to_string()))
            } else {
                Ok(dir.to_string())
            }
        },
        (None, Some(dir)) => Ok(dir.to_string()),
        (None, None) => Err(
            RewindError::other("could not determine the platform data directory"),
        ),
    }
}

/// The stable hash of a repository: the first 32 hexadecimal digits of the
/// BLAKE3 hash of the bytes of its canonical path.
pub fn repo_hash(canonical: &[u8]) -> (r: String)
    ensures
        r@ == storage_name(canonical@),
        r@.len() == 32,
        forall|i: int| 0 <= i < 32 ==> objects::is_hex_digit(#[trigger] r@[i]),
{
    let full = objects::hash_bytes(canonical);
    proof {
        assert(full@.subrange(0, 32) =~= full@.take(32));
        assert forall|i: int| 0 <= i < 32 implies objects::is_hex_digit(
            #[trigger] full@.take(32)[i],
        ) by {
            assert(full@.take(32)[i] == full@[i]);
        }
    }
    full.as_str().substring_char(0, 32).to_string()
}

/// A hash can always be sharded: its first two bytes are its first two digits.
pub proof fn lemma_hash_shards(objects: Seq<char>, hash: Seq<char>)
    requires
        objects::is_hash(hash),
    ensures
        can_shard(hash),
        object_location(objects, hash) == joined(joined(objects, hash.take(2)), hash.skip(2)),
{
    assert(objects::is_hex_digit(hash[0]));
    assert(objects::is_hex_digit(hash[1]));
}

} // verus!
