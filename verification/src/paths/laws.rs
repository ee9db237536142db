//! Laws of paths.

use vstd::prelude::*;

use crate::paths;
use crate::paths::PartView;
use crate::text;

verus! {

/// A name that a file or a directory can have.
pub open spec fn is_name(s: Seq<char>) -> bool {
    s.len() > 0 && s != seq!['.'] && s != seq!['.', '.'] && !s.contains('/')
}

/// Every member is a name.
pub open spec fn all_names(names: Seq<Seq<char>>) -> bool {
    forall|i: int| 0 <= i < names.len() ==> is_name(#[trigger] names[i])
}

/// The parts of a path of these names.
pub open spec fn name_parts(names: Seq<Seq<char>>) -> Seq<PartView> {
    Seq::new(names.len(), |i: int| PartView::Normal(names[i]))
}

proof fn lemma_kept_names(names: Seq<Seq<char>>)
    requires
        all_names(names),
    ensures
        paths::kept_parts(names) == name_parts(names),
    decreases names.len(),
{
    if names.len() > 0 {
        let front = names.drop_last();
        assert forall|i: int| 0 <= i < front.len() implies is_name(#[trigger] front[i]) by {
            assert(is_name(names[i]));
        }
        lemma_kept_names(front);
        assert(is_name(names[names.len() - 1]));
        assert(name_parts(names) =~= name_parts(front).push(PartView::Normal(names.last())));
    } else {
        assert(paths::kept_parts(names) =~= name_parts(names));
    }
}

proof fn lemma_starts_with_name(names: Seq<Seq<char>>)
    requires
        names.len() > 0,
        all_names(names),
    ensures
        ({
            let rel = text::joined(names, seq!['/']);
            &&& rel.len() > 0
            &&& rel[0] != '/'
        }),
{
    let rel = text::joined(names, seq!['/']);
    let first = names[0];
    assert(is_name(names[0]));
    assert(first.contains(first[0]));
    let rest = names.drop_first();
    assert(names =~= seq![first] + rest);
    text::laws::lemma_joined(seq![first], rest, seq!['/']);
    if rest.len() > 0 {
        assert(rel[0] == first[0]);
    } else {
        assert(rel == first);
    }
}

/// A path of names has these names as its parts, and no others.
pub proof fn lemma_parts_of_names(names: Seq<Seq<char>>)
    requires
        names.len() > 0,
        all_names(names),
    ensures
        paths::parts_of(text::joined(names, seq!['/'])) == name_parts(names),
        paths::start_parts(text::joined(names, seq!['/'])).len() == 0,
{
    let rel = text::joined(names, seq!['/']);
    assert forall|i: int| 0 <= i < names.len() implies !(#[trigger] names[i]).contains('/') by {
        assert(is_name(names[i]));
    }
    text::laws::lemma_joined_pieces(names, '/');
    lemma_starts_with_name(names);
    assert(is_name(names[0]));
    lemma_kept_names(names);
    assert(paths::start_parts(rel) =~= Seq::<PartView>::empty());
    assert(paths::parts_of(rel) =~= name_parts(names));
}

/// A path that is joined to a root is told, relative to that root, as itself.
pub proof fn lemma_relative_undoes_joining(root: Seq<char>, names: Seq<Seq<char>>)
    requires
        names.len() > 0,
        all_names(names),
    ensures
        paths::relative_to(root, paths::joined(root, text::joined(names, seq!['/']))) == Some(
            text::joined(names, seq!['/']),
        ),
{
    let rel = text::joined(names, seq!['/']);
    let path = paths::joined(root, rel);
    lemma_parts_of_names(names);
    lemma_starts_with_name(names);
    assert(paths::start_parts(rel) =~= Seq::<PartView>::empty());
    paths::lemma_joined_parts(root, rel);
    let above = paths::parts_of(root);
    let all = paths::parts_of(path);
    assert(all.skip(above.len() as int) =~= name_parts(names));
    assert(paths::part_texts(name_parts(names)) =~= names);
    assert(all.subrange(0, above.len() as int) =~= above);
    assert(above.is_prefix_of(all));
}

/// The root itself and what is not below it have no path relative to it.
pub proof fn lemma_nothing_relative(root: Seq<char>, path: Seq<char>)
    ensures
        paths::relative_to(root, root) is None,
        !paths::parts_of(root).is_prefix_of(paths::parts_of(path)) ==> paths::relative_to(
            root,
            path,
        ) is None,
{
    let above = paths::parts_of(root);
    assert(above.skip(above.len() as int) =~= Seq::<PartView>::empty());
    assert(paths::part_texts(Seq::<PartView>::empty()) =~= Seq::<Seq<char>>::empty());
}

/// The last part of a path of a directory and a name is that name.
pub proof fn lemma_last_part(dir: Seq<char>, name: Seq<char>)
    requires
        is_name(name),
    ensures
        paths::parts_of(paths::joined(dir, name)) == paths::parts_of(dir).push(
            PartView::Normal(name),
        ),
{
    let names = seq![name];
    assert(text::joined(names, seq!['/']) == name);
    lemma_parts_of_names(names);
    assert(paths::start_parts(name) =~= Seq::<PartView>::empty());
    paths::lemma_joined_parts(dir, name);
    assert(paths::parts_of(dir) + name_parts(names) =~= paths::parts_of(dir).push(
        PartView::Normal(name),
    ));
}

/// A relative path is put behind a directory with one slash between them, and an
/// absolute one stands for itself.
pub proof fn lemma_joining(dir: Seq<char>, rel: Seq<char>)
    ensures
        rel.len() > 0 && rel[0] == '/' ==> paths::joined(dir, rel) == rel,
        !(rel.len() > 0 && rel[0] == '/') && dir.len() > 0 && dir.last() != '/' ==> paths::joined(
            dir,
            rel,
        ) == dir + "/"@ + rel,
        !(rel.len() > 0 && rel[0] == '/') && dir.len() > 0 && dir.last() == '/' ==> paths::joined(
            dir,
            rel,
        ) == dir + rel,
        !(rel.len() > 0 && rel[0] == '/') && dir.len() == 0 ==> paths::joined(dir, rel) == rel,
{
    reveal_strlit("/");
    assert("/"@ =~= seq!['/']);
    if dir.len() == 0 {
        assert(dir + rel =~= rel);
    }
}

/// The data directory is the one that is set, which must not be empty, else that
/// of the platform.
pub proof fn lemma_data_dir(set: Option<Seq<char>>, platform: Option<Seq<char>>)
    ensures
        ({
            let r = paths::data_dir(set, platform);
            &&& set matches Some(d) ==> (r is Ok <==> d.len() > 0)
            &&& set matches Some(d) ==> (r is Ok ==> r->Ok_0 == d)
            &&& set is None ==> (r is Ok <==> platform is Some)
            &&& set is None && platform is Some ==> r->Ok_0 == platform->0
            &&& set is Some && r is Err ==> r->Err_0 is Config
            &&& set is None && r is Err ==> r->Err_0 is Other
        }),
{
}

/// Above a name in a directory is the directory.
pub proof fn lemma_above_name(dir: Seq<char>, name: Seq<char>)
    requires
        is_name(name),
    ensures
        paths::above(paths::joined(dir, name)) is Some,
        paths::parts_of(paths::above(paths::joined(dir, name))->0) == paths::parts_of(dir),
{
    let path = paths::joined(dir, name);
    let parts = paths::parts_of(path);
    lemma_last_part(dir, name);
    let n = parts.len() - 1;
    paths::lemma_rendered_parts(path, n);
    assert(parts.take(n) =~= parts.drop_last());
    assert(parts.drop_last() =~= paths::parts_of(dir));
}

} // verus!
