//! Laws of the differences between manifests.

use vstd::prelude::*;

use crate::diff;
use crate::diff::ChangeView;
use crate::diff::Files;
use crate::diff::StatusView;
use crate::text;
use crate::text_map;

verus! {

/// What a change tells: where the path stands on the new side, its hash and size
/// there, and where it or the path it came from stood on the old side, its hash
/// and size there.
pub proof fn lemma_change_details(changes: Seq<ChangeView>, old: Files, new: Files, i: int)
    requires
        diff::is_diff(changes, old, new),
        0 <= i < changes.len(),
    ensures
        ({
            let c = changes[i];
            match c.status {
                StatusView::Added => {
                    &&& new.contains_key(c.path) && !old.contains_key(c.path)
                    &&& c.old_hash is None && c.old_size == 0
                    &&& c.new_hash == Some(new[c.path].hash) && c.new_size == new[c.path].size
                },
                StatusView::Modified => {
                    &&& new.contains_key(c.path) && old.contains_key(c.path)
                    &&& new[c.path].hash != old[c.path].hash
                    &&& c.old_hash == Some(old[c.path].hash) && c.old_size == old[c.path].size
                    &&& c.new_hash == Some(new[c.path].hash) && c.new_size == new[c.path].size
                },
                StatusView::Deleted => {
                    &&& old.contains_key(c.path) && !new.contains_key(c.path)
                    &&& c.old_hash == Some(old[c.path].hash) && c.old_size == old[c.path].size
                    &&& c.new_hash is None && c.new_size == 0
                },
                StatusView::Renamed { from } => {
                    &&& new.contains_key(c.path) && !old.contains_key(c.path)
                    &&& old.contains_key(from) && !new.contains_key(from)
                    &&& old[from].hash == new[c.path].hash
                    &&& c.old_hash == Some(old[from].hash) && c.old_size == old[from].size
                    &&& c.new_hash == Some(new[c.path].hash) && c.new_size == new[c.path].size
                },
            }
        }),
{
    let c = changes[i];
    assert(diff::change_of(old, new, c.path) == Some(c));
    if c.status is Renamed {
        let from = choose|from: Seq<char>| diff::is_rename(old, new, from, c.path);
        assert(diff::is_rename(old, new, from, c.path));
    }
}

/// Every path that differs is told of: one that both sides have with different
/// content is modified, one that only the new side has is added or a rename, and
/// one that only the old side has is deleted or the source of a rename.
pub proof fn lemma_change_is_told(changes: Seq<ChangeView>, old: Files, new: Files, p: Seq<char>)
    requires
        old.dom().finite(),
        new.dom().finite(),
        diff::is_diff(changes, old, new),
    ensures
        old.contains_key(p) && new.contains_key(p) ==> (old[p].hash != new[p].hash <==> exists|i: int|
            0 <= i < changes.len() && (#[trigger] changes[i]).path == p),
        old.contains_key(p) && new.contains_key(p) && old[p].hash != new[p].hash ==> exists|i: int|
            0 <= i < changes.len() && (#[trigger] changes[i]).path == p && changes[i].status
                is Modified,
        new.contains_key(p) && !old.contains_key(p) ==> exists|i: int|
            0 <= i < changes.len() && (#[trigger] changes[i]).path == p && (changes[i].status
                is Added || changes[i].status is Renamed),
        old.contains_key(p) && !new.contains_key(p) ==> exists|i: int|
            0 <= i < changes.len() && (((#[trigger] changes[i]).path == p && changes[i].status
                is Deleted) || changes[i].status == (StatusView::Renamed { from: p })),
{
    let paths = diff::change_paths(changes);
    if diff::change_of(old, new, p) is Some {
        let i = paths.index_of(p);
        assert(changes[i].path == p);
        assert(diff::change_of(old, new, changes[i].path) == Some(changes[i]));
    } else if old.contains_key(p) && !new.contains_key(p) {
        let to = choose|to: Seq<char>| diff::is_rename(old, new, p, to);
        assert(diff::is_rename(old, new, p, to));
        assert(diff::change_of(old, new, to) is Some);
        let i = paths.index_of(to);
        assert(changes[i].path == to);
        assert(diff::change_of(old, new, changes[i].path) == Some(changes[i]));
        let from = choose|from: Seq<char>| diff::is_rename(old, new, from, to);
        assert(diff::is_rename(old, new, from, to));
        diff::lemma_rename_pairs(old, new, p, to, from, to);
    }
    if exists|i: int| 0 <= i < changes.len() && (#[trigger] changes[i]).path == p {
        let i = choose|i: int| 0 <= i < changes.len() && (#[trigger] changes[i]).path == p;
        assert(diff::change_of(old, new, changes[i].path) == Some(changes[i]));
    }
}

/// The changes come in the order of their paths, each path once.
pub proof fn lemma_changes_in_order(
    changes: Seq<ChangeView>,
    old: Files,
    new: Files,
    i: int,
    j: int,
)
    requires
        diff::is_diff(changes, old, new),
        0 <= i < j < changes.len(),
    ensures
        text::lt(changes[i].path, changes[j].path),
        changes[i].path != changes[j].path,
{
    let paths = diff::change_paths(changes);
    assert(text::lt(paths[i], paths[j]));
    text_map::lemma_ordered_distinct(paths);
}

// ---------------------------------------------------------------------------
// No rename is missed
// ---------------------------------------------------------------------------

/// Some member of a set that is not empty comes after all others.
proof fn lemma_greatest(s: Set<Seq<char>>) -> (m: Seq<char>)
    requires
        s.finite(),
        s.len() > 0,
    ensures
        s.contains(m),
        forall|p: Seq<char>| #[trigger] s.contains(p) && p != m ==> text::lt(p, m),
    decreases s.len(),
{
    let a = s.choose();
    let rest = s.remove(a);
    if rest.len() == 0 {
        assert forall|p: Seq<char>| #[trigger] s.contains(p) implies p == a by {
            if p != a {
                assert(rest.contains(p));
                assert(rest =~= Set::empty());
            }
        }
        a
    } else {
        let b = lemma_greatest(rest);
        text::lemma_lt_total(a, b);
        if text::lt(a, b) {
            assert forall|p: Seq<char>| #[trigger] s.contains(p) && p != b implies text::lt(p, b) by {
                if p != a {
                    assert(rest.contains(p));
                }
            }
            b
        } else {
            assert forall|p: Seq<char>| #[trigger] s.contains(p) && p != a implies text::lt(p, a) by {
                assert(rest.contains(p));
                if p != b {
                    text::lemma_lt_transitive(p, b, a);
                }
            }
            a
        }
    }
}

/// Every rank below the number of members is that of some member.
proof fn lemma_rank_reached(s: Set<Seq<char>>, r: nat) -> (p: Seq<char>)
    requires
        s.finite(),
        r < s.len(),
    ensures
        s.contains(p),
        diff::rank(s, p) == r,
    decreases s.len(),
{
    let m = lemma_greatest(s);
    let rest = s.remove(m);
    let below = s.filter(|q: Seq<char>| text::lt(q, m));
    text::lemma_lt_irreflexive(m);
    assert(below =~= rest);
    if r == s.len() - 1 {
        m
    } else {
        let p = lemma_rank_reached(rest, r);
        let a = s.filter(|q: Seq<char>| text::lt(q, p));
        let b = rest.filter(|q: Seq<char>| text::lt(q, p));
        assert(text::lt(p, m));
        assert forall|q: Seq<char>| a.contains(q) == b.contains(q) by {
            if q == m && text::lt(m, p) {
                text::lemma_lt_transitive(m, p, m);
            }
        }
        assert(a =~= b);
        p
    }
}

proof fn lemma_rank_below(s: Set<Seq<char>>, p: Seq<char>)
    requires
        s.finite(),
        s.contains(p),
    ensures
        diff::rank(s, p) < s.len(),
{
    let a = s.filter(|q: Seq<char>| text::lt(q, p));
    text::lemma_lt_irreflexive(p);
    assert(a.insert(p).subset_of(s));
    vstd::set_lib::lemma_len_subset(a.insert(p), s);
}

/// No rename is missed: a file that is told as deleted and one that is told as
/// added never have the same content.
pub proof fn lemma_no_missed_rename(
    changes: Seq<ChangeView>,
    old: Files,
    new: Files,
    i: int,
    j: int,
)
    requires
        old.dom().finite(),
        new.dom().finite(),
        diff::is_diff(changes, old, new),
        0 <= i < changes.len(),
        0 <= j < changes.len(),
        changes[i].status is Deleted,
        changes[j].status is Added,
    ensures
        changes[i].old_hash != changes[j].new_hash,
{
    lemma_change_details(changes, old, new, i);
    lemma_change_details(changes, old, new, j);
    let p = changes[i].path;
    let q = changes[j].path;
    assert(diff::change_of(old, new, p) == Some(changes[i]));
    assert(diff::change_of(old, new, q) == Some(changes[j]));
    if old[p].hash == new[q].hash {
        let h = old[p].hash;
        let gone = diff::only_in(old, new, h);
        let come = diff::only_in(new, old, h);
        assert(gone.contains(p));
        assert(come.contains(q));
        lemma_rank_below(gone, p);
        lemma_rank_below(come, q);
        if diff::rank(gone, p) < come.len() {
            let to = lemma_rank_reached(come, diff::rank(gone, p));
            assert(diff::is_rename(old, new, p, to));
        } else {
            let from = lemma_rank_reached(gone, diff::rank(come, q));
            assert(diff::is_rename(old, new, from, q));
        }
    }
}

/// The letters that stand for the ways a file changes.
pub proof fn lemma_letters(s: StatusView)
    ensures
        diff::status_letter(s) == 'A' <==> s is Added,
        diff::status_letter(s) == 'M' <==> s is Modified,
        diff::status_letter(s) == 'D' <==> s is Deleted,
        diff::status_letter(s) == 'R' <==> s is Renamed,
{
}

/// The text of an object is its content, byte for byte. It has one exactly if it is
/// valid UTF-8 without a zero byte.
pub proof fn lemma_object_text(objects: Map<Seq<char>, Vec<u8>>, h: Seq<char>)
    ensures
        diff::side_text(objects, Some(h)) is Some <==> objects.contains_key(h)
            && vstd::utf8::valid_utf8(objects[h]@) && !objects[h]@.contains(0u8),
        diff::side_text(objects, Some(h)) matches Some(t) ==> vstd::utf8::encode_utf8(t)
            == objects[h]@,
        diff::side_text(objects, None) == Some(Seq::<char>::empty()),
{
    if objects.contains_key(h) && vstd::utf8::valid_utf8(objects[h]@) {
        vstd::utf8::decode_utf8_encode_utf8(objects[h]@);
    }
}

} // verus!
