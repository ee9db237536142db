//! What a unified diff tells.
//!
//! A unified diff is a list of hunks. Each shows a stretch of the old text and
//! what stands in its place in the new text, line by line; outside the hunks the
//! two texts agree.

use vstd::prelude::*;

use crate::diff;
use crate::diff::LineTag;
use crate::text;

verus! {

/// A line that a hunk shows, and whether both texts have it or only one.
pub struct Row {
    pub tag: LineTag,
    pub line: Seq<char>,
}

/// A stretch of a unified diff: its head, where it begins in the old and in the
/// new text, counted in lines, and the lines it shows.
pub struct Hunk {
    pub head: Seq<char>,
    pub old_at: nat,
    pub new_at: nat,
    pub rows: Seq<Row>,
}

/// The sign in front of a line.
pub open spec fn sign(tag: LineTag) -> Seq<char> {
    match tag {
        LineTag::Equal => " "@,
        LineTag::Delete => "-"@,
        LineTag::Insert => "+"@,
    }
}

/// A line as a hunk shows it. One that is not ended, which is the last of its
/// text, is followed by a note.
pub open spec fn row_text(row: Row) -> Seq<char> {
    sign(row.tag) + row.line + if row.line.len() > 0 && (row.line.last() == '\n' || row.line.last()
        == '\r') {
        ""@
    } else {
        "\n\\ No newline at end of file\n"@
    }
}

/// The lines of a hunk as it shows them.
pub open spec fn row_texts(rows: Seq<Row>) -> Seq<Seq<char>> {
    Seq::new(rows.len(), |i: int| row_text(rows[i]))
}

/// A hunk as it is printed.
pub open spec fn hunk_text(h: Hunk) -> Seq<char> {
    h.head + row_texts(h.rows).flatten()
}

/// The hunks of a unified diff as they are printed.
pub open spec fn hunk_texts(hunks: Seq<Hunk>) -> Seq<Seq<char>> {
    Seq::new(hunks.len(), |i: int| hunk_text(hunks[i]))
}

/// The lines of a hunk but for those with the tag `without`.
pub open spec fn side(rows: Seq<Row>, without: LineTag) -> Seq<Seq<char>>
    decreases rows.len(),
{
    if rows.len() == 0 {
        Seq::empty()
    } else {
        let before = side(rows.drop_last(), without);
        if rows.last().tag == without {
            before
        } else {
            before.push(rows.last().line)
        }
    }
}

/// The hunks lead from the lines `old` to the lines `new`: each turns what it
/// shows of `old` into what it shows of `new`, and what lies before, between and
/// after them is the same in both.
pub open spec fn bridges(hunks: Seq<Hunk>, old: Seq<Seq<char>>, new: Seq<Seq<char>>) -> bool
    decreases hunks.len(),
{
    if hunks.len() == 0 {
        old == new
    } else {
        let h = hunks.last();
        let gone = side(h.rows, LineTag::Insert);
        let come = side(h.rows, LineTag::Delete);
        &&& h.old_at + gone.len() <= old.len()
        &&& h.new_at + come.len() <= new.len()
        &&& old.skip((h.old_at + gone.len()) as int) == new.skip((h.new_at + come.len()) as int)
        &&& old.subrange(h.old_at as int, (h.old_at + gone.len()) as int) == gone
        &&& new.subrange(h.new_at as int, (h.new_at + come.len()) as int) == come
        &&& bridges(hunks.drop_last(), old.take(h.old_at as int), new.take(h.new_at as int))
    }
}

/// A hunk that shows something, below a head of the usual form.
pub open spec fn is_shown(h: Hunk) -> bool {
    &&& h.rows.len() > 0
    &&& "@@ -"@.is_prefix_of(h.head)
    &&& " @@\n"@.is_suffix_of(h.head)
}
/// How many unchanged lines stand at the beginning of these rows.
pub open spec fn lead(rows: Seq<Row>) -> nat
    decreases rows.len(),
{
    if rows.len() == 0 || rows[0].tag != LineTag::Equal {
        0
    } else {
        1 + lead(rows.drop_first())
    }
}

/// How many unchanged lines stand at the end of these rows.
pub open spec fn trail(rows: Seq<Row>) -> nat
    decreases rows.len(),
{
    if rows.len() == 0 || rows.last().tag != LineTag::Equal {
        0
    } else {
        1 + trail(rows.drop_last())
    }
}

/// A hunk shows that many unchanged lines before its first change and behind its
/// last, or as many as there are.
pub open spec fn has_context(
    h: Hunk,
    radius: nat,
    old: Seq<Seq<char>>,
    new: Seq<Seq<char>>,
) -> bool {
    let gone = side(h.rows, LineTag::Insert).len();
    let come = side(h.rows, LineTag::Delete).len();
    &&& lead(h.rows) <= radius
    &&& trail(h.rows) <= radius
    &&& lead(h.rows) < radius ==> h.old_at == 0 && h.new_at == 0
    &&& trail(h.rows) < radius ==> h.old_at + gone == old.len() && h.new_at + come == new.len()
}

/// The printed hunks, if there are any, tell how `old` became `new`.
pub open spec fn hunks_tell(
    printed: Option<Seq<char>>,
    old: Seq<char>,
    new: Seq<char>,
    radius: nat,
) -> bool {
    match printed {
        None => old == new,
        Some(t) => old != new && exists|hunks: Seq<Hunk>|
            {
                &&& #[trigger] bridges(hunks, diff::split_lines(old), diff::split_lines(new))
                &&& t == hunk_texts(hunks).flatten()
                &&& forall|i: int|
                    0 <= i < hunks.len() ==> is_shown(#[trigger] hunks[i]) && has_context(
                        hunks[i],
                        radius,
                        diff::split_lines(old),
                        diff::split_lines(new),
                    )
            },
    }
}

/// What is shown is empty if there are no hunks, and the hunks, if there are any,
/// tell how `old` became `new`.
pub open spec fn tells(
    shown: Seq<char>,
    printed: Option<Seq<char>>,
    old: Seq<char>,
    new: Seq<char>,
    radius: nat,
) -> bool {
    &&& printed is None <==> shown.len() == 0
    &&& hunks_tell(printed, old, new, radius)
}

/// `shown` is a unified diff of two versions of `path`: it is empty if they are
/// the same, and else names the path on both sides and then shows hunks that
/// lead from the one to the other.
pub open spec fn is_unified(
    shown: Seq<char>,
    path: Seq<char>,
    old: Seq<char>,
    new: Seq<char>,
) -> bool {
    &&& old == new <==> shown.len() == 0
    &&& old != new ==> exists|hunks: Seq<Hunk>|
        {
            &&& #[trigger] bridges(hunks, diff::split_lines(old), diff::split_lines(new))
            &&& shown == "--- a/"@ + path + "\n+++ b/"@ + path + "\n"@ + hunk_texts(
                hunks,
            ).flatten()
            &&& forall|i: int|
                0 <= i < hunks.len() ==> is_shown(#[trigger] hunks[i]) && has_context(
                    hunks[i],
                    3,
                    diff::split_lines(old),
                    diff::split_lines(new),
                )
        }
}

proof fn lemma_side_from(rows: Seq<Row>, without: LineTag, i: int) -> (j: int)
    requires
        0 <= i < side(rows, without).len(),
    ensures
        0 <= j < rows.len(),
        rows[j].tag != without,
        rows[j].line == side(rows, without)[i],
    decreases rows.len(),
{
    let front = rows.drop_last();
    if i < side(front, without).len() {
        let j = lemma_side_from(front, without, i);
        assert(front[j] == rows[j]);
        j
    } else {
        rows.len() - 1
    }
}

proof fn lemma_row_on_side(rows: Seq<Row>, without: LineTag, j: int)
    requires
        0 <= j < rows.len(),
        rows[j].tag != without,
    ensures
        side(rows, without).contains(rows[j].line),
    decreases rows.len(),
{
    let front = rows.drop_last();
    let all = side(rows, without);
    if j < front.len() {
        assert(front[j] == rows[j]);
        lemma_row_on_side(front, without, j);
        let i = side(front, without).index_of(rows[j].line);
        assert(all[i] == rows[j].line);
    } else {
        assert(all[all.len() - 1] == rows[j].line);
    }
}

/// A line that only the new text has is shown as inserted, in some hunk.
proof fn lemma_new_line_in_hunk(
    hunks: Seq<Hunk>,
    old: Seq<Seq<char>>,
    new: Seq<Seq<char>>,
    k: int,
) -> (r: (int, int))
    requires
        bridges(hunks, old, new),
        0 <= k < new.len(),
        !old.contains(new[k]),
    ensures
        0 <= r.0 < hunks.len(),
        0 <= r.1 < hunks[r.0].rows.len(),
        hunks[r.0].rows[r.1] == (Row { tag: LineTag::Insert, line: new[k] }),
    decreases hunks.len(),
{
    if hunks.len() == 0 {
        assert(old[k] == new[k]);
        (0, 0)
    } else {
        let h = hunks.last();
        let gone = side(h.rows, LineTag::Insert);
        let come = side(h.rows, LineTag::Delete);
        if k < h.new_at {
            let front = hunks.drop_last();
            let a = old.take(h.old_at as int);
            let b = new.take(h.new_at as int);
            assert(!a.contains(b[k])) by {
                if a.contains(b[k]) {
                    let i = a.index_of(b[k]);
                    assert(old[i] == new[k]);
                }
            }
            let r = lemma_new_line_in_hunk(front, a, b, k);
            assert(front[r.0] == hunks[r.0]);
            r
        } else if k < h.new_at + come.len() {
            assert(come[k - h.new_at] == new[k]);
            let j = lemma_side_from(h.rows, LineTag::Delete, k - h.new_at);
            if h.rows[j].tag == LineTag::Equal {
                lemma_row_on_side(h.rows, LineTag::Insert, j);
                let i = gone.index_of(new[k]);
                assert(old[h.old_at + i] == new[k]);
            }
            (hunks.len() - 1, j)
        } else {
            let n = (h.new_at + come.len()) as int;
            let m = (h.old_at + gone.len()) as int;
            assert(old.skip(m).len() == new.skip(n).len());
            assert(new.skip(n)[k - n] == new[k]);
            assert(old.skip(m)[k - n] == old[m + k - n]);
            assert(old.contains(new[k]));
            (0, 0)
        }
    }
}

/// A line that only the old text has is shown as deleted, in some hunk.
proof fn lemma_old_line_in_hunk(
    hunks: Seq<Hunk>,
    old: Seq<Seq<char>>,
    new: Seq<Seq<char>>,
    k: int,
) -> (r: (int, int))
    requires
        bridges(hunks, old, new),
        0 <= k < old.len(),
        !new.contains(old[k]),
    ensures
        0 <= r.0 < hunks.len(),
        0 <= r.1 < hunks[r.0].rows.len(),
        hunks[r.0].rows[r.1] == (Row { tag: LineTag::Delete, line: old[k] }),
    decreases hunks.len(),
{
    if hunks.len() == 0 {
        assert(old[k] == new[k]);
        (0, 0)
    } else {
        let h = hunks.last();
        let gone = side(h.rows, LineTag::Insert);
        let come = side(h.rows, LineTag::Delete);
        if k < h.old_at {
            let front = hunks.drop_last();
            let a = old.take(h.old_at as int);
            let b = new.take(h.new_at as int);
            assert(!b.contains(a[k])) by {
                if b.contains(a[k]) {
                    let i = b.index_of(a[k]);
                    assert(new[i] == old[k]);
                }
            }
            let r = lemma_old_line_in_hunk(front, a, b, k);
            assert(front[r.0] == hunks[r.0]);
            r
        } else if k < h.old_at + gone.len() {
            assert(gone[k - h.old_at] == old[k]);
            let j = lemma_side_from(h.rows, LineTag::Insert, k - h.old_at);
            if h.rows[j].tag == LineTag::Equal {
                lemma_row_on_side(h.rows, LineTag::Delete, j);
                let i = come.index_of(old[k]);
                assert(new[h.new_at + i] == old[k]);
            }
            (hunks.len() - 1, j)
        } else {
            let n = (h.new_at + come.len()) as int;
            let m = (h.old_at + gone.len()) as int;
            assert(old.skip(m).len() == new.skip(n).len());
            assert(old.skip(m)[k - m] == old[k]);
            assert(new.skip(n)[k - m] == new[n + k - m]);
            assert(new.contains(old[k]));
            (0, 0)
        }
    }
}

proof fn lemma_row_is_printed(hunks: Seq<Hunk>, i: int, j: int)
    requires
        0 <= i < hunks.len(),
        0 <= j < hunks[i].rows.len(),
    ensures
        text::occurs(
            hunk_texts(hunks).flatten(),
            sign(hunks[i].rows[j].tag) + hunks[i].rows[j].line,
        ),
{
    let h = hunks[i];
    let row = h.rows[j];
    let all = hunk_texts(hunks);
    let rows = row_texts(h.rows);
    let shown = sign(row.tag) + row.line;
    let none = Seq::<char>::empty();
    text::lemma_flatten_holds(all, i);
    text::lemma_flatten_holds(rows, j);
    assert(all[i] =~= h.head + rows.flatten() + none);
    text::lemma_occurs_within(h.head, rows.flatten(), none);
    text::lemma_occurs_trans(all.flatten(), all[i], rows.flatten());
    text::lemma_occurs_trans(all.flatten(), rows.flatten(), rows[j]);
    let note = rows[j].skip(shown.len() as int);
    assert(rows[j] =~= none + shown + note);
    text::lemma_occurs_within(none, shown, note);
    text::lemma_occurs_trans(all.flatten(), rows[j], shown);
}

/// A unified diff shows every line that only the new text has behind a plus
/// sign, and every line that only the old text has behind a minus sign, just as
/// they are.
pub proof fn lemma_unified_shows_lines(
    shown: Seq<char>,
    path: Seq<char>,
    old: Seq<char>,
    new: Seq<char>,
    line: Seq<char>,
)
    requires
        is_unified(shown, path, old, new),
    ensures
        diff::split_lines(new).contains(line) && !diff::split_lines(old).contains(line)
            ==> text::occurs(shown, "+"@ + line),
        diff::split_lines(old).contains(line) && !diff::split_lines(new).contains(line)
            ==> text::occurs(shown, "-"@ + line),
{
    let a = diff::split_lines(old);
    let b = diff::split_lines(new);
    if a.contains(line) != b.contains(line) {
        let hunks = choose|hunks: Seq<Hunk>|
            {
                &&& #[trigger] bridges(hunks, a, b)
                &&& shown == "--- a/"@ + path + "\n+++ b/"@ + path + "\n"@ + hunk_texts(
                    hunks,
                ).flatten()
                &&& forall|i: int| 0 <= i < hunks.len() ==> is_shown(#[trigger] hunks[i])
            };
        let (i, j) = if b.contains(line) {
            lemma_new_line_in_hunk(hunks, a, b, b.index_of(line))
        } else {
            lemma_old_line_in_hunk(hunks, a, b, a.index_of(line))
        };
        lemma_row_is_printed(hunks, i, j);
        let head = "--- a/"@ + path + "\n+++ b/"@ + path + "\n"@;
        let all = hunk_texts(hunks).flatten();
        let none = Seq::<char>::empty();
        assert(shown =~= head + all + none);
        text::lemma_occurs_within(head, all, none);
        text::lemma_occurs_trans(shown, all, sign(hunks[i].rows[j].tag) + line);
    }
}

/// The unified diff of a new file shows each of its lines behind a plus sign.
pub proof fn lemma_unified_shows_new_file(
    shown: Seq<char>,
    path: Seq<char>,
    new: Seq<char>,
    line: Seq<char>,
)
    requires
        is_unified(shown, path, Seq::empty(), new),
        diff::split_lines(new).contains(line),
    ensures
        text::occurs(shown, "+"@ + line),
{
    lemma_unified_shows_lines(shown, path, Seq::empty(), new, line);
}

/// Unified diffs tell versions apart: one that shows how `old` became `new` shows
/// no other change of `old`.
pub proof fn lemma_bridges_one_way(
    hunks: Seq<Hunk>,
    old: Seq<Seq<char>>,
    new: Seq<Seq<char>>,
    other: Seq<Seq<char>>,
)
    requires
        bridges(hunks, old, new),
        bridges(hunks, old, other),
    ensures
        new == other,
    decreases hunks.len(),
{
    if hunks.len() > 0 {
        let h = hunks.last();
        let come = side(h.rows, LineTag::Delete);
        let n = h.new_at as int;
        let m = (h.new_at + come.len()) as int;
        lemma_bridges_one_way(
            hunks.drop_last(),
            old.take(h.old_at as int),
            new.take(n),
            other.take(n),
        );
        assert(new =~= new.take(n) + new.subrange(n, m) + new.skip(m));
        assert(other =~= other.take(n) + other.subrange(n, m) + other.skip(m));
    }
}

/// A unified diff shows three unchanged lines around each of its hunks, no more, and
/// fewer only at the ends of the texts.
pub proof fn lemma_unified_context(
    shown: Seq<char>,
    path: Seq<char>,
    old: Seq<char>,
    new: Seq<char>,
    i: int,
) -> (hunks: Seq<Hunk>)
    requires
        is_unified(shown, path, old, new),
        old != new,
    ensures
        shown == "--- a/"@ + path + "\n+++ b/"@ + path + "\n"@ + hunk_texts(hunks).flatten(),
        0 <= i < hunks.len() ==> {
            &&& lead(hunks[i].rows) <= 3
            &&& trail(hunks[i].rows) <= 3
            &&& lead(hunks[i].rows) < 3 ==> hunks[i].old_at == 0 && hunks[i].new_at == 0
        },
{
    choose|hunks: Seq<Hunk>|
        {
            &&& #[trigger] bridges(hunks, diff::split_lines(old), diff::split_lines(new))
            &&& shown == "--- a/"@ + path + "\n+++ b/"@ + path + "\n"@ + hunk_texts(
                hunks,
            ).flatten()
            &&& forall|i: int|
                0 <= i < hunks.len() ==> is_shown(#[trigger] hunks[i]) && has_context(
                    hunks[i],
                    3,
                    diff::split_lines(old),
                    diff::split_lines(new),
                )
        }
}

} // verus!
