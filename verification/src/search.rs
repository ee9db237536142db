//! Searching the timeline.
//!
//! The database finds the events whose summary is `LIKE` a pattern, with the
//! backslash as the escape character. The pattern made here finds those that
//! hold the query as it stands, whatever the case of its ASCII letters.

use vstd::prelude::*;

use crate::text;

verus! {

/// Whether a character has a meaning of its own in a pattern.
pub open spec fn is_special(c: char) -> bool {
    c == '%' || c == '_' || c == '\\'
}

/// `query` with a backslash before each character that has a meaning of its own.
pub open spec fn escaped(query: Seq<char>) -> Seq<char>
    decreases query.len(),
{
    if query.len() == 0 {
        Seq::empty()
    } else if is_special(query.last()) {
        escaped(query.drop_last()).push('\\').push(query.last())
    } else {
        escaped(query.drop_last()).push(query.last())
    }
}

/// The pattern for texts that hold `query`.
pub open spec fn pattern_of(query: Seq<char>) -> Seq<char> {
    seq!['%'] + escaped(query) + seq!['%']
}

/// The pattern for texts that hold `query`.
pub fn like_pattern(query: &str) -> (r: String)
    ensures
        r@ == pattern_of(query@),
{
    let cs = text::to_chars(query);
    let mut r = String::new();
    r.push('%');
    proof {
        assert(cs@.take(0) =~= Seq::<char>::empty());
        assert(r@ =~= seq!['%'] + escaped(cs@.take(0)));
    }
    let mut i: usize = 0;
    while i < cs.len()
        invariant
            i <= cs@.len(),
            r@ == seq!['%'] + escaped(cs@.take(i as int)),
        decreases cs@.len() - i,
    {
        let c: char = cs[i];
        let ghost before = escaped(cs@.take(i as int));
        if c == '%' || c == '_' || c == '\\' {
            r.push('\\');
        }
        r.push(c);
        proof {
            assert(cs@.take(i + 1).drop_last() =~= cs@.take(i as int));
            assert(cs@.take(i + 1).last() == c);
            assert(r@ =~= seq!['%'] + escaped(cs@.take(i + 1)));
        }
        i += 1;
    }
    proof {
        assert(cs@.take(i as int) =~= cs@);
    }
    r.push('%');
    proof {
        assert(r@ =~= pattern_of(query@));
    }
    r
}

/// Whether `t` is `LIKE` the pattern `p`: `%` stands for any characters, `_` for
/// any one, a backslash makes the character after it stand for itself, and every
/// other character stands for itself, in either case if it is an ASCII letter.
pub open spec fn is_like(p: Seq<char>, t: Seq<char>) -> bool
    decreases p.len(), t.len(),
{
    if p.len() == 0 {
        t.len() == 0
    } else if p[0] == '%' {
        is_like(p.skip(1), t) || (t.len() > 0 && is_like(p, t.skip(1)))
    } else if p[0] == '\\' && p.len() > 1 {
        t.len() > 0 && text::lower_char(t[0]) == text::lower_char(p[1]) && is_like(
            p.skip(2),
            t.skip(1),
        )
    } else {
        t.len() > 0 && (p[0] == '_' || text::lower_char(t[0]) == text::lower_char(p[0])) && is_like(
            p.skip(1),
            t.skip(1),
        )
    }
}

proof fn lemma_escaped_front(c: char, rest: Seq<char>)
    ensures
        escaped(seq![c] + rest) == (if is_special(c) {
            seq!['\\', c]
        } else {
            seq![c]
        }) + escaped(rest),
    decreases rest.len(),
{
    let whole = seq![c] + rest;
    if rest.len() == 0 {
        assert(whole.drop_last() =~= Seq::<char>::empty());
        assert(whole.last() == c);
        assert(escaped(Seq::<char>::empty()) =~= Seq::<char>::empty());
        assert(rest =~= Seq::<char>::empty());
        assert(escaped(whole) =~= (if is_special(c) {
            seq!['\\', c]
        } else {
            seq![c]
        }) + escaped(rest));
    } else {
        lemma_escaped_front(c, rest.drop_last());
        assert(whole.drop_last() =~= seq![c] + rest.drop_last());
        assert(whole.last() == rest.last());
        assert(escaped(whole) =~= (if is_special(c) {
            seq!['\\', c]
        } else {
            seq![c]
        }) + escaped(rest));
    }
}

proof fn lemma_anything(t: Seq<char>)
    ensures
        is_like(seq!['%'], t),
    decreases t.len(),
{
    reveal_with_fuel(is_like, 2);
    assert(seq!['%'].skip(1) =~= Seq::<char>::empty());
    if t.len() > 0 {
        lemma_anything(t.skip(1));
    }
}

/// `q` and then anything is like the texts that begin with `q`.
proof fn lemma_like_prefix(q: Seq<char>, t: Seq<char>)
    ensures
        is_like(escaped(q) + seq!['%'], t) <==> text::lower(q).is_prefix_of(text::lower(t)),
    decreases q.len(),
{
    let p = escaped(q) + seq!['%'];
    if q.len() == 0 {
        lemma_anything(t);
        assert(p =~= seq!['%']);
        assert(text::lower(q) =~= text::lower(t).take(0));
    } else {
        let c = q[0];
        let rest = q.skip(1);
        assert(q =~= seq![c] + rest);
        lemma_escaped_front(c, rest);
        let tail = escaped(rest) + seq!['%'];
        if is_special(c) {
            assert(p[0] == '\\' && p[1] == c);
            assert(p.skip(2) =~= tail);
        } else {
            assert(p[0] == c);
            assert(p.skip(1) =~= tail);
        }
        if t.len() > 0 {
            lemma_like_prefix(rest, t.skip(1));
            assert(is_like(p, t) <==> text::lower_char(t[0]) == text::lower_char(c) && is_like(
                tail,
                t.skip(1),
            ));
            let lq = text::lower(q);
            let lt = text::lower(t);
            let lr = text::lower(rest);
            let ls = text::lower(t.skip(1));
            assert(lr =~= lq.skip(1));
            assert(ls =~= lt.skip(1));
            if lq.is_prefix_of(lt) {
                assert(lq[0] == lt[0]);
                assert forall|i: int| 0 <= i < lr.len() implies lr[i] == ls[i] by {
                    assert(lq[i + 1] == lt[i + 1]);
                }
                assert(lr =~= ls.subrange(0, lr.len() as int));
            }
            if lq[0] == lt[0] && lr.is_prefix_of(ls) {
                assert forall|i: int| 0 <= i < lq.len() implies lq[i] == lt[i] by {
                    if i > 0 {
                        assert(lr[i - 1] == ls[i - 1]);
                    }
                }
                assert(lq =~= lt.subrange(0, lq.len() as int));
            }
        } else {
            assert(!is_like(p, t));
            assert(text::lower(q).len() > text::lower(t).len());
        }
    }
}

/// Anything and then `p` is like the texts of which an end is like `p`.
proof fn lemma_like_end(p: Seq<char>, t: Seq<char>)
    ensures
        is_like(seq!['%'] + p, t) <==> exists|i: int|
            0 <= i <= t.len() && is_like(p, #[trigger] t.skip(i)),
    decreases t.len(),
{
    let whole = seq!['%'] + p;
    assert(whole.skip(1) =~= p);
    assert(t.skip(0) =~= t);
    if t.len() > 0 {
        lemma_like_end(p, t.skip(1));
        if is_like(whole, t.skip(1)) {
            let i = choose|i: int|
                0 <= i <= t.skip(1).len() && is_like(p, #[trigger] t.skip(1).skip(i));
            assert(t.skip(1).skip(i) =~= t.skip(i + 1));
        }
        if exists|i: int| 0 <= i <= t.len() && is_like(p, #[trigger] t.skip(i)) {
            let i = choose|i: int| 0 <= i <= t.len() && is_like(p, #[trigger] t.skip(i));
            if i > 0 {
                assert(t.skip(1).skip(i - 1) =~= t.skip(i));
            }
        }
    } else {
        if exists|i: int| 0 <= i <= t.len() && is_like(p, #[trigger] t.skip(i)) {
            let i = choose|i: int| 0 <= i <= t.len() && is_like(p, #[trigger] t.skip(i));
            assert(i == 0);
        }
    }
}

/// The texts that are like the pattern of a query are those that hold the query,
/// whatever the case of the ASCII letters.
pub proof fn lemma_search_finds(query: Seq<char>, t: Seq<char>)
    ensures
        is_like(pattern_of(query), t) <==> text::occurs(text::lower(t), text::lower(query)),
{
    let p = escaped(query) + seq!['%'];
    assert(pattern_of(query) =~= seq!['%'] + p);
    lemma_like_end(p, t);
    let lt = text::lower(t);
    let lq = text::lower(query);
    if is_like(pattern_of(query), t) {
        let i = choose|i: int| 0 <= i <= t.len() && is_like(p, #[trigger] t.skip(i));
        lemma_like_prefix(query, t.skip(i));
        assert(text::lower(t.skip(i)) =~= lt.skip(i));
        assert(lq =~= lt.skip(i).subrange(0, lq.len() as int));
        assert(lt.subrange(i, i + lq.len()) =~= lq);
        assert(text::occurs_at(lt, lq, i));
    }
    if text::occurs(lt, lq) {
        let i = choose|i: int| text::occurs_at(lt, lq, i);
        assert(text::lower(t.skip(i)) =~= lt.skip(i));
        assert(lq =~= lt.skip(i).subrange(0, lq.len() as int)) by {
            assert(lt.subrange(i, i + lq.len()) =~= lq);
        }
        lemma_like_prefix(query, t.skip(i));
        assert(is_like(p, t.skip(i)));
    }
}

} // verus!
