//! An ordered map keyed by text.

use vstd::prelude::*;

use crate::text;

verus! {

/// The keys come in strictly increasing order.
pub open spec fn ordered(keys: Seq<Seq<char>>) -> bool {
    forall|i: int, j: int| 0 <= i < j < keys.len() ==> text::lt(#[trigger] keys[i], #[trigger] keys[j])
}

/// Ordered keys are all different.
pub proof fn lemma_ordered_distinct(keys: Seq<Seq<char>>)
    requires
        ordered(keys),
    ensures
        keys.no_duplicates(),
{
    assert forall|i: int, j: int| 0 <= i < keys.len() && 0 <= j < keys.len() && i != j implies keys[i]
        != keys[j] by {
        text::lemma_lt_irreflexive(keys[i]);
        if i < j {
            assert(text::lt(keys[i], keys[j]));
        } else {
            assert(text::lt(keys[j], keys[i]));
        }
    }
}

/// Two ordered lists of the same keys are the same list.
pub proof fn lemma_ordered_unique(a: Seq<Seq<char>>, b: Seq<Seq<char>>)
    requires
        ordered(a),
        ordered(b),
        forall|k: Seq<char>| a.contains(k) == b.contains(k),
    ensures
        a == b,
    decreases a.len(),
{
    if a.len() == 0 {
        if b.len() > 0 {
            assert(b.contains(b[0]));
            assert(a.contains(b[0]));
        }
        assert(a =~= b);
    } else {
        assert(a.contains(a[0]));
        assert(b.contains(a[0]));
        let j = choose|j: int| 0 <= j < b.len() && b[j] == a[0];
        assert(b.contains(b[0]));
        assert(a.contains(b[0]));
        let i = choose|i: int| 0 <= i < a.len() && a[i] == b[0];
        text::lemma_lt_irreflexive(a[0]);
        if j > 0 {
            assert(text::lt(b[0], b[j]));
            if i > 0 {
                assert(text::lt(a[0], a[i]));
                text::lemma_lt_transitive(a[0], b[0], a[0]);
            }
        }
        assert(a[0] == b[0]);
        let x = a.drop_first();
        let y = b.drop_first();
        assert forall|p: int, q: int| 0 <= p < q < x.len() implies text::lt(
            #[trigger] x[p],
            #[trigger] x[q],
        ) by {
            assert(text::lt(a[p + 1], a[q + 1]));
        }
        assert forall|p: int, q: int| 0 <= p < q < y.len() implies text::lt(
            #[trigger] y[p],
            #[trigger] y[q],
        ) by {
            assert(text::lt(b[p + 1], b[q + 1]));
        }
        lemma_ordered_distinct(a);
        lemma_ordered_distinct(b);
        assert forall|k: Seq<char>| x.contains(k) == y.contains(k) by {
            if x.contains(k) {
                let p = choose|p: int| 0 <= p < x.len() && x[p] == k;
                assert(a[p + 1] == k);
                assert(b.contains(k));
                let q = choose|q: int| 0 <= q < b.len() && b[q] == k;
                assert(q > 0);
                assert(y[q - 1] == k);
            }
            if y.contains(k) {
                let p = choose|p: int| 0 <= p < y.len() && y[p] == k;
                assert(b[p + 1] == k);
                assert(a.contains(k));
                let q = choose|q: int| 0 <= q < a.len() && a[q] == k;
                assert(q > 0);
                assert(x[q - 1] == k);
            }
        }
        lemma_ordered_unique(x, y);
        assert(a =~= seq![a[0]] + x);
        assert(b =~= seq![b[0]] + y);
    }
}

/// A map from texts to values that hands its entries out in key order.
#[derive(Debug)]
pub struct TextMap<V> {
    entries: Vec<(String, V)>,
}

/// A set of texts that hands its members out in order.
pub type TextSet = TextMap<()>;

spec fn keys_of<V>(entries: Seq<(String, V)>) -> Seq<Seq<char>> {
    Seq::new(entries.len(), |i: int| entries[i].0@)
}

spec fn map_of<V>(entries: Seq<(String, V)>) -> Map<Seq<char>, V> {
    Map::new(
        |k: Seq<char>| keys_of(entries).contains(k),
        |k: Seq<char>| entries[keys_of(entries).index_of(k)].1,
    )
}

proof fn lemma_map_of<V>(entries: Seq<(String, V)>)
    requires
        ordered(keys_of(entries)),
    ensures
        forall|i: int|
            0 <= i < entries.len() ==> map_of(entries).contains_key((#[trigger] entries[i]).0@) && map_of(
                entries,
            )[entries[i].0@] == entries[i].1,
        forall|k: Seq<char>| #[trigger]
            map_of(entries).contains_key(k) ==> exists|i: int|
                0 <= i < entries.len() && #[trigger] entries[i].0@ == k,
{
    let keys = keys_of(entries);
    lemma_ordered_distinct(keys);
    assert forall|i: int| 0 <= i < entries.len() implies map_of(entries).contains_key(
        (#[trigger] entries[i]).0@,
    ) && map_of(entries)[entries[i].0@] == entries[i].1 by {
        assert(keys[i] == entries[i].0@);
        let j = keys.index_of(entries[i].0@);
        assert(0 <= j < keys.len() && keys[j] == keys[i]);
        assert(j == i);
    }
    assert forall|k: Seq<char>| #[trigger] map_of(entries).contains_key(k) implies exists|i: int|
        0 <= i < entries.len() && #[trigger] entries[i].0@ == k by {
        let i = choose|i: int| 0 <= i < keys.len() && keys[i] == k;
        assert(entries[i].0@ == k);
    }
}

impl<V> View for TextMap<V> {
    type V = Map<Seq<char>, V>;

    closed spec fn view(&self) -> Map<Seq<char>, V> {
        map_of(self.entries@)
    }
}

impl<V> TextMap<V> {
    /// The keys in order.
    pub closed spec fn keys(self) -> Seq<Seq<char>> {
        keys_of(self.entries@)
    }

    #[verifier::type_invariant]
    spec fn inv(self) -> bool {
        ordered(keys_of(self.entries@))
    }

    /// The map without entries.
    pub fn new() -> (r: TextMap<V>)
        ensures
            r@ == Map::<Seq<char>, V>::empty(),
            r.keys() == Seq::<Seq<char>>::empty(),
    {
        let r = TextMap { entries: Vec::new() };
        proof {
            assert(map_of(r.entries@) =~= Map::<Seq<char>, V>::empty());
            assert(keys_of(r.entries@) =~= Seq::<Seq<char>>::empty());
        }
        r
    }

    /// How many entries there are. The keys are in order, and they are the
    /// keys of the map.
    pub fn len(&self) -> (n: usize)
        ensures
            n == self.keys().len(),
            n == self@.dom().len(),
            self@.dom().finite(),
            ordered(self.keys()),
            forall|k: Seq<char>| #[trigger] self@.contains_key(k) == self.keys().contains(k),
    {
        proof {
            use_type_invariant(self);
            lemma_ordered_distinct(self.keys());
            self.keys().unique_seq_to_set();
            assert(self@.dom() =~= self.keys().to_set());
        }
        self.entries.len()
    }

    /// Whether there are no entries.
    pub fn is_empty(&self) -> (r: bool)
        ensures
            r == (self@ == Map::<Seq<char>, V>::empty()),
            r == (self.keys().len() == 0),
    {
        proof {
            use_type_invariant(self);
            lemma_map_of(self.entries@);
            if self.entries@.len() == 0 {
                assert(self@ =~= Map::<Seq<char>, V>::empty());
            } else {
                assert(self@.contains_key(self.entries@[0].0@));
            }
        }
        self.entries.len() == 0
    }

    /// The key at position `i` of the order.
    pub fn key_at(&self, i: usize) -> (r: &String)
        requires
            i < self.keys().len(),
        ensures
            r@ == self.keys()[i as int],
            self@.contains_key(r@),
    {
        proof {
            use_type_invariant(self);
            lemma_map_of(self.entries@);
        }
        &self.entries[i].0
    }

    /// The value at position `i` of the order.
    pub fn value_at(&self, i: usize) -> (r: &V)
        requires
            i < self.keys().len(),
        ensures
            self@.contains_key(self.keys()[i as int]),
            *r == self@[self.keys()[i as int]],
    {
        proof {
            use_type_invariant(self);
            lemma_map_of(self.entries@);
            assert(self.keys()[i as int] == self.entries@[i as int].0@);
        }
        &self.entries[i].1
    }

    /// The first position whose key does not come before `key`.
    fn position(&self, key: &str) -> (r: usize)
        ensures
            r <= self.entries@.len(),
            forall|i: int| 0 <= i < r ==> text::lt(#[trigger] self.entries@[i].0@, key@),
            r < self.entries@.len() ==> !text::lt(self.entries@[r as int].0@, key@),
    {
        proof {
            use_type_invariant(self);
        }
        let mut lo: usize = 0;
        let mut hi: usize = self.entries.len();
        while lo < hi
            invariant
                lo <= hi <= self.entries@.len(),
                ordered(keys_of(self.entries@)),
                forall|i: int| 0 <= i < lo ==> text::lt(#[trigger] self.entries@[i].0@, key@),
                hi < self.entries@.len() ==> !text::lt(self.entries@[hi as int].0@, key@),
            decreases hi - lo,
        {
            let mid: usize = lo + (hi - lo) / 2;
            if text::less(self.entries[mid].0.as_str(), key) {
                proof {
                    let keys = keys_of(self.entries@);
                    assert forall|i: int| 0 <= i < mid + 1 implies text::lt(
                        #[trigger] self.entries@[i].0@,
                        key@,
                    ) by {
                        if i < mid {
                            assert(text::lt(keys[i], keys[mid as int]));
                            text::lemma_lt_transitive(keys[i], keys[mid as int], key@);
                        }
                    }
                }
                lo = mid + 1;
            } else {
                hi = mid;
            }
        }
        lo
    }

    /// The value of `key`, if it has one.
    pub fn get(&self, key: &str) -> (r: Option<&V>)
        ensures
            match r {
                Some(v) => self@.contains_key(key@) && *v == self@[key@],
                None => !self@.contains_key(key@),
            },
    {
        let i: usize = self.position(key);
        proof {
            use_type_invariant(self);
            lemma_map_of(self.entries@);
        }
        if i < self.entries.len() && text::same(self.entries[i].0.as_str(), key) {
            Some(&self.entries[i].1)
        } else {
            proof {
                let keys = keys_of(self.entries@);
                if self@.contains_key(key@) {
                    let j = choose|j: int| 0 <= j < self.entries@.len() && #[trigger] self.entries@[j].0@ == key@;
                    text::lemma_lt_irreflexive(key@);
                    assert(j >= i);
                    assert(j != i);
                    assert(text::lt(keys[i as int], keys[j]));
                    assert(false);
                }
            }
            None
        }
    }

    /// Whether `key` has a value.
    pub fn contains_key(&self, key: &str) -> (r: bool)
        ensures
            r == self@.contains_key(key@),
    {
        self.get(key).is_some()
    }

    /// Gives `key` the value `value`, in place of the one it had, if any.
    pub fn insert(&mut self, key: String, value: V)
        ensures
            final(self)@ == old(self)@.insert(key@, value),
    {
        let i: usize = self.position(key.as_str());
        proof {
            use_type_invariant(&*self);
            lemma_map_of(self.entries@);
        }
        let ghost before = self.entries@;
        let ghost kv = key@;
        let mut entries: Vec<(String, V)> = Vec::new();
        std::mem::swap(&mut entries, &mut self.entries);
        let found: bool = i < entries.len() && text::same(entries[i].0.as_str(), key.as_str());
        if found {
            entries.set(i, (key, value));
            proof {
                assert(keys_of(entries@) =~= keys_of(before));
            }
        } else {
            entries.insert(i, (key, value));
            proof {
                let keys = keys_of(before);
                assert(keys_of(entries@) =~= keys.insert(i as int, kv));
                if i < before.len() {
                    text::lemma_lt_total(kv, keys[i as int]);
                }
                assert forall|a: int, b: int| 0 <= a < b < entries@.len() implies text::lt(
                    #[trigger] keys_of(entries@)[a],
                    #[trigger] keys_of(entries@)[b],
                ) by {
                    if a < i && b == i {
                        assert(text::lt(before[a].0@, kv));
                    } else if a == i {
                        assert(text::lt(kv, keys[i as int]));
                        if b > i + 1 {
                            assert(text::lt(keys[i as int], keys[b - 1]));
                            text::lemma_lt_transitive(kv, keys[i as int], keys[b - 1]);
                        }
                    } else if b < i {
                        assert(text::lt(keys[a], keys[b]));
                    } else if a < i {
                        assert(text::lt(keys[a], keys[b - 1]));
                    } else {
                        assert(text::lt(keys[a - 1], keys[b - 1]));
                    }
                }
            }
        }
        self.entries = entries;
        proof {
            lemma_map_of(self.entries@);
            let after = self.entries@;
            let m = map_of(before).insert(kv, value);
            assert(after[i as int].0@ == kv);
            assert forall|k: Seq<char>| map_of(after).contains_key(k) == m.contains_key(k) by {
                if map_of(after).contains_key(k) {
                    let j = choose|j: int| 0 <= j < after.len() && #[trigger] after[j].0@ == k;
                    if j != i {
                        if found {
                            assert(after[j] == before[j]);
                        } else if j < i {
                            assert(after[j] == before[j]);
                        } else {
                            assert(after[j] == before[j - 1]);
                        }
                    }
                }
                if m.contains_key(k) && k != kv {
                    let j = choose|j: int| 0 <= j < before.len() && #[trigger] before[j].0@ == k;
                    if found {
                        assert(after[j] == before[j]);
                    } else if j < i {
                        assert(after[j] == before[j]);
                    } else {
                        assert(after[j + 1] == before[j]);
                    }
                }
            }
            assert forall|k: Seq<char>| m.contains_key(k) implies map_of(after)[k] == m[k] by {
                if k != kv {
                    let j = choose|j: int| 0 <= j < before.len() && #[trigger] before[j].0@ == k;
                    if found {
                        assert(after[j] == before[j]);
                    } else if j < i {
                        assert(after[j] == before[j]);
                    } else {
                        assert(after[j + 1] == before[j]);
                    }
                }
            }
            assert(map_of(after) =~= m);
        }
    }
}

} // verus!
