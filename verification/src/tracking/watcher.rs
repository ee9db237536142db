//! Debouncing of file system events.
//!
//! Editors emit several events for each save. Events are collected until none
//! has come for a while, and then told as one batch of changed paths.

use vstd::prelude::*;

use crate::paths;
use crate::paths::PartView;
use crate::text;
use crate::text_map;
use crate::text_map::TextMap;
use crate::text_map::TextSet;
use crate::tracking;
use crate::tracking::IgnoreRules;

verus! {

/// The quiet time in milliseconds after which a batch is told, unless
/// configured.
pub const DEFAULT_DEBOUNCE_MS: u64 = 300;

/// How long to wait for events in milliseconds while none is pending.
pub const IDLE_WAIT_MS: u64 = 500;

// ---------------------------------------------------------------------------
// Which events count
// ---------------------------------------------------------------------------

/// A path changes what is tracked, whether it is a file or a directory.
pub open spec fn of_interest(rules: tracking::RulesView, rel: Seq<char>) -> bool {
    &&& tracking::reason_for(rules, rel, false, None) is Included
    &&& tracking::reason_for(rules, rel, true, None) is Included
}

/// The relative path that an event of a path on disk is told as, if it is of
/// interest.
pub open spec fn told_as(rules: tracking::RulesView, path: Seq<char>) -> Option<Seq<char>> {
    match paths::relative_to(rules.root, path) {
        Some(rel) => if of_interest(rules, rel) {
            Some(rel)
        } else {
            None
        },
        None => None,
    }
}

proof fn lemma_joined_starts(parts: Seq<Seq<char>>)
    requires
        parts.len() > 0,
        parts[0].len() > 0,
    ensures
        text::joined(parts, seq!['/']).len() >= parts[0].len(),
        text::joined(parts, seq!['/']).take(parts[0].len() as int) == parts[0],
        parts.len() == 1 ==> text::joined(parts, seq!['/']) == parts[0],
        text::joined(parts, seq!['/']).len() > parts[0].len() ==> text::joined(
            parts,
            seq!['/'],
        )[parts[0].len() as int] == '/',
    decreases parts.len(),
{
    let all = text::joined(parts, seq!['/']);
    let n = parts[0].len() as int;
    if parts.len() == 1 {
        assert(all.take(n) =~= parts[0]);
    } else {
        let front = parts.drop_last();
        lemma_joined_starts(front);
        let a = text::joined(front, seq!['/']);
        assert(all == a + seq!['/'] + parts.last());
        assert(all.take(n) =~= a.take(n));
        if a.len() > n {
            assert(all[n] == a[n]);
        } else {
            assert(all[n] == seq!['/'][0]);
        }
    }
}

/// The rules for an absolute root can be asked about every path.
pub proof fn lemma_absolute_root_judges(root: Seq<char>, path: Seq<char>)
    requires
        root.len() > 0,
        root[0] == '/',
    ensures
        tracking::can_judge(root, path),
{
    if paths::relative_to(root, path) is Some {
        lemma_relative_is_below(root, path);
    }
}

proof fn lemma_relative_is_below(root: Seq<char>, path: Seq<char>)
    requires
        root.len() > 0,
        root[0] == '/',
        paths::relative_to(root, path) is Some,
    ensures
        tracking::lies_below(root, paths::relative_to(root, path)->0),
{
    let above = paths::parts_of(root);
    let all = paths::parts_of(path);
    let rest = all.skip(above.len() as int);
    let texts = paths::part_texts(rest);
    let rel = paths::relative_to(root, path)->0;
    assert(paths::start_parts(root) =~= seq![PartView::Root]);
    assert(above.len() >= 1);
    assert(paths::start_parts(path).len() <= 1);
    assert(rel == text::joined(texts, seq!['/']));
    assert(rest.len() > 0);
    let first = rest[0];
    assert(first == all[above.len() as int]);
    paths::lemma_part_is_proper(path, above.len() as int);
    assert(texts[0] == paths::part_text(first));
    lemma_joined_starts(texts);
    let n = texts[0].len() as int;
    assert(rel.take(n)[0] == rel[0]);
    assert(texts[0][0] == rel[0]);
    assert(rel[0] != '/') by {
        if rel[0] == '/' {
            assert(texts[0].contains('/'));
        }
    }
    assert(tracking::without_dot_slash(rel) == rel) by {
        if rel.len() >= 2 && rel[0] == '.' && rel[1] == '/' {
            if n == 1 {
                assert(texts[0] =~= seq!['.']);
            } else {
                assert(rel.take(n)[1] == rel[1]);
                assert(texts[0][1] == '/');
                assert(texts[0].contains('/'));
            }
        }
    }
    tracking::lemma_relative_lies_below(root, rel);
}

/// The relative path that an event of a path on disk is told as, if it is of
/// interest.
pub fn filtered_rel(rules: &IgnoreRules, path: &str) -> (r: Option<String>)
    requires
        tracking::can_judge(rules@.root, path@),
    ensures
        text::opt_text(r) == told_as(rules@, path@),
{
    match paths::rel_string(rules.root(), path) {
        None => None,
        Some(rel) => {
            if rules.should_track_event(rel.as_str()) {
                Some(rel)
            } else {
                None
            }
        },
    }
}

// ---------------------------------------------------------------------------
// Collecting them
// ---------------------------------------------------------------------------

/// The changed paths that have not been told yet, and when the last event came.
pub struct Debouncer {
    pending: TextSet,
    last_event: Option<u128>,
}

impl Debouncer {
    /// The changed paths that have not been told yet.
    pub closed spec fn pending(self) -> Set<Seq<char>> {
        self.pending@.dom()
    }

    /// When the last event came, in milliseconds, if one has come since the
    /// last batch.
    pub closed spec fn last_event(self) -> Option<u128> {
        self.last_event
    }

    /// Nothing has come yet.
    pub fn new() -> (r: Debouncer)
        ensures
            r.pending() == Set::<Seq<char>>::empty(),
            r.last_event() is None,
    {
        let pending: TextSet = TextMap::new();
        proof {
            assert(pending@.dom() =~= Set::<Seq<char>>::empty());
        }
        Debouncer { pending, last_event: None }
    }

    /// How many milliseconds to wait for the next event.
    pub fn wait_ms(&self, debounce_ms: u64) -> (r: u64)
        ensures
            r == if self.pending() == Set::<Seq<char>>::empty() {
                IDLE_WAIT_MS
            } else {
                debounce_ms
            },
    {
        if self.nothing_pending() {
            IDLE_WAIT_MS
        } else {
            debounce_ms
        }
    }

    fn nothing_pending(&self) -> (r: bool)
        ensures
            r == (self.pending() == Set::<Seq<char>>::empty()),
    {
        let r: bool = self.pending.is_empty();
        proof {
            if r {
                assert(self.pending() =~= Set::<Seq<char>>::empty());
            } else if self.pending() == Set::<Seq<char>>::empty() {
                assert(self.pending@ =~= Map::<Seq<char>, ()>::empty());
            }
        }
        r
    }

    /// Takes the events of some paths that came at `now`. Those of interest
    /// are pending from then on.
    pub fn events(&mut self, rules: &IgnoreRules, event_paths: &Vec<String>, now: u128)
        requires
            forall|i: int|
                0 <= i < event_paths@.len() ==> tracking::can_judge(
                    rules@.root,
                    #[trigger] text::texts(event_paths@)[i],
                ),
        ensures
            final(self).last_event() == Some(now),
            forall|p: Seq<char>| #[trigger]
                final(self).pending().contains(p) <==> old(self).pending().contains(p) || exists|
                    i: int,
                |
                    0 <= i < event_paths@.len() && told_as(
                        rules@,
                        #[trigger] text::texts(event_paths@)[i],
                    ) == Some(p),
    {
        let ghost all = text::texts(event_paths@);
        let mut i: usize = 0;
        while i < event_paths.len()
            invariant
                i <= event_paths@.len(),
                all == text::texts(event_paths@),
                forall|k: int|
                    0 <= k < event_paths@.len() ==> tracking::can_judge(rules@.root, #[trigger] all[k]),
                forall|p: Seq<char>| #[trigger]
                    self.pending().contains(p) <==> old(self).pending().contains(p) || exists|k: int|
                        0 <= k < i && told_as(rules@, #[trigger] all[k]) == Some(p),
            decreases event_paths@.len() - i,
        {
            let ghost before = self.pending();
            proof {
                assert(all[i as int] == event_paths@[i as int]@);
            }
            let told = filtered_rel(rules, event_paths[i].as_str());
            let ghost tv = text::opt_text(told);
            if let Some(rel) = told {
                self.pending.insert(rel, ());
            }
            proof {
                assert forall|p: Seq<char>| #[trigger] self.pending().contains(p) <==> old(
                    self,
                ).pending().contains(p) || exists|k: int|
                    0 <= k < i + 1 && told_as(rules@, #[trigger] all[k]) == Some(p) by {
                    assert(self.pending().contains(p) <==> before.contains(p) || tv == Some(p));
                    if tv == Some(p) {
                        assert(told_as(rules@, all[i as int]) == Some(p));
                    }
                    if before.contains(p) && !old(self).pending().contains(p) {
                        let k = choose|k: int|
                            0 <= k < i && told_as(rules@, #[trigger] all[k]) == Some(p);
                        assert(told_as(rules@, all[k]) == Some(p));
                    }
                }
            }
            i += 1;
        }
        let ghost done = self.pending();
        self.last_event = Some(now);
        proof {
            assert(self.pending() == done);
            assert forall|p: Seq<char>| #[trigger] self.pending().contains(p) <==> old(
                self,
            ).pending().contains(p) || exists|k: int|
                0 <= k < event_paths@.len() && told_as(
                    rules@,
                    #[trigger] text::texts(event_paths@)[k],
                ) == Some(p) by {
                assert(done.contains(p) <==> old(self).pending().contains(p) || exists|k: int|
                    0 <= k < i && told_as(rules@, #[trigger] all[k]) == Some(p));
            }
        }
    }

    /// The quiet time is over: no event has come since the last batch, or the
    /// last one is at least that long ago.
    pub open spec fn is_quiet(self, now: u128, debounce_ms: u64) -> bool {
        match self.last_event() {
            Some(t) => now - t >= debounce_ms,
            None => true,
        }
    }

    /// No event came in time: the batch to be told, if some paths are pending
    /// and it has been quiet for long enough. After that nothing is pending.
    pub fn timeout(&mut self, now: u128, debounce_ms: u64) -> (r: Option<Vec<String>>)
        requires
            old(self).last_event() matches Some(t) ==> t <= now,
        ensures
            match r {
                Some(batch) => {
                    &&& old(self).is_quiet(now, debounce_ms)
                    &&& batch@.len() > 0
                    &&& text_map::ordered(text::texts(batch@))
                    &&& text::texts(batch@).to_set() == old(self).pending()
                    &&& final(self).pending() == Set::<Seq<char>>::empty()
                    &&& final(self).last_event() is None
                },
                None => {
                    &&& *final(self) == *old(self)
                    &&& !(old(self).is_quiet(now, debounce_ms) && old(self).pending() != Set::<
                        Seq<char>,
                    >::empty())
                },
            },
    {
        let quiet: bool = match self.last_event {
            Some(t) => now - t >= debounce_ms as u128,
            None => true,
        };
        if self.nothing_pending() || !quiet {
            return None;
        }
        let mut pending: TextSet = TextMap::new();
        std::mem::swap(&mut pending, &mut self.pending);
        self.last_event = None;
        proof {
            assert(self.pending() =~= Set::<Seq<char>>::empty());
        }
        Some(in_order(&pending))
    }

    /// There will be no more events: the last batch, if some paths are pending.
    pub fn closed(self) -> (r: Option<Vec<String>>)
        ensures
            match r {
                Some(batch) => {
                    &&& batch@.len() > 0
                    &&& text_map::ordered(text::texts(batch@))
                    &&& text::texts(batch@).to_set() == self.pending()
                },
                None => self.pending() == Set::<Seq<char>>::empty(),
            },
    {
        if self.nothing_pending() {
            None
        } else {
            Some(in_order(&self.pending))
        }
    }
}

/// The members of a set in order.
fn in_order(set: &TextSet) -> (r: Vec<String>)
    ensures
        text_map::ordered(text::texts(r@)),
        text::texts(r@).to_set() == set@.dom(),
        set@.dom() != Set::<Seq<char>>::empty() ==> r@.len() > 0,
{
    let n: usize = set.len();
    let ghost keys = set.keys();
    let mut r: Vec<String> = Vec::new();
    let mut i: usize = 0;
    while i < n
        invariant
            i <= n,
            n == keys.len(),
            keys == set.keys(),
            text::texts(r@) == keys.take(i as int),
        decreases n - i,
    {
        let ghost before = r@;
        r.push(set.key_at(i).clone());
        proof {
            assert(text::texts(r@) =~= text::texts(before).push(keys[i as int]));
            assert(keys.take(i + 1) =~= keys.take(i as int).push(keys[i as int]));
        }
        i += 1;
    }
    proof {
        assert(keys.take(i as int) =~= keys);
        assert(text::texts(r@).to_set() =~= set@.dom()) by {
            assert forall|p: Seq<char>| keys.to_set().contains(p) == set@.dom().contains(p) by {
                assert(set@.contains_key(p) == keys.contains(p));
            }
        }
        if r@.len() == 0 {
            assert(set@.dom() =~= Set::<Seq<char>>::empty()) by {
                assert forall|p: Seq<char>| !set@.dom().contains(p) by {
                    assert(set@.contains_key(p) == keys.contains(p));
                }
            }
        }
    }
    r
}

/// A change is told by its path below the root, unless a rule leaves that path out
/// as a file or as a directory.
pub proof fn lemma_told(rules: tracking::RulesView, path: Seq<char>, p: Seq<char>)
    ensures
        told_as(rules, path) == Some(p) <==> {
            &&& paths::relative_to(rules.root, path) == Some(p)
            &&& tracking::reason_for(rules, p, false, None) is Included
            &&& tracking::reason_for(rules, p, true, None) is Included
        },
        told_as(rules, path) == Some(p) ==> !tracking::ignored_below(
            rules.root,
            rules.default_dirs,
            p,
            true,
        ) && !tracking::ignored_below(rules.root, rules.repo_gitignore, p, false) && (
        rules.track_secrets || !tracking::ignored_below(rules.root, rules.secrets, p, false)),
{
    tracking::lemma_reasons(rules, p, false, None);
    tracking::lemma_reasons(rules, p, true, None);
}

} // verus!
