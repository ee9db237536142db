//! Which steps bring the schema of the database up to date.

use vstd::prelude::*;

verus! {

/// The versions that are still to be reached, in order: those after `current`,
/// from 1 on, up to `latest`.
pub open spec fn versions_after(current: int, latest: nat) -> Seq<int> {
    let reached = if current < 0 {
        0
    } else {
        current
    };
    Seq::new(
        if reached < latest {
            (latest - reached) as nat
        } else {
            0
        },
        |i: int| reached + 1 + i,
    )
}

/// The numbers in a list.
pub open spec fn numbers(v: Seq<i64>) -> Seq<int> {
    Seq::new(v.len(), |i: int| v[i] as int)
}

/// The versions that a database at version `current` has still to reach, in
/// order, where the steps lead to the versions 1 to `latest`.
pub fn pending(current: i64, latest: u32) -> (r: Vec<i64>)
    ensures
        numbers(r@) == versions_after(current as int, latest as nat),
{
    let mut out: Vec<i64> = Vec::new();
    let mut v: u32 = 0;
    proof {
        assert(numbers(out@) =~= versions_after(current as int, 0));
    }
    while v < latest
        invariant
            v <= latest,
            numbers(out@) == versions_after(current as int, v as nat),
        decreases latest - v,
    {
        v = v + 1;
        let ghost before = out@;
        if v as i64 > current {
            out.push(v as i64);
            proof {
                assert(numbers(out@) =~= numbers(before).push(v as int));
            }
        }
        proof {
            assert(numbers(out@) =~= versions_after(current as int, v as nat));
        }
    }
    out
}

/// A database that is up to date has nothing left to reach, and one that is not
/// ends at the latest version.
pub proof fn lemma_brought_up_to_date(current: int, latest: nat)
    requires
        0 < latest,
    ensures
        versions_after(latest as int, latest).len() == 0,
        current < latest ==> versions_after(current, latest).last() == latest,
{
}

/// The migrations that are due follow each other without a gap, from the one
/// after the version that was reached.
pub proof fn lemma_no_gap(current: int, latest: nat, i: int)
    requires
        0 <= current,
        0 <= i < versions_after(current, latest).len(),
    ensures
        versions_after(current, latest)[0] == current + 1,
        versions_after(current, latest)[i] == current + 1 + i,
        versions_after(current, latest).len() == latest - current,
        versions_after(-1, latest) == versions_after(0, latest),
{
    assert(versions_after(-1, latest) =~= versions_after(0, latest));
}

} // verus!
