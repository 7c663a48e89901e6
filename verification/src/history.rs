//! Bounded histories: keep only the most recent records.
use vstd::prelude::*;

verus! {

/// The most recent `max` records of `s` (all of them when there are fewer).
pub open spec fn keep_recent<T>(s: Seq<T>, max: nat) -> Seq<T> {
    if s.len() > max {
        s.skip(s.len() - max)
    } else {
        s
    }
}

/// Drops the oldest records until at most `max` remain.
pub fn trim_to<T>(history: &mut Vec<T>, max: usize)
    ensures
        final(history)@ == keep_recent(old(history)@, max as nat),
{
    let ghost orig = history@;
    if history.len() > max {
        let excess = history.len() - max;
        let mut removed: usize = 0;
        while removed < excess
            invariant
                removed <= excess,
                excess == orig.len() - max,
                history@ == orig.skip(removed as int),
            decreases excess - removed,
        {
            history.remove(0);
            removed = removed + 1;
            proof {
                assert(history@ =~= orig.skip(removed as int));
            }
        }
    }
}

/// Appends a record, then drops the oldest one if there are more than `max`.
pub fn push_bounded<T>(history: &mut Vec<T>, record: T, max: usize)
    ensures
        final(history)@ == if old(history)@.len() + 1 > max {
            old(history)@.push(record).skip(1)
        } else {
            old(history)@.push(record)
        },
{
    history.push(record);
    if history.len() > max {
        let ghost before = history@;
        history.remove(0);
        proof {
            assert(history@ =~= before.skip(1));
        }
    }
}

/// Pushing a record to a history within its bound keeps it within the bound,
/// with the new record last.
pub proof fn lemma_push_bounded_len<T>(s: Seq<T>, record: T, max: nat)
    requires
        s.len() <= max,
        max >= 1,
    ensures
        (if s.len() + 1 > max { s.push(record).skip(1) } else { s.push(record) }).len() <= max,
        (if s.len() + 1 > max { s.push(record).skip(1) } else { s.push(record) }).last() == record,
{
}

} // verus!
