//! Merging sorted counter-entry runs per (query, color) key.
//!
//! The colored counters path sorts each input's entries and then folds every
//! run of one key into a single entry carrying the key's summed counter
//! (saturating). [`spec_merge_sorted`] is the mathematical merge;
//! [`aggregate_entries`] computes exactly it.

use vstd::prelude::*;
use crate::counters::{CounterEntry, sat64, sat_add};

verus! {

/// The (query, color) key of one entry.
pub open spec fn entry_key(e: (CounterEntry, u64)) -> (u64, u64) {
    (e.0.query_index, e.1)
}

/// The merge of a key-sorted entry run: each run of equal (query, color)
/// keys collapses into one entry whose counter is the run's saturated sum.
pub open spec fn spec_merge_sorted(s: Seq<(CounterEntry, u64)>) -> Seq<(CounterEntry, u64)>
    decreases s.len(),
{
    if s.len() == 0 {
        Seq::empty()
    } else {
        let rest = spec_merge_sorted(s.drop_last());
        let e = s.last();
        if rest.len() > 0 && entry_key(rest.last()) == entry_key(e) {
            rest.update(
                rest.len() - 1,
                (
                    CounterEntry {
                        query_index: e.0.query_index,
                        counter: sat64(rest.last().0.counter + e.0.counter) as u64,
                    },
                    e.1,
                ),
            )
        } else {
            rest.push(e)
        }
    }
}

/// Merges a sorted entry run: one output entry per distinct (query, color)
/// key, in key order, counters summed (saturating).
pub fn aggregate_entries(sorted: &Vec<(CounterEntry, u64)>) -> (r: Vec<(CounterEntry, u64)>)
    ensures
        r@ == spec_merge_sorted(sorted@),
{
    let mut out: Vec<(CounterEntry, u64)> = Vec::new();
    if sorted.len() == 0 {
        proof {
            assert(out@ =~= spec_merge_sorted(sorted@));
        }
        return out;
    }
    let first = sorted[0];
    let mut cur = first;
    let mut t: usize = 1;
    proof {
        assert(sorted@.take(1).drop_last() =~= Seq::<(CounterEntry, u64)>::empty());
        assert(sorted@.take(1).last() == sorted@[0]);
        assert(cur == sorted@[0]);
        assert(spec_merge_sorted(sorted@.take(1).drop_last()).len() == 0);
        assert(out@.push(cur) =~= spec_merge_sorted(sorted@.take(1)));
    }
    while t < sorted.len()
        invariant
            1 <= t <= sorted@.len(),
            out@.push(cur) == spec_merge_sorted(sorted@.take(t as int)),
        decreases sorted@.len() - t,
    {
        let e = sorted[t];
        proof {
            assert(sorted@.take(t as int + 1).drop_last() =~= sorted@.take(t as int));
            assert(sorted@.take(t as int + 1).last() == sorted@[t as int]);
        }
        if e.0.query_index == cur.0.query_index && e.1 == cur.1 {
            let merged = (
                CounterEntry {
                    query_index: e.0.query_index,
                    counter: sat_add(cur.0.counter, e.0.counter),
                },
                e.1,
            );
            proof {
                assert(out@.push(cur).last() == cur);
                assert(out@.push(cur).update(out@.len() as int, merged) =~= out@.push(merged));
            }
            cur = merged;
        } else {
            out.push(cur);
            cur = e;
        }
        t = t + 1;
    }
    proof {
        assert(sorted@.take(sorted@.len() as int) =~= sorted@);
    }
    out.push(cur);
    out
}

} // verus!
