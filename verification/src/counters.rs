//! Per-query match counting: the compute core of the counters-sorting
//! stage.
//!
//! Counter entries — one per (query, color) observation — arrive sharded
//! across bucket files. Without colors, the stage totals the counters per
//! query and renders the tabular summary (query index, matched count, total
//! count, match ratio). With colors, it sorts each input's entries by
//! (query, color), merges each group into one summed entry, and re-shards
//! the merged entries into colored output buckets by color. Reading the
//! input files and writing the summary live in the surrounding shell; all
//! decisions are here.

use vstd::prelude::*;
use vstd::multiset::Multiset;
use crate::records::{BucketItem, views_of};
use crate::varint::{
    spec_varint, spec_varint_decode, decode_varint, encode_varint, lemma_varint_decode_len,
    lemma_varint_round_trip, lemma_varint_size, VARINT_MAX_SIZE,
};

verus! {

/// How many matches one query accumulated against one color class.
#[derive(Clone, Copy, PartialEq, Eq, Debug, Structural)]
pub struct CounterEntry {
    /// Which query this entry counts for (1-based).
    pub query_index: u64,
    /// How many k-mer matches were observed.
    pub counter: u64,
}

impl BucketItem for CounterEntry {
    /// The color class the entry belongs to.
    type ExtraData = u64;

    /// (query index, counter, color).
    type ViewType = (u64, u64, u64);

    open spec fn view_with(&self, extra: &u64) -> (u64, u64, u64) {
        (self.query_index, self.counter, *extra)
    }

    open spec fn valid_view(v: (u64, u64, u64)) -> bool {
        true
    }

    proof fn lemma_view_valid(&self, extra: &u64) {
    }

    open spec fn spec_encode(v: (u64, u64, u64)) -> Seq<u8> {
        spec_varint(v.0 as nat) + spec_varint(v.1 as nat) + spec_varint(v.2 as nat)
    }

    open spec fn spec_decode(s: Seq<u8>) -> Option<((u64, u64, u64), int)> {
        match spec_varint_decode(s) {
            Some((q, n1)) => match spec_varint_decode(s.skip(n1)) {
                Some((c, n2)) => match spec_varint_decode(s.skip(n1 + n2)) {
                    Some((x, n3)) => Some(((q, c, x), n1 + n2 + n3)),
                    None => None,
                },
                None => None,
            },
            None => None,
        }
    }

    proof fn lemma_decode_len(s: Seq<u8>) {
        lemma_varint_decode_len(s);
        match spec_varint_decode(s) {
            Some((q, n1)) => {
                lemma_varint_decode_len(s.skip(n1));
                match spec_varint_decode(s.skip(n1)) {
                    Some((c, n2)) => {
                        lemma_varint_decode_len(s.skip(n1 + n2));
                    },
                    None => {},
                }
            },
            None => {},
        }
    }

    proof fn lemma_encode_decode(v: (u64, u64, u64), rest: Seq<u8>) {
        let e0 = spec_varint(v.0 as nat);
        let e1 = spec_varint(v.1 as nat);
        let e2 = spec_varint(v.2 as nat);
        let s = Self::spec_encode(v) + rest;
        lemma_varint_round_trip(v.0, e1 + e2 + rest);
        assert(e0 + (e1 + e2 + rest) =~= s);
        lemma_varint_round_trip(v.1, e2 + rest);
        assert(e1 + (e2 + rest) =~= s.skip(e0.len() as int));
        lemma_varint_round_trip(v.2, rest);
        assert(e2 + rest =~= s.skip(e0.len() + e1.len() as int));
    }

    fn write_to(&self, bucket: &mut Vec<u8>, extra: &u64) {
        encode_varint(bucket, self.query_index);
        encode_varint(bucket, self.counter);
        encode_varint(bucket, *extra);
    }

    fn read_from(bytes: &Vec<u8>, pos: usize) -> (r: Option<((Self, u64), usize)>) {
        match decode_varint(bytes, pos) {
            Some((q, p1)) => {
                proof {
                    assert(bytes@.skip(pos as int).skip(p1 - pos) =~= bytes@.skip(p1 as int));
                }
                match decode_varint(bytes, p1) {
                    Some((c, p2)) => {
                        proof {
                            assert(bytes@.skip(pos as int).skip(p2 - pos) =~= bytes@.skip(
                                p2 as int,
                            ));
                        }
                        match decode_varint(bytes, p2) {
                            Some((x, p3)) => Some(((CounterEntry { query_index: q, counter: c }, x), p3)),
                            None => None,
                        }
                    },
                    None => None,
                }
            },
            None => None,
        }
    }

    fn get_size(&self, extra: &u64) -> (r: usize) {
        proof {
            lemma_varint_size(self.query_index);
            lemma_varint_size(self.counter);
            lemma_varint_size(*extra);
        }
        VARINT_MAX_SIZE * 3
    }
}

/// Entry order for the merge: by query index, then by color.
pub open spec fn entry_le(a: (CounterEntry, u64), b: (CounterEntry, u64)) -> bool {
    a.0.query_index < b.0.query_index || (a.0.query_index == b.0.query_index && a.1 <= b.1)
}

/// Whole sequence ordered by [`entry_le`].
pub open spec fn sorted_entries(s: Seq<(CounterEntry, u64)>) -> bool {
    forall|i: int, j: int| 0 <= i < j < s.len() ==> entry_le(#[trigger] s[i], #[trigger] s[j])
}

/// Sorts counter entries by (query index, color), keeping exactly the same
/// entries.
pub fn sort_counter_entries(input: Vec<(CounterEntry, u64)>) -> (r: Vec<(CounterEntry, u64)>)
    ensures
        sorted_entries(r@),
        r@.to_multiset() == input@.to_multiset(),
{
    broadcast use vstd::seq_lib::group_to_multiset_ensures;

    let mut rest = input;
    let mut out: Vec<(CounterEntry, u64)> = Vec::new();
    proof {
        assert(out@.to_multiset().add(rest@.to_multiset()) =~= input@.to_multiset());
    }
    while rest.len() > 0
        invariant
            out@.to_multiset().add(rest@.to_multiset()) == input@.to_multiset(),
            sorted_entries(out@),
            forall|i: int, j: int|
                0 <= i < out@.len() && 0 <= j < rest@.len() ==> entry_le(
                    #[trigger] out@[i],
                    #[trigger] rest@[j],
                ),
        decreases rest@.len(),
    {
        // Find the least remaining entry.
        let mut m: usize = 0;
        let mut k: usize = 1;
        while k < rest.len()
            invariant
                m < k <= rest@.len() || (k <= rest@.len() && m < rest@.len()),
                m < rest@.len(),
                k <= rest@.len(),
                forall|j: int| 0 <= j < k ==> entry_le(rest@[m as int], #[trigger] rest@[j]),
            decreases rest@.len() - k,
        {
            let a = rest[m];
            let b = rest[k];
            let b_smaller = b.0.query_index < a.0.query_index || (b.0.query_index
                == a.0.query_index && b.1 < a.1);
            if b_smaller {
                m = k;
            }
            k = k + 1;
        }
        let ghost rest0 = rest@;
        let x = rest.remove(m);
        proof {
            rest0.to_multiset_ensures();
            assert(rest@.to_multiset() =~= rest0.to_multiset().remove(x));
            assert(rest0.contains(x));
            assert(rest0.to_multiset().count(x) > 0);
        }
        let ghost out0 = out@;
        out.push(x);
        proof {
            out0.to_multiset_ensures();
            assert(out@.to_multiset() =~= out0.to_multiset().insert(x));
            assert(out@.to_multiset().add(rest@.to_multiset()) =~= input@.to_multiset());
            assert forall|i: int, j: int|
                0 <= i < out@.len() && 0 <= j < rest@.len() implies entry_le(
                out@[i],
                rest@[j],
            ) by {
                if i < out0.len() {
                    assert(entry_le(out0[i], rest0[if j < m { j } else { j + 1 }]));
                } else {
                    assert(entry_le(rest0[m as int], rest0[if j < m { j } else { j + 1 }]));
                }
            };
        }
    }
    proof {
        rest@.to_multiset_ensures();
        assert(rest@.to_multiset().len() == 0);
        assert(out@.to_multiset() =~= input@.to_multiset());
    }
    out
}

/// Clamp an ideal (unbounded) total into the machine word it is stored in.
pub open spec fn sat64(x: int) -> int {
    if x > u64::MAX {
        u64::MAX as int
    } else {
        x
    }
}

/// Total of the counters of all entries for query `q` (entries as decoded
/// record models: query, counter, color).
pub open spec fn sum_for_query(s: Seq<(u64, u64, u64)>, q: u64) -> int
    decreases s.len(),
{
    if s.len() == 0 {
        0
    } else {
        sum_for_query(s.drop_last(), q) + (if s.last().0 == q {
            s.last().1 as int
        } else {
            0
        })
    }
}

pub proof fn lemma_sum_nonneg(s: Seq<(u64, u64, u64)>, q: u64)
    ensures
        sum_for_query(s, q) >= 0,
    decreases s.len(),
{
    if s.len() > 0 {
        lemma_sum_nonneg(s.drop_last(), q);
    }
}

/// Saturating add on the machine word.
pub fn sat_add(a: u64, b: u64) -> (r: u64)
    ensures
        r as int == sat64(a + b),
{
    if a <= u64::MAX - b {
        a + b
    } else {
        u64::MAX
    }
}

/// Adds every decoded entry of one input into the per-query totals:
/// `counters[q - 1]` accumulates the counters of the entries for query `q`
/// (1-based; entries naming a query outside `1..=counters.len()` are
/// ignored). Totals saturate at the machine word.
pub fn accumulate_counters(counters: &mut Vec<u64>, entries: &Vec<(CounterEntry, u64)>)
    ensures
        final(counters)@.len() == old(counters)@.len(),
        forall|j: int|
            0 <= j < old(counters)@.len() ==> final(counters)@[j] as int == sat64(
                old(counters)@[j] + sum_for_query(views_of::<CounterEntry>(entries@), (j + 1) as u64),
            ),
{
    let ghost vs = views_of::<CounterEntry>(entries@);
    let n = counters.len();
    let mut t: usize = 0;
    proof {
        assert(vs.take(0) =~= Seq::<(u64, u64, u64)>::empty());
    }
    while t < entries.len()
        invariant
            counters@.len() == n,
            t <= entries@.len(),
            vs == views_of::<CounterEntry>(entries@),
            vs.len() == entries@.len(),
            counters@.len() == old(counters)@.len(),
            forall|j: int|
                0 <= j < old(counters)@.len() ==> counters@[j] as int == sat64(
                    old(counters)@[j] + sum_for_query(vs.take(t as int), (j + 1) as u64),
                ),
        decreases entries@.len() - t,
    {
        let (entry, color) = entries[t];
        let q = entry.query_index;
        proof {
            assert(vs[t as int] == (entry.query_index, entry.counter, color));
            assert(vs.take(t as int + 1).drop_last() =~= vs.take(t as int));
            assert(vs.take(t as int + 1).last() == vs[t as int]);
        }
        if 1 <= q && q <= counters.len() as u64 {
            let idx = (q - 1) as usize;
            let ghost before = counters@;
            let cur = counters[idx];
            let updated = sat_add(cur, entry.counter);
            counters.set(idx, updated);
            proof {
                lemma_sum_nonneg(vs.take(t as int), q);
                assert forall|j: int| 0 <= j < old(counters)@.len() implies counters@[j] as int
                    == sat64(
                    old(counters)@[j] + sum_for_query(vs.take(t as int + 1), (j + 1) as u64),
                ) by {
                    if j == idx {
                        lemma_sum_nonneg(vs.take(t as int), (j + 1) as u64);
                    } else {
                        assert(vs.take(t as int + 1).last().0 != (j + 1) as u64);
                        assert(sum_for_query(vs.take(t as int + 1), (j + 1) as u64)
                            == sum_for_query(vs.take(t as int), (j + 1) as u64));
                    }
                };
            }
        } else {
            proof {
                assert forall|j: int| 0 <= j < old(counters)@.len() implies counters@[j] as int
                    == sat64(
                    old(counters)@[j] + sum_for_query(vs.take(t as int + 1), (j + 1) as u64),
                ) by {
                    assert(vs.take(t as int + 1).last().0 != (j + 1) as u64);
                    assert(sum_for_query(vs.take(t as int + 1), (j + 1) as u64) == sum_for_query(
                        vs.take(t as int),
                        (j + 1) as u64,
                    ));
                };
            }
        }
        t = t + 1;
    }
    proof {
        assert(vs.take(entries@.len() as int) =~= vs);
    }
}

} // verus!
