//! Rendering the match summary and driving the counters-sorting stage.
//!
//! The stage's decisions live here: per-query totals become decimal summary
//! rows (index, matched, total, two-decimal ratio), and in colored mode the
//! merged entries are re-sharded into colored output buckets. The
//! surrounding shell only reads the input files, parallelizes over them,
//! and writes the rendered rows out.

use vstd::prelude::*;
use crate::counters::{
    CounterEntry, accumulate_counters, sat64, sort_counter_entries, sorted_entries,
    sum_for_query, lemma_sum_nonneg,
};
use crate::merge::{aggregate_entries, spec_merge_sorted};
use crate::records::{BucketItem, spec_decode_all, views_of};
use crate::buckets::{BucketsThreadBuffer, BucketsThreadDispatcher, MultiThreadBuckets};
use crate::segments::FinalizedBucket;
use crate::readers::{LockFreeBinaryReader, CompressedBinaryReader, RemoveFileMode};

verus! {

/// The decimal digit character for `d`.
pub open spec fn spec_digit_char(d: int) -> char {
    ((48 + d) as u8) as char
}

/// The decimal rendering of `n`: most significant digit first, no sign, no
/// leading zeros.
pub open spec fn spec_dec_digits(n: nat) -> Seq<char>
    decreases n,
{
    if n < 10 {
        seq![spec_digit_char(n as int)]
    } else {
        spec_dec_digits(n / 10) + seq![spec_digit_char((n % 10) as int)]
    }
}

/// Relies on u128's Display implementation: the decimal digits, most
/// significant first, no sign, no padding.
#[verifier::external_body]
fn u128_to_string(n: u128) -> (r: String)
    ensures
        r@ == spec_dec_digits(n as nat),
{
    n.to_string()
}

/// Relies on std's write formatting of two unsigned integers as
/// `"{}.{:02}"`: the first in plain decimal, a dot, the second zero-padded
/// to two decimal digits.
#[verifier::external_body]
fn ratio_to_string(whole: u128, hundredths: u64) -> (r: String)
    requires
        hundredths < 100,
    ensures
        r@ == spec_dec_digits(whole as nat) + seq![
            '.',
            spec_digit_char(hundredths as int / 10),
            spec_digit_char(hundredths as int % 10),
        ],
{
    format!("{}.{:02}", whole, hundredths)
}

/// The ratio `c / t` in rounded hundredths (round half up); zero when the
/// total is zero.
pub open spec fn spec_ratio_hundredths(c: int, t: int) -> int {
    if t == 0 {
        0
    } else {
        (200 * c + t) / (2 * t)
    }
}

/// The summary's ratio column: the rounded ratio with two decimal places.
pub open spec fn spec_ratio_string(c: int, t: int) -> Seq<char> {
    let h = spec_ratio_hundredths(c, t);
    spec_dec_digits((h / 100) as nat) + seq![
        '.',
        spec_digit_char((h % 100) / 10),
        spec_digit_char(h % 10),
    ]
}

/// One line of the tabular match summary.
pub struct SummaryRow {
    /// The query's index (0-based), in decimal.
    pub query_index: String,
    /// How many of the query's k-mers matched, in decimal.
    pub matched_kmers: String,
    /// How many k-mers the query has, in decimal.
    pub query_kmers: String,
    /// Matched over total, rounded to two decimal places.
    pub match_percentage: String,
}

/// Renders the per-query totals as summary rows: index, matched count,
/// total count, and the match ratio with two decimals.
pub fn summary_rows(query_kmers_count: &Vec<u64>, counters: &Vec<u64>) -> (r: Vec<SummaryRow>)
    requires
        counters@.len() == query_kmers_count@.len(),
    ensures
        r@.len() == counters@.len(),
        forall|i: int|
            0 <= i < r@.len() ==> {
                &&& (#[trigger] r@[i]).query_index@ == spec_dec_digits(i as nat)
                &&& r@[i].matched_kmers@ == spec_dec_digits(counters@[i] as nat)
                &&& r@[i].query_kmers@ == spec_dec_digits(query_kmers_count@[i] as nat)
                &&& r@[i].match_percentage@ == spec_ratio_string(
                    counters@[i] as int,
                    query_kmers_count@[i] as int,
                )
            },
{
    let mut rows: Vec<SummaryRow> = Vec::new();
    let mut i: usize = 0;
    while i < counters.len()
        invariant
            counters@.len() == query_kmers_count@.len(),
            i <= counters@.len(),
            rows@.len() == i,
            forall|k: int|
                0 <= k < i ==> {
                    &&& (#[trigger] rows@[k]).query_index@ == spec_dec_digits(k as nat)
                    &&& rows@[k].matched_kmers@ == spec_dec_digits(counters@[k] as nat)
                    &&& rows@[k].query_kmers@ == spec_dec_digits(query_kmers_count@[k] as nat)
                    &&& rows@[k].match_percentage@ == spec_ratio_string(
                        counters@[k] as int,
                        query_kmers_count@[k] as int,
                    )
                },
        decreases counters@.len() - i,
    {
        let c = counters[i];
        let t = query_kmers_count[i];
        let h: u128 = if t == 0 {
            0
        } else {
            (200u128 * c as u128 + t as u128) / (2u128 * t as u128)
        };
        proof {
            assert(h as int == spec_ratio_hundredths(c as int, t as int));
            assert(h as int % 100 < 100) by (nonlinear_arith);
            assert(h as int % 100 >= 0) by (nonlinear_arith);
            assert((h as int % 100) % 10 == h as int % 10) by (nonlinear_arith);
        }
        let hundredths: u64 = (h % 100) as u64;
        let row = SummaryRow {
            query_index: u128_to_string(i as u128),
            matched_kmers: u128_to_string(c as u128),
            query_kmers: u128_to_string(t as u128),
            match_percentage: ratio_to_string(h / 100, hundredths),
        };
        proof {
            assert(hundredths as int / 10 == (spec_ratio_hundredths(c as int, t as int) % 100)
                / 10);
            assert(hundredths as int % 10 == spec_ratio_hundredths(c as int, t as int) % 10)
                by (nonlinear_arith)
                requires hundredths as int == spec_ratio_hundredths(c as int, t as int) % 100;
            assert((h / 100) as nat == (spec_ratio_hundredths(c as int, t as int) / 100) as nat);
        }
        rows.push(row);
        i = i + 1;
    }
    rows
}

/// The record models of every entry in one sealed counters bucket.
pub open spec fn decoded_entries(b: FinalizedBucket) -> Seq<(u64, u64, u64)> {
    spec_decode_all::<CounterEntry>(b.content())
}

/// The record models of every entry across a list of counters buckets, in
/// file order.
pub open spec fn all_decoded(inputs: Seq<FinalizedBucket>) -> Seq<(u64, u64, u64)>
    decreases inputs.len(),
{
    if inputs.len() == 0 {
        Seq::empty()
    } else {
        all_decoded(inputs.drop_last()) + decoded_entries(inputs.last())
    }
}

proof fn lemma_sum_query_concat(a: Seq<(u64, u64, u64)>, b: Seq<(u64, u64, u64)>, q: u64)
    ensures
        sum_for_query(a + b, q) == sum_for_query(a, q) + sum_for_query(b, q),
    decreases b.len(),
{
    if b.len() == 0 {
        assert(a + b =~= a);
    } else {
        lemma_sum_query_concat(a, b.drop_last(), q);
        assert((a + b).drop_last() =~= a + b.drop_last());
        assert((a + b).last() == b.last());
    }
}

/// Entry pairs from decoded record models.
pub open spec fn entries_of_views(s: Seq<(u64, u64, u64)>) -> Seq<(CounterEntry, u64)> {
    s.map_values(
        |v: (u64, u64, u64)| (CounterEntry { query_index: v.0, counter: v.1 }, v.2),
    )
}

/// The bytes that land in colored output bucket `b` when the given merged
/// entries are re-sharded by color: each entry whose color falls in `b`
/// (color modulo bucket count) contributes its encoding, in entry order.
pub open spec fn routed_bytes(groups: Seq<(CounterEntry, u64)>, b: int, count: int) -> Seq<u8>
    decreases groups.len(),
{
    if groups.len() == 0 {
        Seq::empty()
    } else {
        routed_bytes(groups.drop_last(), b, count) + (if (groups.last().1 as int) % count == b {
            <CounterEntry as BucketItem>::spec_encode(
                (groups.last().0.query_index, groups.last().0.counter, groups.last().1),
            )
        } else {
            Seq::<u8>::empty()
        })
    }
}

/// The colored output of the stage is correct: per input file, some sorted
/// arrangement of exactly its decoded entries was merged per (query, color)
/// key, and every output bucket holds exactly the encodings of the merged
/// entries whose color it owns, in processing order.
pub open spec fn colored_result_ok(
    inputs: Seq<FinalizedBucket>,
    outs: Seq<FinalizedBucket>,
    count: int,
    perms: Seq<Seq<(CounterEntry, u64)>>,
    gss: Seq<Seq<(CounterEntry, u64)>>,
) -> bool {
    &&& perms.len() == inputs.len()
    &&& gss.len() == inputs.len()
    &&& forall|k: int|
        0 <= k < inputs.len() ==> {
            &&& sorted_entries(#[trigger] perms[k])
            &&& perms[k].to_multiset() == entries_of_views(
                decoded_entries(inputs[k]),
            ).to_multiset()
            &&& gss[k] == spec_merge_sorted(perms[k])
        }
    &&& outs.len() == count
    &&& forall|b: int|
        0 <= b < count ==> (#[trigger] outs[b]).content() == routed_bytes(gss.flatten(), b, count)
    &&& forall|b: int| 0 <= b < count ==> (#[trigger] outs[b]).index == b
}

/// The summary output of the stage is correct: row `i` reports query
/// `i + 1`'s saturated total over every input entry, the query's own k-mer
/// count, and their rounded ratio.
pub open spec fn summary_result_ok(
    inputs: Seq<FinalizedBucket>,
    kmers: Seq<u64>,
    rows: Seq<SummaryRow>,
) -> bool {
    &&& rows.len() == kmers.len()
    &&& forall|i: int|
        0 <= i < rows.len() ==> {
            let c = sat64(sum_for_query(all_decoded(inputs), (i + 1) as u64));
            &&& (#[trigger] rows[i]).query_index@ == spec_dec_digits(i as nat)
            &&& rows[i].matched_kmers@ == spec_dec_digits(c as nat)
            &&& rows[i].query_kmers@ == spec_dec_digits(kmers[i] as nat)
            &&& rows[i].match_percentage@ == spec_ratio_string(c, kmers[i] as int)
        }
}

/// What the counters-sorting stage hands back: the plain tabular summary,
/// or the colored buckets for the next stage.
pub enum CountersResult {
    /// Per-query totals rendered as summary rows (colors disabled).
    Summary(Vec<SummaryRow>),
    /// Merged entries re-sharded by color (colors enabled).
    ColoredBuckets(Vec<FinalizedBucket>),
}

/// Which colored output bucket a color belongs to.
pub fn color_bucket_index(color: u64, buckets_count: usize) -> (r: usize)
    requires
        buckets_count >= 1,
    ensures
        r as int == (color as int) % (buckets_count as int),
{
    (color % buckets_count as u64) as usize
}

/// The counters-sorting stage.
///
/// Reads every entry of every input bucket. Without colors, totals the
/// counters per query (1-based; saturating) and renders the summary rows.
/// With colors, merges each input's entries per (query, color) key and
/// re-shards the merged entries into `buckets_count` colored output
/// buckets by color. File I/O and the worker-pool parallelism over inputs
/// belong to the surrounding shell; this core processes the inputs in
/// order.
#[verifier::rlimit(60)]
pub fn counters_sorting(
    file_counters_inputs: Vec<FinalizedBucket>,
    colors_enabled: bool,
    buckets_count: usize,
    compression_level: u32,
    checkpoint_size: usize,
    per_thread_buffer_size: usize,
    query_kmers_count: &Vec<u64>,
) -> (r: CountersResult)
    requires
        1 <= checkpoint_size <= u32::MAX,
        colors_enabled ==> buckets_count >= 1,
    ensures
        !colors_enabled ==> (r matches CountersResult::Summary(rows) && summary_result_ok(
            file_counters_inputs@,
            query_kmers_count@,
            rows@,
        )),
        colors_enabled ==> (r matches CountersResult::ColoredBuckets(outs) && exists|
            perms: Seq<Seq<(CounterEntry, u64)>>,
            gss: Seq<Seq<(CounterEntry, u64)>>,
        |
            colored_result_ok(
                file_counters_inputs@,
                outs@,
                buckets_count as int,
                perms,
                gss,
            )),
{
    let ghost inputs0 = file_counters_inputs@;
    let mut inputs = file_counters_inputs;
    let total = inputs.len();
    if !colors_enabled {
        let mut counters: Vec<u64> = Vec::new();
        let mut z: usize = 0;
        while z < query_kmers_count.len()
            invariant
                counters@.len() == z,
                z <= query_kmers_count@.len(),
                forall|j: int| 0 <= j < z ==> counters@[j] == 0,
            decreases query_kmers_count@.len() - z,
        {
            counters.push(0);
            z = z + 1;
        }
        let mut k: usize = 0;
        proof {
            assert(all_decoded(inputs0.take(0)) =~= Seq::<(u64, u64, u64)>::empty());
            assert(forall|j: int|
                0 <= j < counters@.len() ==> counters@[j] as int == sat64(
                    sum_for_query(all_decoded(inputs0.take(0)), (j + 1) as u64),
                ));
        }
        while k < total
            invariant
                total == inputs0.len(),
                k <= total,
                inputs@ == inputs0.skip(k as int),
                counters@.len() == query_kmers_count@.len(),
                forall|j: int|
                    0 <= j < counters@.len() ==> counters@[j] as int == sat64(
                        sum_for_query(all_decoded(inputs0.take(k as int)), (j + 1) as u64),
                    ),
            decreases total - k,
        {
            let bucket = inputs.remove(0);
            proof {
                assert(bucket == inputs0[k as int]);
                assert(inputs@ =~= inputs0.skip(k as int + 1));
            }
            let entries: Vec<(CounterEntry, u64)> = if bucket.store.compressed() {
                let reader = CompressedBinaryReader::new(bucket, RemoveFileMode::Keep, None);
                reader.decode_all_bucket_items::<CounterEntry>()
            } else {
                let reader = LockFreeBinaryReader::new(bucket, RemoveFileMode::Keep, None);
                reader.decode_all_bucket_items::<CounterEntry>()
            };
            let ghost before = counters@;
            accumulate_counters(&mut counters, &entries);
            proof {
                assert(inputs0.take(k as int + 1).drop_last() =~= inputs0.take(k as int));
                assert(inputs0.take(k as int + 1).last() == inputs0[k as int]);
                assert(views_of::<CounterEntry>(entries@) == decoded_entries(inputs0[k as int]));
                assert forall|j: int| 0 <= j < counters@.len() implies counters@[j] as int
                    == sat64(
                    sum_for_query(all_decoded(inputs0.take(k as int + 1)), (j + 1) as u64),
                ) by {
                    let q = (j + 1) as u64;
                    let a = all_decoded(inputs0.take(k as int));
                    let b = decoded_entries(inputs0[k as int]);
                    lemma_sum_query_concat(a, b, q);
                    lemma_sum_nonneg(a, q);
                    lemma_sum_nonneg(b, q);
                };
            }
            k = k + 1;
        }
        proof {
            assert(inputs0.take(total as int) =~= inputs0);
        }
        let rows = summary_rows(query_kmers_count, &counters);
        CountersResult::Summary(rows)
    } else {
        let mut buckets = MultiThreadBuckets::new(buckets_count, compression_level, checkpoint_size);
        let mut dispatcher = BucketsThreadDispatcher::new(
            BucketsThreadBuffer::new(per_thread_buffer_size, buckets_count),
        );
        let ghost mut perms: Seq<Seq<(CounterEntry, u64)>> = Seq::empty();
        let ghost mut gss: Seq<Seq<(CounterEntry, u64)>> = Seq::empty();
        let ghost mut flat: Seq<(CounterEntry, u64)> = Seq::empty();
        let mut k: usize = 0;
        proof {
            assert(gss.flatten() =~= Seq::<(CounterEntry, u64)>::empty());
            assert(forall|b: int|
                0 <= b < buckets_count ==> dispatcher.total_content(buckets, b)
                    =~= routed_bytes(flat, b, buckets_count as int));
        }
        while k < total
            invariant
                buckets_count >= 1,
                total == inputs0.len(),
                k <= total,
                inputs@ == inputs0.skip(k as int),
                dispatcher.matches(buckets),
                buckets.count() == buckets_count,
                buckets.compression_enabled() == (compression_level > 0),
                perms.len() == k,
                gss.len() == k,
                flat == gss.flatten(),
                forall|j: int|
                    0 <= j < k ==> {
                        &&& sorted_entries(#[trigger] perms[j])
                        &&& perms[j].to_multiset() == entries_of_views(
                            decoded_entries(inputs0[j]),
                        ).to_multiset()
                        &&& gss[j] == spec_merge_sorted(perms[j])
                    },
                forall|b: int|
                    0 <= b < buckets_count ==> #[trigger] dispatcher.total_content(buckets, b)
                        == routed_bytes(flat, b, buckets_count as int),
            decreases total - k,
        {
            let bucket = inputs.remove(0);
            proof {
                assert(bucket == inputs0[k as int]);
                assert(inputs@ =~= inputs0.skip(k as int + 1));
            }
            let entries: Vec<(CounterEntry, u64)> = if bucket.store.compressed() {
                let reader = CompressedBinaryReader::new(bucket, RemoveFileMode::Keep, None);
                reader.decode_all_bucket_items::<CounterEntry>()
            } else {
                let reader = LockFreeBinaryReader::new(bucket, RemoveFileMode::Keep, None);
                reader.decode_all_bucket_items::<CounterEntry>()
            };
            proof {
                assert(views_of::<CounterEntry>(entries@) == decoded_entries(inputs0[k as int]));
                assert(entries@ =~= entries_of_views(views_of::<CounterEntry>(entries@)));
            }
            let sorted = sort_counter_entries(entries);
            let groups = aggregate_entries(&sorted);
            let ghost flat0 = flat;
            let ghost groups_seq = groups@;
            let n = groups.len();
            let mut g: usize = 0;
            while g < n
                invariant
                    buckets_count >= 1,
                    n == groups_seq.len(),
                    g <= n,
                    groups@ == groups_seq,
                    dispatcher.matches(buckets),
                    buckets.count() == buckets_count,
                    buckets.compression_enabled() == (compression_level > 0),
                    flat == flat0 + groups_seq.take(g as int),
                    forall|b: int|
                        0 <= b < buckets_count ==> #[trigger] dispatcher.total_content(buckets, b)
                            == routed_bytes(flat, b, buckets_count as int),
                decreases n - g,
            {
                let (entry, color) = groups[g];
                let idx = color_bucket_index(color, buckets_count);
                let ghost flat_pre = flat;
                dispatcher.add_element::<CounterEntry>(&mut buckets, idx, &color, &entry);
                proof {
                    flat = flat.push(groups_seq[g as int]);
                    assert(flat.drop_last() =~= flat_pre);
                    assert(flat.last() == groups_seq[g as int]);
                    assert(flat =~= flat0 + groups_seq.take(g as int + 1));
                    assert(<CounterEntry as BucketItem>::spec_encode(
                        entry.view_with(&color),
                    ) == <CounterEntry as BucketItem>::spec_encode(
                        (entry.query_index, entry.counter, color),
                    ));
                    assert forall|b: int| 0 <= b < buckets_count implies
                        #[trigger] dispatcher.total_content(buckets, b) == routed_bytes(
                        flat,
                        b,
                        buckets_count as int,
                    ) by {
                        if b == idx {
                        } else {
                            assert(routed_bytes(flat, b, buckets_count as int) == routed_bytes(
                                flat_pre,
                                b,
                                buckets_count as int,
                            ));
                        }
                    };
                }
                g = g + 1;
            }
            proof {
                perms = perms.push(sorted@);
                let ghost gss0 = gss;
                gss = gss.push(groups_seq);
                gss0.lemma_flatten_push(groups_seq);
                assert(groups_seq.take(n as int) =~= groups_seq);
                assert(flat =~= gss.flatten());
            }
            k = k + 1;
        }
        let emptied = dispatcher.finalize(&mut buckets);
        let outs = buckets.finalize();
        proof {
            assert(inputs0.take(total as int) =~= inputs0);
            assert(colored_result_ok(
                inputs0,
                outs@,
                buckets_count as int,
                perms,
                gss,
            ));
            assert(inputs0 == file_counters_inputs@);
        }
        let r = CountersResult::ColoredBuckets(outs);
        proof {
            assert(r matches CountersResult::ColoredBuckets(o2) && colored_result_ok(
                file_counters_inputs@,
                o2@,
                buckets_count as int,
                perms,
                gss,
            ));
            assert(r matches CountersResult::ColoredBuckets(o2) && exists|
                p2: Seq<Seq<(CounterEntry, u64)>>,
                g2: Seq<Seq<(CounterEntry, u64)>>,
            | colored_result_ok(file_counters_inputs@, o2@, buckets_count as int, p2, g2));
        }
        r
    }
}


} // verus!
