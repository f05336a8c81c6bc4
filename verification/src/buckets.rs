//! Sharded bucket writer.
//!
//! A bucket set owns N buckets sharing one compression policy and checkpoint
//! size; callers append raw record bytes to the bucket of their choice (the
//! sharding key is the caller's business, beyond `index < count`). Worker
//! threads stage records in a thread-local buffer and flush a bucket's
//! staging only when it fills, so cross-thread contention is confined to the
//! flush boundary; the shell that shares one bucket set across threads locks
//! only around the flush calls. Finalize seals every bucket exactly once and
//! hands out the finished segment lists.

use vstd::prelude::*;
use crate::records::{push_all, copy_range, BucketItem};
use crate::segments::{SegmentStore, FinalizedBucket, lemma_flatten_push};

verus! {

/// A set of N buckets being written, each a segment store plus the bytes
/// not yet sealed into a checkpoint segment.
pub struct MultiThreadBuckets {
    stores: Vec<SegmentStore>,
    pendings: Vec<Vec<u8>>,
    checkpoint_size: usize,
    compressed: bool,
}

impl MultiThreadBuckets {
    /// Internal consistency: one pending buffer per store, every store on
    /// the set's compression policy, and no pending buffer ever reaches a
    /// full checkpoint.
    pub closed spec fn wf(self) -> bool {
        &&& self.stores@.len() == self.pendings@.len()
        &&& 1 <= self.checkpoint_size <= u32::MAX
        &&& forall|i: int|
            0 <= i < self.stores@.len()
                ==> (#[trigger] self.stores@[i]).is_compressed() == self.compressed
        &&& forall|i: int|
            0 <= i < self.pendings@.len()
                ==> (#[trigger] self.pendings@[i])@.len() < self.checkpoint_size
    }

    /// How many buckets the set holds.
    pub closed spec fn count(self) -> int {
        self.stores@.len() as int
    }

    /// Whether bucket contents are sealed into compressed checkpoint
    /// segments.
    pub closed spec fn compression_enabled(self) -> bool {
        self.compressed
    }

    /// Everything appended to bucket `i` so far, in order.
    pub closed spec fn bucket_content(self, i: int) -> Seq<u8> {
        self.stores@[i].content() + self.pendings@[i]@
    }

    /// A fresh set of `count` empty buckets. A compression level of zero
    /// disables compression; checkpoint segments are cut at
    /// `checkpoint_size` bytes.
    pub fn new(count: usize, compression_level: u32, checkpoint_size: usize) -> (r: Self)
        requires
            1 <= checkpoint_size <= u32::MAX,
        ensures
            r.wf(),
            r.count() == count,
            r.compression_enabled() == (compression_level > 0),
            forall|i: int| 0 <= i < count ==> r.bucket_content(i) == Seq::<u8>::empty(),
    {
        let compressed = compression_level > 0;
        let mut stores: Vec<SegmentStore> = Vec::new();
        let mut pendings: Vec<Vec<u8>> = Vec::new();
        let mut i: usize = 0;
        while i < count
            invariant
                stores@.len() == i,
                pendings@.len() == i,
                i <= count,
                forall|j: int| 0 <= j < i ==> (#[trigger] stores@[j]).is_compressed() == compressed,
                forall|j: int|
                    0 <= j < i ==> (#[trigger] stores@[j]).chunk_seqs() == Seq::<Seq<u8>>::empty(),
                forall|j: int| 0 <= j < i ==> (#[trigger] pendings@[j])@.len() == 0,
            decreases count - i,
        {
            stores.push(SegmentStore::new(compressed));
            pendings.push(Vec::new());
            i = i + 1;
        }
        let r = MultiThreadBuckets { stores, pendings, checkpoint_size, compressed };
        proof {
            assert(forall|i: int|
                0 <= i < count ==> r.bucket_content(i) =~= Seq::<u8>::empty());
        }
        r
    }

    /// How many buckets the set holds.
    pub fn bucket_count(&self) -> (r: usize)
        requires
            self.wf(),
        ensures
            r == self.count(),
    {
        self.stores.len()
    }

    /// Appends `data` to bucket `index`, sealing full checkpoint segments as
    /// they accumulate. Every other bucket is untouched.
    pub fn add_data(&mut self, index: usize, data: &Vec<u8>)
        requires
            old(self).wf(),
            index < old(self).count(),
        ensures
            final(self).wf(),
            final(self).count() == old(self).count(),
            final(self).compression_enabled() == old(self).compression_enabled(),
            final(self).bucket_content(index as int) == old(self).bucket_content(index as int)
                + data@,
            forall|j: int|
                0 <= j < old(self).count() && j != index ==> final(self).bucket_content(j)
                    == old(self).bucket_content(j),
    {
        let ghost orig = old(self).bucket_content(index as int);
        let mut p: Vec<u8> = Vec::new();
        std::mem::swap(&mut p, &mut self.pendings[index]);
        let mut st = SegmentStore::new(self.compressed);
        std::mem::swap(&mut st, &mut self.stores[index]);
        push_all(&mut p, data);
        let cs = self.checkpoint_size;
        while p.len() >= cs
            invariant
                st.content() + p@ == orig + data@,
                st.is_compressed() == self.compressed,
                1 <= cs <= u32::MAX,
            decreases p@.len(),
        {
            let chunk = copy_range(&p, 0, cs);
            let rest = copy_range(&p, cs, p.len());
            proof {
                lemma_flatten_push(st.chunk_seqs(), chunk@);
                assert(chunk@ + rest@ =~= p@);
            }
            st.push_chunk(chunk);
            p = rest;
            proof {
                assert(st.content() + p@ =~= orig + data@);
            }
        }
        std::mem::swap(&mut p, &mut self.pendings[index]);
        std::mem::swap(&mut st, &mut self.stores[index]);
        proof {
            assert(final(self).bucket_content(index as int) =~= orig + data@);
        }
    }

    /// Seals every bucket — the bytes still pending become one last
    /// checkpoint segment — and hands out the finished buckets, in index
    /// order. Consumes the set: each bucket set is finalized exactly once.
    pub fn finalize(self) -> (r: Vec<FinalizedBucket>)
        requires
            self.wf(),
        ensures
            r@.len() == self.count(),
            forall|i: int|
                0 <= i < self.count() ==> (#[trigger] r@[i]).content() == self.bucket_content(i),
            forall|i: int| 0 <= i < self.count() ==> (#[trigger] r@[i]).index == i,
            forall|i: int|
                0 <= i < self.count() ==> (#[trigger] r@[i]).store.is_compressed()
                    == self.compression_enabled(),
    {
        let MultiThreadBuckets { mut stores, mut pendings, checkpoint_size, compressed } = self;
        let ghost me = self;
        let mut out: Vec<FinalizedBucket> = Vec::new();
        let count = stores.len();
        let mut i: usize = 0;
        while i < count
            invariant
                me.wf(),
                count == me.count(),
                out@.len() == i,
                i <= count,
                stores@ == me.stores@.skip(i as int),
                pendings@ == me.pendings@.skip(i as int),
                forall|j: int|
                    0 <= j < i ==> (#[trigger] out@[j]).content() == me.bucket_content(j),
                forall|j: int| 0 <= j < i ==> (#[trigger] out@[j]).index == j,
                forall|j: int|
                    0 <= j < i ==> (#[trigger] out@[j]).store.is_compressed()
                        == me.compression_enabled(),
            decreases count - i,
        {
            let mut st = stores.remove(0);
            let pending = pendings.remove(0);
            proof {
                assert(st == me.stores@[i as int]);
                assert(pending == me.pendings@[i as int]);
                assert(stores@ =~= me.stores@.skip(i as int + 1));
                assert(pendings@ =~= me.pendings@.skip(i as int + 1));
            }
            if pending.len() > 0 {
                proof {
                    lemma_flatten_push(st.chunk_seqs(), pending@);
                }
                st.push_chunk(pending);
            } else {
                proof {
                    assert(st.content() + pending@ =~= st.content());
                }
            }
            out.push(FinalizedBucket { index: i, store: st });
            i = i + 1;
        }
        out
    }
}

/// Per-thread staging: one growing byte buffer per bucket, flushed into the
/// shared bucket set only when it reaches its size limit.
pub struct BucketsThreadBuffer {
    staged: Vec<Vec<u8>>,
    max_size: usize,
}

impl BucketsThreadBuffer {
    /// How many buckets this buffer stages for.
    pub closed spec fn count(self) -> int {
        self.staged@.len() as int
    }

    /// The bytes staged for bucket `i` and not yet flushed.
    pub closed spec fn staged_content(self, i: int) -> Seq<u8> {
        self.staged@[i]@
    }

    /// A fresh, empty staging buffer for `count` buckets, flushing each
    /// bucket's staging once it reaches `max_size` bytes.
    pub fn new(max_size: usize, count: usize) -> (r: Self)
        ensures
            r.count() == count,
            forall|i: int| 0 <= i < count ==> r.staged_content(i) == Seq::<u8>::empty(),
    {
        let mut staged: Vec<Vec<u8>> = Vec::new();
        let mut i: usize = 0;
        while i < count
            invariant
                staged@.len() == i,
                i <= count,
                forall|j: int| 0 <= j < i ==> (#[trigger] staged@[j])@.len() == 0,
            decreases count - i,
        {
            staged.push(Vec::new());
            i = i + 1;
        }
        BucketsThreadBuffer { staged, max_size }
    }
}

/// A thread's handle for writing records: stages encodings locally and
/// flushes a bucket's staging into the shared set when it fills.
pub struct BucketsThreadDispatcher {
    buffer: BucketsThreadBuffer,
}

impl BucketsThreadDispatcher {
    /// One staging buffer per bucket of the target set.
    pub open spec fn matches(self, buckets: MultiThreadBuckets) -> bool {
        &&& buckets.wf()
        &&& self.buffer_view().count() == buckets.count()
    }

    /// Everything routed to bucket `i` through this dispatcher or already in
    /// the bucket: the flushed bytes followed by the staged bytes.
    pub open spec fn total_content(self, buckets: MultiThreadBuckets, i: int) -> Seq<u8> {
        buckets.bucket_content(i) + self.buffer_view().staged_content(i)
    }

    /// Wraps a staging buffer for use against a bucket set.
    pub fn new(buffer: BucketsThreadBuffer) -> (r: Self)
        ensures
            r.buffer_view() == buffer,
    {
        BucketsThreadDispatcher { buffer }
    }

    /// The staging buffer inside.
    pub closed spec fn buffer_view(self) -> BucketsThreadBuffer {
        self.buffer
    }

    /// Appends one record (and its extra data) to bucket `index`: the
    /// encoding lands at the end of that bucket's staged-plus-flushed byte
    /// stream, and every other bucket is untouched.
    pub fn add_element<E: BucketItem>(
        &mut self,
        buckets: &mut MultiThreadBuckets,
        index: usize,
        extra: &E::ExtraData,
        element: &E,
    )
        requires
            old(self).matches(*old(buckets)),
            index < old(buckets).count(),
        ensures
            final(self).matches(*final(buckets)),
            final(buckets).count() == old(buckets).count(),
            final(buckets).compression_enabled() == old(buckets).compression_enabled(),
            final(self).total_content(*final(buckets), index as int) == old(self).total_content(
                *old(buckets),
                index as int,
            ) + E::spec_encode(element.view_with(extra)),
            forall|j: int|
                0 <= j < old(buckets).count() && j != index ==> final(self).total_content(
                    *final(buckets),
                    j,
                ) == old(self).total_content(*old(buckets), j),
    {
        let ghost enc = E::spec_encode(element.view_with(extra));
        let mut b: Vec<u8> = Vec::new();
        std::mem::swap(&mut b, &mut self.buffer.staged[index]);
        element.write_to(&mut b, extra);
        if b.len() >= self.buffer.max_size {
            buckets.add_data(index, &b);
            b.clear();
        }
        std::mem::swap(&mut b, &mut self.buffer.staged[index]);
        proof {
            assert(final(self).total_content(*final(buckets), index as int) =~= old(
                self,
            ).total_content(*old(buckets), index as int) + enc);
        }
    }

    /// Flushes everything still staged into the bucket set and returns the
    /// emptied staging buffer for reuse.
    pub fn finalize(self, buckets: &mut MultiThreadBuckets) -> (r: BucketsThreadBuffer)
        requires
            self.matches(*old(buckets)),
        ensures
            final(buckets).wf(),
            final(buckets).count() == old(buckets).count(),
            final(buckets).compression_enabled() == old(buckets).compression_enabled(),
            forall|i: int|
                0 <= i < old(buckets).count() ==> final(buckets).bucket_content(i)
                    == self.total_content(*old(buckets), i),
            r.count() == self.buffer_view().count(),
            forall|i: int|
                0 <= i < r.count() ==> r.staged_content(i) == Seq::<u8>::empty(),
    {
        let BucketsThreadDispatcher { buffer } = self;
        let BucketsThreadBuffer { mut staged, max_size } = buffer;
        let ghost me = self;
        let count = staged.len();
        let mut out_staged: Vec<Vec<u8>> = Vec::new();
        let mut i: usize = 0;
        while i < count
            invariant
                buckets.wf(),
                buckets.count() == old(buckets).count(),
                buckets.compression_enabled() == old(buckets).compression_enabled(),
                count == me.buffer_view().count(),
                count == old(buckets).count(),
                i <= count,
                staged@ == me.buffer_view().staged_view().skip(i as int),
                out_staged@.len() == i,
                forall|j: int| 0 <= j < i ==> (#[trigger] out_staged@[j])@.len() == 0,
                forall|j: int|
                    0 <= j < i ==> #[trigger] buckets.bucket_content(j) == me.total_content(
                        *old(buckets),
                        j,
                    ),
                forall|j: int|
                    i <= j < count ==> #[trigger] buckets.bucket_content(j) == old(
                        buckets,
                    ).bucket_content(j),
            decreases count - i,
        {
            let mut b = staged.remove(0);
            proof {
                assert(b == me.buffer_view().staged_view()[i as int]);
                assert(staged@ =~= me.buffer_view().staged_view().skip(i as int + 1));
            }
            if b.len() > 0 {
                buckets.add_data(i, &b);
                b.clear();
            } else {
                proof {
                    assert(buckets.bucket_content(i as int) + b@ =~= buckets.bucket_content(
                        i as int,
                    ));
                }
            }
            proof {
                assert(buckets.bucket_content(i as int) == me.total_content(
                    *old(buckets),
                    i as int,
                ));
            }
            out_staged.push(b);
            i = i + 1;
        }
        BucketsThreadBuffer { staged: out_staged, max_size }
    }
}

impl BucketsThreadBuffer {
    /// The staged byte buffers, bucket by bucket.
    pub closed spec fn staged_view(self) -> Seq<Vec<u8>> {
        self.staged@
    }
}

/// One upstream shard being re-bucketed: the bucket set that its records
/// are being distributed into, plus the identifier that names the set's
/// output. Identifiers are injected by the caller, so parallel pipelines
/// stay isolated.
pub struct BucketProcessData {
    /// The bucket set the shard's records are distributed into.
    pub buckets: MultiThreadBuckets,
    /// Caller-chosen identifier naming this set's output.
    pub queue_id: u64,
}

impl BucketProcessData {
    /// A fresh re-bucketing state with caller-injected identifier.
    pub fn new(queue_id: u64, count: usize, compression_level: u32, checkpoint_size: usize) -> (r:
        Self)
        requires
            1 <= checkpoint_size <= u32::MAX,
        ensures
            r.buckets.wf(),
            r.buckets.count() == count,
            r.queue_id == queue_id,
            forall|i: int| 0 <= i < count ==> r.buckets.bucket_content(i) == Seq::<u8>::empty(),
    {
        BucketProcessData {
            buckets: MultiThreadBuckets::new(count, compression_level, checkpoint_size),
            queue_id,
        }
    }

    /// Seals the bucket set and pushes every finished bucket onto the
    /// caller's queue, in index order.
    pub fn finish(self, vecs_queue: &mut Vec<FinalizedBucket>)
        requires
            self.buckets.wf(),
        ensures
            final(vecs_queue)@.len() == old(vecs_queue)@.len() + self.buckets.count(),
            forall|j: int|
                0 <= j < old(vecs_queue)@.len() ==> #[trigger] final(vecs_queue)@[j] == old(
                    vecs_queue,
                )@[j],
            forall|i: int|
                0 <= i < self.buckets.count() ==> (#[trigger] final(vecs_queue)@[old(
                    vecs_queue,
                )@.len() + i]).content() == self.buckets.bucket_content(i),
            forall|i: int|
                0 <= i < self.buckets.count() ==> (#[trigger] final(vecs_queue)@[old(
                    vecs_queue,
                )@.len() + i]).index == i,
    {
        let finished = self.buckets.finalize();
        let mut k: usize = 0;
        let n = finished.len();
        let ghost fin = finished@;
        let mut finished = finished;
        while k < n
            invariant
                n == fin.len(),
                k <= n,
                finished@ == fin.skip(k as int),
                vecs_queue@ == old(vecs_queue)@ + fin.take(k as int),
            decreases n - k,
        {
            let b = finished.remove(0);
            proof {
                assert(b == fin[k as int]);
                assert(finished@ =~= fin.skip(k as int + 1));
            }
            vecs_queue.push(b);
            k = k + 1;
            proof {
                assert(vecs_queue@ =~= old(vecs_queue)@ + fin.take(k as int));
            }
        }
    }
}

} // verus!
