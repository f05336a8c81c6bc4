//! Double-buffered background bucket reading, as a verified sequential core.
//!
//! One instance services one bucket at a time. A bounded pool of reusable
//! byte buffers caps memory at `buffers_count x buffers_size`: the filler
//! side takes an empty buffer from the pool, fills it from the open bucket's
//! parallel streams (crossing checkpoint boundaries transparently), and
//! queues it; the consumer side drains queued buffers in order and returns
//! each to the pool. A zero-length buffer marks the end of the bucket and
//! resets the instance so the next bucket can be opened.
//!
//! The blocking shell around this core lives outside the crate: a dedicated
//! thread calls [`AsyncReaderThread::fill_next_buffer`] under a lock,
//! waiting on a condition variable while no file is open, and consumers
//! block on the queue. Every transition those threads take is one of the
//! verified steps here, so the shell adds scheduling, never behavior.

use vstd::prelude::*;
use crate::readers::{
    BucketSegmentStream, CompressedBinaryReader, LockFreeBinaryReader, min_len,
};
use crate::records::{push_all, BucketItem, decode_all_items, views_of, spec_decode_all};
use crate::segments::FinalizedBucket;

verus! {

/// The bucket an async reader instance is currently servicing: none, a
/// plain one, or a compressed one. At most one bucket is ever open per
/// instance; opening over a still-open bucket is a contract violation.
pub enum OpenedFile {
    /// No bucket is being serviced.
    Inactive,
    /// A plain bucket is open.
    Plain(LockFreeBinaryReader),
    /// A compressed bucket is open.
    Compressed(CompressedBinaryReader),
}

impl OpenedFile {
    /// Whether a bucket is open.
    pub open spec fn is_active(self) -> bool {
        !(self is Inactive)
    }

    /// The open reader is internally consistent.
    pub open spec fn wf(self) -> bool {
        match self {
            OpenedFile::Inactive => true,
            OpenedFile::Plain(r) => r.wf(),
            OpenedFile::Compressed(r) => r.wf(),
        }
    }

    /// The bytes the open bucket has not yet handed out.
    pub open spec fn remaining(self) -> Seq<u8> {
        match self {
            OpenedFile::Inactive => Seq::empty(),
            OpenedFile::Plain(r) => r.remaining(),
            OpenedFile::Compressed(r) => r.remaining(),
        }
    }

    /// The next parallel read stream of the open bucket, or nothing when it
    /// is exhausted (or no bucket is open).
    fn get_stream(&mut self) -> (r: Option<BucketSegmentStream>)
        requires
            old(self).wf(),
        ensures
            final(self).wf(),
            final(self).is_active() == old(self).is_active(),
            match r {
                Some(s) => {
                    &&& s.wf()
                    &&& s.remaining().len() > 0
                    &&& old(self).remaining() == s.remaining() + final(self).remaining()
                },
                None => {
                    &&& *final(self) == *old(self)
                    &&& old(self).remaining().len() == 0
                },
            },
    {
        match self {
            OpenedFile::Inactive => None,
            OpenedFile::Plain(r) => r.get_read_parallel_stream(),
            OpenedFile::Compressed(r) => r.get_read_parallel_stream(),
        }
    }
}

/// The sequential core of one background-reader instance: the buffer pool,
/// the queue of filled buffers, the open bucket, and the stream being
/// drained within it.
pub struct AsyncReaderThread {
    buffers_size: usize,
    buffers_count: usize,
    buffers_pool: Vec<Vec<u8>>,
    filled: Vec<Vec<u8>>,
    lent: usize,
    opened_file: OpenedFile,
    current_stream: Option<BucketSegmentStream>,
}

impl AsyncReaderThread {
    /// The buffer accounting invariant: every buffer is in the pool, in the
    /// filled queue, or lent to the consumer — never lost, never duplicated
    /// — and a zero-length end marker can only sit last in the queue, only
    /// once the bucket is done.
    pub closed spec fn wf(self) -> bool {
        &&& self.buffers_size >= 1
        &&& self.buffers_count >= 1
        &&& self.buffers_pool@.len() + self.filled@.len() + self.lent == self.buffers_count
        &&& forall|i: int|
            0 <= i < self.filled@.len() ==> (#[trigger] self.filled@[i])@.len()
                <= self.buffers_size
        &&& forall|i: int|
            0 <= i < self.filled@.len() - 1 ==> (#[trigger] self.filled@[i])@.len() > 0
        &&& (self.end_queued() ==> !self.is_file_open())
        &&& self.opened_file.wf()
        &&& match self.current_stream {
            Some(s) => s.wf() && s.remaining().len() > 0 && self.opened_file.is_active(),
            None => true,
        }
    }

    /// Whether a bucket is currently open on this instance.
    pub closed spec fn is_file_open(self) -> bool {
        self.opened_file.is_active()
    }

    /// Whether the end-of-bucket marker is sitting in the filled queue.
    pub closed spec fn end_queued(self) -> bool {
        self.filled@.len() > 0 && self.filled@.last()@.len() == 0
    }

    /// The bytes filled and queued but not yet drained by the consumer.
    pub closed spec fn queued(self) -> Seq<u8> {
        self.filled@.map_values(|b: Vec<u8>| b@).flatten()
    }

    /// The bytes of the open bucket not yet pulled into any buffer.
    pub closed spec fn source_remaining(self) -> Seq<u8> {
        (match self.current_stream {
            Some(s) => s.remaining(),
            None => Seq::empty(),
        }) + self.opened_file.remaining()
    }

    /// Ready for the next `read_bucket` call: no bucket open, the previous
    /// one fully drained, every buffer back in the pool.
    pub closed spec fn is_ready(self) -> bool {
        &&& !self.is_file_open()
        &&& self.current_stream is None
        &&& self.filled@.len() == 0
        &&& self.lent == 0
    }

    /// Configured buffer size.
    pub closed spec fn size_spec(self) -> int {
        self.buffers_size as int
    }

    /// Configured buffer count.
    pub closed spec fn count_spec(self) -> int {
        self.buffers_count as int
    }

    /// Buffers currently sitting free in the pool.
    pub closed spec fn pool_available(self) -> int {
        self.buffers_pool@.len() as int
    }

    /// A fresh instance with `buffers_count` reusable buffers of
    /// `buffers_size` bytes each — the hard cap on memory this instance
    /// holds.
    pub fn new(buffers_size: usize, buffers_count: usize) -> (r: Self)
        requires
            buffers_size >= 1,
            buffers_count >= 1,
        ensures
            r.wf(),
            r.is_ready(),
            r.size_spec() == buffers_size,
            r.count_spec() == buffers_count,
            r.pool_available() == buffers_count,
    {
        let mut buffers_pool: Vec<Vec<u8>> = Vec::new();
        let mut i: usize = 0;
        while i < buffers_count
            invariant
                buffers_pool@.len() == i,
                i <= buffers_count,
            decreases buffers_count - i,
        {
            buffers_pool.push(Vec::new());
            i = i + 1;
        }
        let r = AsyncReaderThread {
            buffers_size,
            buffers_count,
            buffers_pool,
            filled: Vec::new(),
            lent: 0,
            opened_file: OpenedFile::Inactive,
            current_stream: None,
        };
        proof {
            assert(r.filled@.map_values(|b: Vec<u8>| b@) =~= Seq::<Seq<u8>>::empty());
        }
        r
    }

    /// Buffers currently free in the pool.
    pub fn available_buffers(&self) -> (r: usize)
        ensures
            r == self.pool_available(),
    {
        self.buffers_pool.len()
    }

    /// Whether a bucket is currently open.
    pub fn file_open(&self) -> (r: bool)
        ensures
            r == self.is_file_open(),
    {
        match self.opened_file {
            OpenedFile::Inactive => false,
            _ => true,
        }
    }

    /// One filler step: takes an empty buffer from the pool, fills it from
    /// the open bucket (crossing checkpoint streams as needed), and queues
    /// it. A zero-length fill marks the end of the bucket and closes it, so
    /// the next `read_bucket` can proceed once the consumer drains the
    /// queue. The blocking shell runs exactly this step on its background
    /// thread whenever the pool is nonempty and a file is open.
    pub fn fill_next_buffer(&mut self)
        requires
            old(self).wf(),
            old(self).is_file_open(),
            old(self).pool_available() > 0,
        ensures
            final(self).wf(),
            final(self).size_spec() == old(self).size_spec(),
            final(self).count_spec() == old(self).count_spec(),
            final(self).lent_spec() == old(self).lent_spec(),
            final(self).pool_available() == old(self).pool_available() - 1,
            final(self).filled_len() == old(self).filled_len() + 1,
            ({
                let produced = min_len(old(self).size_spec(), old(self).source_remaining().len() as int);
                &&& final(self).queued() == old(self).queued() + old(self).source_remaining().take(
                    produced,
                )
                &&& final(self).source_remaining() == old(self).source_remaining().skip(produced)
                &&& final(self).end_queued() == (produced == 0)
                &&& final(self).is_file_open() == (produced != 0)
            }),
    {
        let ghost orig_src = old(self).source_remaining();
        let mut buffer = match self.buffers_pool.pop() {
            Some(b) => b,
            None => {
                proof {
                    assert(false);
                }
                Vec::new()
            },
        };
        buffer.clear();
        let size = self.buffers_size;
        loop
            invariant
                self.buffers_size == old(self).buffers_size,
                self.buffers_count == old(self).buffers_count,
                self.buffers_pool@ == old(self).buffers_pool@.subrange(
                    0,
                    old(self).buffers_pool@.len() - 1,
                ),
                self.filled@ == old(self).filled@,
                self.lent == old(self).lent,
                self.opened_file.wf(),
                self.opened_file.is_active(),
                match self.current_stream {
                    Some(s) => s.wf() && s.remaining().len() > 0,
                    None => true,
                },
                size == self.buffers_size,
                buffer@.len() <= size,
                buffer@ + self.source_remaining() == orig_src,
            ensures
                buffer@.len() == size || self.source_remaining().len() == 0,
            decreases self.source_remaining().len(), (if self.current_stream is Some {
                0int
            } else {
                1
            }),
        {
            if buffer.len() == size {
                break;
            }
            let mut cs: Option<BucketSegmentStream> = None;
            std::mem::swap(&mut cs, &mut self.current_stream);
            match cs {
                None => {
                    match self.opened_file.get_stream() {
                        None => {
                            break;
                        },
                        Some(s) => {
                            self.current_stream = Some(s);
                        },
                    }
                },
                Some(mut s) => {
                    let got = s.read_some(size - buffer.len());
                    push_all(&mut buffer, &got);
                    if s.remaining_len() > 0 {
                        self.current_stream = Some(s);
                    }
                    proof {
                        assert(buffer@ + self.source_remaining() =~= orig_src);
                    }
                },
            }
        }
        let produced = buffer.len();
        if produced == 0 {
            self.opened_file = OpenedFile::Inactive;
        }
        let ghost filled_before = self.filled@;
        self.filled.push(buffer);
        proof {
            let f = |b: Vec<u8>| b@;
            assert(self.filled@.map_values(f) =~= filled_before.map_values(f).push(buffer@));
            crate::segments::lemma_flatten_push(filled_before.map_values(f), buffer@);
            let m = min_len(old(self).size_spec(), orig_src.len() as int);
            assert(buffer@ =~= orig_src.take(m));
            assert(self.source_remaining() =~= orig_src.skip(m));
        }
    }

    /// How many filled buffers sit queued.
    pub closed spec fn filled_len(self) -> int {
        self.filled@.len() as int
    }

    /// Buffers lent out to the consumer stream.
    pub closed spec fn lent_spec(self) -> int {
        self.lent as int
    }

    /// Every buffer is pool, queued, or lent: the consumer never observes
    /// more than `buffers_count` buffers in existence.
    pub proof fn lemma_buffer_bound(self)
        requires
            self.wf(),
        ensures
            self.filled_len() + self.lent_spec() <= self.count_spec(),
            self.pool_available() + self.filled_len() + self.lent_spec() == self.count_spec(),
    {
    }

    /// Opens a bucket on this instance and hands back the consumer stream,
    /// primed with the first filled buffer. At most one bucket may be open:
    /// the caller must be done with the previous one (see
    /// [`Self::try_read_bucket`] for the checked form).
    pub fn read_bucket(&mut self, file: OpenedFile) -> (r: AsyncStreamThreadReader)
        requires
            old(self).wf(),
            old(self).is_ready(),
            file.wf(),
            file.is_active(),
        ensures
            r.wf(*final(self)),
            r.remaining(*final(self)) == file.remaining(),
            final(self).size_spec() == old(self).size_spec(),
            final(self).count_spec() == old(self).count_spec(),
    {
        self.opened_file = file;
        proof {
            let f = |b: Vec<u8>| b@;
            assert(self.filled@.map_values(f) =~= Seq::<Seq<u8>>::empty());
            assert(self.source_remaining() =~= file.remaining());
        }
        self.fill_next_buffer();
        let ghost m = min_len(old(self).size_spec(), file.remaining().len() as int);
        proof {
            let f = |b: Vec<u8>| b@;
            assert(self.filled@.map_values(f).len() == 1);
            self.filled@.map_values(f).lemma_flatten_one_element();
            assert(self.queued() == self.filled@[0]@);
        }
        let first = self.filled.remove(0);
        self.lent = 1;
        let r = AsyncStreamThreadReader { current: first, current_pos: 0 };
        proof {
            assert(self.filled@.map_values(|b: Vec<u8>| b@) =~= Seq::<Seq<u8>>::empty());
            assert(first@ == file.remaining().take(m));
            assert(first@.skip(0) =~= first@);
            assert(r.remaining(*self) =~= file.remaining().take(m) + file.remaining().skip(m));
            assert(file.remaining().take(m) + file.remaining().skip(m) =~= file.remaining());
        }
        r
    }

    /// The checked form of [`Self::read_bucket`]: a call while a bucket is
    /// still open (or not yet fully drained) fails fast, hands the file
    /// back untouched, and never overwrites the bucket in progress.
    pub fn try_read_bucket(&mut self, file: OpenedFile) -> (r: Result<
        AsyncStreamThreadReader,
        OpenedFile,
    >)
        requires
            old(self).wf(),
            file.wf(),
            file.is_active(),
        ensures
            r is Ok <==> old(self).is_ready(),
            match r {
                Ok(s) => {
                    &&& s.wf(*final(self))
                    &&& s.remaining(*final(self)) == file.remaining()
                    &&& final(self).size_spec() == old(self).size_spec()
                    &&& final(self).count_spec() == old(self).count_spec()
                },
                Err(f) => {
                    &&& *final(self) == *old(self)
                    &&& f == file
                },
            },
    {
        let idle = match self.opened_file {
            OpenedFile::Inactive => true,
            _ => false,
        };
        let no_stream = match self.current_stream {
            None => true,
            _ => false,
        };
        if idle && no_stream && self.filled.len() == 0 && self.lent == 0 {
            Ok(self.read_bucket(file))
        } else {
            Err(file)
        }
    }
}

/// The consumer-facing sequential byte stream over a bucket being filled in
/// the background: drains filled buffers in order, copies out requested
/// ranges, and returns exhausted buffers to the pool.
pub struct AsyncStreamThreadReader {
    current: Vec<u8>,
    current_pos: usize,
}

impl AsyncStreamThreadReader {
    /// The stream holds exactly the lent buffer; a zero-length current
    /// buffer is the end marker, which only appears once everything else is
    /// drained and the bucket is closed.
    pub open spec fn wf(self, owner: AsyncReaderThread) -> bool {
        &&& owner.wf()
        &&& owner.lent_spec() == 1
        &&& self.pos_spec() <= self.current_len()
        &&& self.current_len() <= owner.size_spec()
        &&& (self.current_len() == 0 ==> self.pos_spec() == 0 && owner.filled_len() == 0
            && !owner.is_file_open() && owner.source_remaining().len() == 0)
        &&& (!owner.is_file_open() ==> owner.end_queued() || self.current_len() == 0)
    }

    /// Where the consumer stands in the lent buffer.
    pub closed spec fn pos_spec(self) -> int {
        self.current_pos as int
    }

    /// Length of the lent buffer.
    pub closed spec fn current_len(self) -> int {
        self.current@.len() as int
    }

    /// The bytes this stream has not yet delivered, in bucket order: the
    /// rest of the lent buffer, then the queued buffers, then what the
    /// filler has not pulled from the bucket yet.
    pub closed spec fn remaining(self, owner: AsyncReaderThread) -> Seq<u8> {
        self.current@.skip(self.current_pos as int) + owner.queued() + owner.source_remaining()
    }

    /// Delivers the next `count` bytes of the bucket, or fewer exactly when
    /// the bucket ends first, driving the filler as needed. The blocking
    /// shell performs the same steps, blocking where this core would call
    /// the filler.
    pub fn read(&mut self, owner: &mut AsyncReaderThread, count: usize) -> (r: Vec<u8>)
        requires
            old(self).wf(*old(owner)),
        ensures
            final(self).wf(*final(owner)),
            r@ == old(self).remaining(*old(owner)).take(
                min_len(count as int, old(self).remaining(*old(owner)).len() as int),
            ),
            final(self).remaining(*final(owner)) == old(self).remaining(*old(owner)).skip(
                min_len(count as int, old(self).remaining(*old(owner)).len() as int),
            ),
            final(owner).size_spec() == old(owner).size_spec(),
            final(owner).count_spec() == old(owner).count_spec(),
    {
        let ghost orig = old(self).remaining(*old(owner));
        let mut out: Vec<u8> = Vec::new();
        loop
            invariant
                self.wf(*owner),
                out@.len() <= count,
                out@.len() <= orig.len(),
                out@ == orig.take(out@.len() as int),
                self.remaining(*owner) == orig.skip(out@.len() as int),
                owner.size_spec() == old(owner).size_spec(),
                owner.count_spec() == old(owner).count_spec(),
            ensures
                self.wf(*owner),
                out@ == orig.take(out@.len() as int),
                self.remaining(*owner) == orig.skip(out@.len() as int),
                out@.len() == min_len(count as int, orig.len() as int),
                owner.size_spec() == old(owner).size_spec(),
                owner.count_spec() == old(owner).count_spec(),
            decreases count - out@.len(), (if self.pos_spec() == self.current_len() {
                1int
            } else {
                0
            }),
        {
            if out.len() == count {
                break;
            }
            if self.current_pos == self.current.len() {
                if self.current.len() == 0 {
                    // End marker: the bucket is fully delivered.
                    proof {
                        assert(self.remaining(*owner) =~= Seq::<u8>::empty());
                    }
                    break;
                }
                // Current buffer drained: recycle it and take the next.
                let mut buf: Vec<u8> = Vec::new();
                std::mem::swap(&mut buf, &mut self.current);
                buf.clear();
                owner.buffers_pool.push(buf);
                owner.lent = 0;
                self.current_pos = 0;
                proof {
                    assert(self.current@.skip(0) =~= Seq::<u8>::empty());
                }
                if owner.filled.len() == 0 {
                    owner.fill_next_buffer();
                }
                let ghost fq = owner.filled@;
                let first = owner.filled.remove(0);
                owner.lent = 1;
                proof {
                    let f = |b: Vec<u8>| b@;
                    assert(fq.map_values(f).len() > 0);
                    assert(fq.map_values(f).flatten() == fq.map_values(f).first() + fq.map_values(
                        f,
                    ).drop_first().flatten());
                    assert(fq.map_values(f).first() == first@);
                    assert(owner.filled@.map_values(f) =~= fq.map_values(f).drop_first());
                }
                self.current = first;
                proof {
                    assert(self.remaining(*owner) =~= orig.skip(out@.len() as int));
                }
                if self.current.len() == 0 {
                    proof {
                        assert(self.remaining(*owner) =~= Seq::<u8>::empty());
                    }
                    break;
                }
            } else {
                // Copy from the current buffer.
                let avail = self.current.len() - self.current_pos;
                let room = count - out.len();
                let want = if room <= avail {
                    room
                } else {
                    avail
                };
                let ghost n0 = out@.len() as int;
                let ghost pos0 = self.current_pos as int;
                proof {
                    assert(orig.len() - n0 == self.remaining(*owner).len());
                    assert(self.remaining(*owner).len() >= avail);
                }
                let mut j: usize = 0;
                while j < want
                    invariant
                        0 <= n0,
                        j <= want,
                        want >= 1,
                        pos0 == self.current_pos,
                        pos0 + want <= self.current@.len(),
                        out@.len() == n0 + j,
                        n0 + want <= count,
                        n0 + want <= orig.len(),
                        self.wf(*owner),
                        self.remaining(*owner) == orig.skip(n0),
                        out@ == orig.take(n0 + j),
                    decreases want - j,
                {
                    let b = self.current[self.current_pos + j];
                    proof {
                        assert(0 <= n0 && 0 <= j && n0 + j < orig.len());
                        assert(self.remaining(*owner)[j as int] == self.current@.skip(
                            pos0,
                        )[j as int]);
                        assert(self.current@.skip(pos0)[j as int] == self.current@[pos0 + j]);
                        assert(orig.skip(n0)[j as int] == orig[j + n0]);
                        assert(orig.take(n0 + j + 1) =~= orig.take(n0 + j).push(orig[n0 + j]));
                    }
                    out.push(b);
                    j = j + 1;
                }
                self.current_pos = self.current_pos + want;
                proof {
                    assert(self.current@.skip(pos0 + want) =~= self.current@.skip(pos0).skip(
                        want as int,
                    ));
                    assert(self.remaining(*owner) =~= orig.skip(n0).skip(want as int));
                    assert(orig.skip(n0).skip(want as int) =~= orig.skip(n0 + want));
                }
            }
        }
        proof {
            assert(out@.len() == min_len(count as int, orig.len() as int));
        }
        out
    }

    /// Hands the stream's buffer back and drains everything still queued,
    /// restoring the instance to its ready state with the full pool — no
    /// buffer leaks, even when the stream is dropped mid-bucket.
    pub fn finish(self, owner: &mut AsyncReaderThread)
        requires
            self.wf(*old(owner)),
        ensures
            final(owner).wf(),
            final(owner).is_ready(),
            final(owner).pool_available() == final(owner).count_spec(),
            final(owner).size_spec() == old(owner).size_spec(),
            final(owner).count_spec() == old(owner).count_spec(),
    {
        let AsyncStreamThreadReader { mut current, current_pos } = self;
        current.clear();
        owner.buffers_pool.push(current);
        owner.lent = 0;
        loop
            invariant
                owner.buffers_size == old(owner).buffers_size,
                owner.buffers_count == old(owner).buffers_count,
                owner.lent == 0,
                owner.buffers_pool@.len() + owner.filled@.len() == owner.buffers_count,
            ensures
                owner.filled@.len() == 0,
                owner.buffers_pool@.len() == owner.buffers_count,
                owner.lent == 0,
                owner.buffers_size == old(owner).buffers_size,
                owner.buffers_count == old(owner).buffers_count,
            decreases owner.filled@.len(),
        {
            match owner.filled.pop() {
                Some(mut b) => {
                    b.clear();
                    owner.buffers_pool.push(b);
                },
                None => {
                    break;
                },
            }
        }
        owner.opened_file = OpenedFile::Inactive;
        owner.current_stream = None;
        proof {
            assert(owner.filled@.map_values(|b: Vec<u8>| b@) =~= Seq::<Seq<u8>>::empty());
        }
    }
}

/// A bucket ready for background reading: its sealed contents plus the
/// file-handling configuration the I/O shell needs.
pub struct AsyncBinaryReader {
    /// The bucket's name (its path, for the shell that owns the file).
    pub name: String,
    /// The sealed bucket.
    pub bucket: FinalizedBucket,
    /// What to do with the backing file once fully consumed.
    pub remove_mode: crate::readers::RemoveFileMode,
    /// Advisory read-ahead amount for the I/O shell.
    pub prefetch: Option<usize>,
}

impl AsyncBinaryReader {
    /// The bucket's logical byte stream.
    pub open spec fn content(self) -> Seq<u8> {
        self.bucket.content()
    }

    /// Wraps a sealed bucket for background reading.
    pub fn new(
        name: String,
        bucket: FinalizedBucket,
        remove_mode: crate::readers::RemoveFileMode,
        prefetch: Option<usize>,
    ) -> (r: Self)
        ensures
            r.content() == bucket.content(),
            r.bucket == bucket,
            r.name == name,
            r.remove_mode == remove_mode,
            r.prefetch == prefetch,
    {
        AsyncBinaryReader { name, bucket, remove_mode, prefetch }
    }

    /// The bucket's name.
    pub fn get_name(&self) -> (r: &String)
        ensures
            r == self.name,
    {
        &self.name
    }

    /// Reads every record of the bucket through the background-reader core,
    /// in order, leaving the core ready for the next bucket.
    pub fn decode_all_bucket_items<E: BucketItem>(self, read_thread: &mut AsyncReaderThread) -> (r:
        Vec<(E, E::ExtraData)>)
        requires
            old(read_thread).wf(),
            old(read_thread).is_ready(),
        ensures
            views_of::<E>(r@) == spec_decode_all::<E>(self.content()),
            final(read_thread).wf(),
            final(read_thread).is_ready(),
            final(read_thread).size_spec() == old(read_thread).size_spec(),
            final(read_thread).count_spec() == old(read_thread).count_spec(),
    {
        let AsyncBinaryReader { name, bucket, remove_mode, prefetch } = self;
        let ghost content = bucket.content();
        let opened = if bucket.store.compressed() {
            OpenedFile::Compressed(CompressedBinaryReader::new(bucket, remove_mode, prefetch))
        } else {
            OpenedFile::Plain(LockFreeBinaryReader::new(bucket, remove_mode, prefetch))
        };
        let mut stream = read_thread.read_bucket(opened);
        let mut bytes: Vec<u8> = Vec::new();
        proof {
            assert(bytes@ + stream.remaining(*read_thread) =~= content);
        }
        loop
            invariant
                stream.wf(*read_thread),
                bytes@ + stream.remaining(*read_thread) == content,
                read_thread.size_spec() == old(read_thread).size_spec(),
                read_thread.count_spec() == old(read_thread).count_spec(),
            ensures
                stream.wf(*read_thread),
                bytes@ == content,
                read_thread.size_spec() == old(read_thread).size_spec(),
                read_thread.count_spec() == old(read_thread).count_spec(),
            decreases stream.remaining(*read_thread).len(),
        {
            let chunk = stream.read(read_thread, 4096);
            if chunk.len() == 0 {
                proof {
                    assert(bytes@ =~= content);
                }
                break;
            }
            push_all(&mut bytes, &chunk);
            proof {
                assert(bytes@ + stream.remaining(*read_thread) =~= content);
            }
        }
        stream.finish(read_thread);
        decode_all_items::<E>(&bytes)
    }
}

} // verus!
