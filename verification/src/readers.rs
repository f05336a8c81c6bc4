//! Synchronous bucket readers.
//!
//! Both variants share one capability: hand out the bucket's checkpoint
//! segments one after another as independent byte streams, so that several
//! buckets can be read concurrently on different threads while each stream
//! is consumed sequentially. The plain variant walks raw chunks, the
//! compressed one decompresses each checkpoint segment as it is opened;
//! either way the streams deliver exactly the bucket's logical byte
//! sequence, in order.

use vstd::prelude::*;
use crate::records::{copy_range, BucketItem, decode_all_items, views_of, spec_decode_all};
use crate::segments::{FinalizedBucket, SegmentStore, lemma_flatten_split, lemma_flatten_end};

verus! {

/// What should happen to a bucket's backing file once it has been fully
/// consumed. The deletion itself is the surrounding shell's job; the mode
/// travels with the reader so the shell can honor it.
#[derive(Copy, Clone, PartialEq, Eq, Debug)]
pub enum RemoveFileMode {
    /// Keep the file (for debugging or reuse).
    Keep,
    /// Remove the file; `remove_fs` says whether the filesystem copy goes
    /// too.
    Remove { remove_fs: bool },
}

/// One independently readable byte stream over a single checkpoint segment's
/// decoded bytes.
pub struct BucketSegmentStream {
    data: Vec<u8>,
    pos: usize,
}

impl BucketSegmentStream {
    /// The read position never passes the end.
    pub closed spec fn wf(self) -> bool {
        self.pos <= self.data@.len()
    }

    /// The bytes not yet delivered.
    pub closed spec fn remaining(self) -> Seq<u8> {
        self.data@.skip(self.pos as int)
    }

    /// A stream over `data`, positioned at its start.
    pub fn new(data: Vec<u8>) -> (r: Self)
        ensures
            r.wf(),
            r.remaining() == data@,
    {
        let r = BucketSegmentStream { data, pos: 0 };
        proof {
            assert(r.remaining() =~= r.data@);
        }
        r
    }

    /// Delivers the next `max` bytes, or fewer exactly when the stream ends
    /// first.
    pub fn read_some(&mut self, max: usize) -> (r: Vec<u8>)
        requires
            old(self).wf(),
        ensures
            final(self).wf(),
            r@ == old(self).remaining().take(min_len(max as int, old(self).remaining().len() as int)),
            final(self).remaining() == old(self).remaining().skip(
                min_len(max as int, old(self).remaining().len() as int),
            ),
    {
        let avail = self.data.len() - self.pos;
        let take = if max <= avail {
            max
        } else {
            avail
        };
        let r = copy_range(&self.data, self.pos, self.pos + take);
        self.pos = self.pos + take;
        proof {
            let m = min_len(max as int, old(self).remaining().len() as int);
            assert(r@ =~= old(self).remaining().take(m));
            assert(self.remaining() =~= old(self).remaining().skip(m));
        }
        r
    }

    /// How many bytes are left in the stream.
    pub fn remaining_len(&self) -> (r: usize)
        requires
            self.wf(),
        ensures
            r == self.remaining().len(),
    {
        self.data.len() - self.pos
    }

    /// Delivers everything left in the stream.
    pub fn take_all(self) -> (r: Vec<u8>)
        requires
            self.wf(),
        ensures
            r@ == self.remaining(),
    {
        copy_range(&self.data, self.pos, self.data.len())
    }
}

/// The smaller of two lengths.
pub open spec fn min_len(a: int, b: int) -> int {
    if a <= b {
        a
    } else {
        b
    }
}

/// Walks a sealed bucket's chunks in order, handing each out as a stream.
struct ChunkCursor {
    store: SegmentStore,
    next: usize,
}

impl ChunkCursor {
    spec fn wf(self) -> bool {
        self.next <= self.store.chunk_seqs().len()
    }

    spec fn remaining(self) -> Seq<u8> {
        self.store.chunk_seqs().skip(self.next as int).flatten()
    }

    fn new(store: SegmentStore) -> (r: Self)
        ensures
            r.wf(),
            r.remaining() == store.content(),
    {
        let r = ChunkCursor { store, next: 0 };
        proof {
            assert(r.store.chunk_seqs().skip(0) =~= r.store.chunk_seqs());
        }
        r
    }

    fn next_stream(&mut self) -> (r: Option<BucketSegmentStream>)
        requires
            old(self).wf(),
        ensures
            final(self).wf(),
            match r {
                Some(s) => {
                    &&& s.wf()
                    &&& s.remaining().len() > 0
                    &&& old(self).remaining() == s.remaining() + final(self).remaining()
                },
                None => {
                    &&& *final(self) == *old(self)
                    &&& old(self).remaining().len() == 0
                },
            },
    {
        if self.next == self.store.chunk_count() {
            proof {
                lemma_flatten_end(self.store.chunk_seqs());
            }
            None
        } else {
            let chunk = self.store.read_chunk(self.next);
            self.store.chunks_nonempty();
            proof {
                lemma_flatten_split(self.store.chunk_seqs(), self.next as int);
            }
            self.next = self.next + 1;
            Some(BucketSegmentStream::new(chunk))
        }
    }
}

/// Reader over a plain (uncompressed) bucket.
pub struct LockFreeBinaryReader {
    cursor: ChunkCursor,
    /// What to do with the backing file once fully consumed.
    pub remove_mode: RemoveFileMode,
    /// Advisory read-ahead amount for the I/O shell.
    pub prefetch: Option<usize>,
}

/// Reader over a compressed bucket: each checkpoint segment is decompressed
/// independently as it is opened.
pub struct CompressedBinaryReader {
    cursor: ChunkCursor,
    /// What to do with the backing file once fully consumed.
    pub remove_mode: RemoveFileMode,
    /// Advisory read-ahead amount for the I/O shell.
    pub prefetch: Option<usize>,
}

impl LockFreeBinaryReader {
    /// The read position never passes the end.
    pub closed spec fn wf(self) -> bool {
        self.cursor.wf()
    }

    /// The bytes not yet handed out through any stream.
    pub closed spec fn remaining(self) -> Seq<u8> {
        self.cursor.remaining()
    }

    /// Opens a plain bucket for reading.
    pub fn new(bucket: FinalizedBucket, remove_mode: RemoveFileMode, prefetch: Option<usize>) -> (r:
        Self)
        requires
            !bucket.store.is_compressed(),
        ensures
            r.wf(),
            r.remaining() == bucket.content(),
    {
        LockFreeBinaryReader { cursor: ChunkCursor::new(bucket.store), remove_mode, prefetch }
    }

    /// The next parallel read stream, or nothing once the bucket is
    /// exhausted.
    pub fn get_read_parallel_stream(&mut self) -> (r: Option<BucketSegmentStream>)
        requires
            old(self).wf(),
        ensures
            final(self).wf(),
            match r {
                Some(s) => {
                    &&& s.wf()
                    &&& s.remaining().len() > 0
                    &&& old(self).remaining() == s.remaining() + final(self).remaining()
                },
                None => {
                    &&& *final(self) == *old(self)
                    &&& old(self).remaining().len() == 0
                },
            },
    {
        self.cursor.next_stream()
    }

    /// Reads every record left in the bucket, in order.
    pub fn decode_all_bucket_items<E: BucketItem>(self) -> (r: Vec<(E, E::ExtraData)>)
        requires
            self.wf(),
        ensures
            views_of::<E>(r@) == spec_decode_all::<E>(self.remaining()),
    {
        let bytes = read_all_bytes_plain(self);
        decode_all_items::<E>(&bytes)
    }
}

impl CompressedBinaryReader {
    /// The read position never passes the end.
    pub closed spec fn wf(self) -> bool {
        self.cursor.wf()
    }

    /// The bytes not yet handed out through any stream, after
    /// decompression.
    pub closed spec fn remaining(self) -> Seq<u8> {
        self.cursor.remaining()
    }

    /// Opens a compressed bucket for reading.
    pub fn new(bucket: FinalizedBucket, remove_mode: RemoveFileMode, prefetch: Option<usize>) -> (r:
        Self)
        requires
            bucket.store.is_compressed(),
        ensures
            r.wf(),
            r.remaining() == bucket.content(),
    {
        CompressedBinaryReader { cursor: ChunkCursor::new(bucket.store), remove_mode, prefetch }
    }

    /// The next parallel read stream — one decompressed checkpoint segment —
    /// or nothing once the bucket is exhausted.
    pub fn get_read_parallel_stream(&mut self) -> (r: Option<BucketSegmentStream>)
        requires
            old(self).wf(),
        ensures
            final(self).wf(),
            match r {
                Some(s) => {
                    &&& s.wf()
                    &&& s.remaining().len() > 0
                    &&& old(self).remaining() == s.remaining() + final(self).remaining()
                },
                None => {
                    &&& *final(self) == *old(self)
                    &&& old(self).remaining().len() == 0
                },
            },
    {
        self.cursor.next_stream()
    }

    /// Reads every record left in the bucket, in order.
    pub fn decode_all_bucket_items<E: BucketItem>(self) -> (r: Vec<(E, E::ExtraData)>)
        requires
            self.wf(),
        ensures
            views_of::<E>(r@) == spec_decode_all::<E>(self.remaining()),
    {
        let mut me = self;
        let mut bytes: Vec<u8> = Vec::new();
        proof {
            assert(bytes@ + me.remaining() =~= self.remaining());
        }
        loop
            invariant
                me.wf(),
                bytes@ + me.remaining() == self.remaining(),
            decreases me.remaining().len(),
        {
            match me.get_read_parallel_stream() {
                Some(s) => {
                    let chunk = s.take_all();
                    crate::records::push_all(&mut bytes, &chunk);
                    proof {
                        assert(bytes@ + me.remaining() =~= self.remaining());
                    }
                },
                None => {
                    proof {
                        assert(bytes@ =~= self.remaining());
                    }
                    return decode_all_items::<E>(&bytes);
                },
            }
        }
    }
}

/// Drains a plain reader into one byte vector.
fn read_all_bytes_plain(reader: LockFreeBinaryReader) -> (r: Vec<u8>)
    requires
        reader.wf(),
    ensures
        r@ == reader.remaining(),
{
    let mut me = reader;
    let mut bytes: Vec<u8> = Vec::new();
    proof {
        assert(bytes@ + me.remaining() =~= reader.remaining());
    }
    loop
        invariant
            me.wf(),
            bytes@ + me.remaining() == reader.remaining(),
        decreases me.remaining().len(),
    {
        match me.get_read_parallel_stream() {
            Some(s) => {
                let chunk = s.take_all();
                crate::records::push_all(&mut bytes, &chunk);
                proof {
                    assert(bytes@ + me.remaining() =~= reader.remaining());
                }
            },
            None => {
                proof {
                    assert(bytes@ =~= reader.remaining());
                }
                return bytes;
            },
        }
    }
}

} // verus!
