//! Checkpoint segment storage.
//!
//! A bucket's bytes are held as a list of chunks. In a compressed store each
//! chunk is kept as one independently decompressible checkpoint segment; in
//! a plain store the chunks are kept as they are. The store's model is the
//! chunk list itself, so everything downstream reasons about plain bytes and
//! the compression codec stays behind two trusted wrappers.

use vstd::prelude::*;
use crate::records::copy_range;

verus! {

/// The compressed image that the block codec produces for a chunk. The
/// codec is deterministic: the image depends on the chunk bytes alone.
pub uninterp spec fn lz4_of(s: Seq<u8>) -> Seq<u8>;

/// Relies on lz4_flex::compress_prepend_size: deterministic block
/// compression of the input, with the input length prepended. The length
/// prefix is a 32-bit field, so the input must fit it.
#[verifier::external_body]
fn lz4_compress(data: &Vec<u8>) -> (r: Vec<u8>)
    requires
        data@.len() <= u32::MAX,
    ensures
        r@ == lz4_of(data@),
{
    lz4_flex::compress_prepend_size(data.as_slice())
}

/// Relies on lz4_flex::decompress_size_prepended: decompressing what
/// lz4_flex::compress_prepend_size produced yields the original input (the
/// two functions are documented as a round-trip pair), so on a compressed
/// image it returns the image's preimage and cannot fail. The compressor
/// only takes inputs whose length fits its 32-bit header, so only such
/// preimages exist.
#[verifier::external_body]
fn lz4_decompress(data: &Vec<u8>) -> (r: Vec<u8>)
    requires
        exists|s: Seq<u8>| s.len() <= u32::MAX && data@ == lz4_of(s),
    ensures
        forall|s: Seq<u8>| s.len() <= u32::MAX && data@ == lz4_of(s) ==> r@ == s,
{
    lz4_flex::decompress_size_prepended(data.as_slice()).unwrap()
}

struct StoreRepr {
    compressed: bool,
    segments: Vec<Vec<u8>>,
    chunks: Ghost<Seq<Seq<u8>>>,
}

/// A list of byte chunks, stored either plainly or as one compressed
/// checkpoint segment per chunk. Its model is the chunk list; [`Self::content`]
/// is their concatenation, the bucket's logical byte stream.
pub struct SegmentStore {
    r: StoreRepr,
}

impl SegmentStore {
    #[verifier::type_invariant]
    spec fn inv(self) -> bool {
        &&& self.r.segments@.len() == self.r.chunks@.len()
        &&& forall|i: int|
            0 <= i < self.r.chunks@.len() ==> 0 < (#[trigger] self.r.chunks@[i]).len()
                <= u32::MAX
        &&& forall|i: int|
            0 <= i < self.r.chunks@.len() ==> self.r.segments@[i]@ == (if self.r.compressed {
                lz4_of(self.r.chunks@[i])
            } else {
                self.r.chunks@[i]
            })
    }

    /// The chunks this store holds, in order.
    pub closed spec fn chunk_seqs(self) -> Seq<Seq<u8>> {
        self.r.chunks@
    }

    /// Whether chunks are kept as compressed checkpoint segments.
    pub closed spec fn is_compressed(self) -> bool {
        self.r.compressed
    }

    /// The logical byte stream: all chunks, concatenated.
    pub open spec fn content(self) -> Seq<u8> {
        self.chunk_seqs().flatten()
    }

    /// No chunk is empty, so an exhausted store is recognizable. The fact
    /// is part of the type invariant; this hands it out without exposing
    /// the rest.
    pub fn chunks_nonempty(&self)
        ensures
            forall|i: int|
                0 <= i < self.chunk_seqs().len() ==> (#[trigger] self.chunk_seqs()[i]).len() > 0,
    {
        proof {
            use_type_invariant(self);
        }
    }

    /// An empty store.
    pub fn new(compressed: bool) -> (r: Self)
        ensures
            r.chunk_seqs() == Seq::<Seq<u8>>::empty(),
            r.is_compressed() == compressed,
    {
        SegmentStore {
            r: StoreRepr { compressed, segments: Vec::new(), chunks: Ghost(Seq::empty()) },
        }
    }

    /// Appends one chunk, compressing it into a checkpoint segment if the
    /// store is compressed.
    pub fn push_chunk(&mut self, data: Vec<u8>)
        requires
            0 < data@.len() <= u32::MAX,
        ensures
            final(self).chunk_seqs() == old(self).chunk_seqs().push(data@),
            final(self).is_compressed() == old(self).is_compressed(),
    {
        proof {
            use_type_invariant(&*self);
        }
        let ghost chunk = data@;
        let mut repr = StoreRepr {
            compressed: false,
            segments: Vec::new(),
            chunks: Ghost(Seq::empty()),
        };
        std::mem::swap(&mut repr, &mut self.r);
        let seg = if repr.compressed {
            lz4_compress(&data)
        } else {
            data
        };
        repr.segments.push(seg);
        proof {
            repr.chunks@ = repr.chunks@.push(chunk);
        }
        self.r = repr;
    }

    /// Whether chunks are kept as compressed checkpoint segments.
    pub fn compressed(&self) -> (r: bool)
        ensures
            r == self.is_compressed(),
    {
        self.r.compressed
    }

    /// How many chunks the store holds.
    pub fn chunk_count(&self) -> (r: usize)
        ensures
            r == self.chunk_seqs().len(),
    {
        proof {
            use_type_invariant(self);
        }
        self.r.segments.len()
    }

    /// Reads chunk `i` back, decompressing its segment if needed.
    pub fn read_chunk(&self, i: usize) -> (r: Vec<u8>)
        requires
            i < self.chunk_seqs().len(),
        ensures
            r@ == self.chunk_seqs()[i as int],
    {
        proof {
            use_type_invariant(self);
        }
        let seg: &Vec<u8> = &self.r.segments[i];
        if self.r.compressed {
            proof {
                assert(seg@ == lz4_of(self.r.chunks@[i as int]));
            }
            lz4_decompress(seg)
        } else {
            copy_range(seg, 0, seg.len())
        }
    }

    /// The stored image of chunk `i`: the compressed segment bytes in a
    /// compressed store, the chunk itself in a plain one.
    pub fn raw_segment(&self, i: usize) -> (r: Vec<u8>)
        requires
            i < self.chunk_seqs().len(),
        ensures
            self.is_compressed() ==> r@ == lz4_of(self.chunk_seqs()[i as int]),
            !self.is_compressed() ==> r@ == self.chunk_seqs()[i as int],
    {
        proof {
            use_type_invariant(self);
        }
        let seg: &Vec<u8> = &self.r.segments[i];
        copy_range(seg, 0, seg.len())
    }
}

/// One finalized bucket: its index in the bucket set and its sealed
/// segments. Produced exactly once, by the writer's finalize step.
pub struct FinalizedBucket {
    /// Which bucket of the set this is.
    pub index: usize,
    /// The sealed segments.
    pub store: SegmentStore,
}

impl FinalizedBucket {
    /// The bucket's logical byte stream.
    pub open spec fn content(self) -> Seq<u8> {
        self.store.content()
    }
}

/// Splitting a chunk list at chunk `i` splits its concatenation.
pub proof fn lemma_flatten_split(chunks: Seq<Seq<u8>>, i: int)
    requires
        0 <= i < chunks.len(),
    ensures
        chunks.skip(i).flatten() == chunks[i] + chunks.skip(i + 1).flatten(),
{
    let tail = chunks.skip(i);
    assert(tail[0] == chunks[i]);
    assert(tail.drop_first() =~= chunks.skip(i + 1));
    assert(tail.flatten() == tail.first() + tail.drop_first().flatten());
}

/// A chunk list's concatenation past its end is empty.
pub proof fn lemma_flatten_end(chunks: Seq<Seq<u8>>)
    ensures
        chunks.skip(chunks.len() as int).flatten() == Seq::<u8>::empty(),
{
    assert(chunks.skip(chunks.len() as int) =~= Seq::<Seq<u8>>::empty());
}

/// Appending a chunk appends its bytes to the concatenation.
pub proof fn lemma_flatten_push(chunks: Seq<Seq<u8>>, c: Seq<u8>)
    ensures
        chunks.push(c).flatten() == chunks.flatten() + c,
{
    Seq::lemma_flatten_push(chunks, c);
}

} // verus!
