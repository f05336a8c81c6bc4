//! Record encode/decode capability.
//!
//! Every bucket holds a sequence of length-prefixed records. What a record
//! is — its payload, its extra data, the exact byte layout — is supplied by
//! the collaborator type through [`BucketItem`]. The trait demands, as proof
//! obligations, that the encoding round-trips and is prefix decodable, so
//! that anything written through a bucket writer is recovered exactly by the
//! readers, in order.

use vstd::prelude::*;
use crate::varint::{
    spec_varint, spec_varint_decode, spec_varint_flags_decode, decode_varint,
    decode_varint_flags, encode_varint, lemma_varint_decode_len, lemma_varint_round_trip,
};

verus! {

/// A record type that can be stored in a bucket.
///
/// `ViewType` is the mathematical model of one record together with its
/// extra data (a color tag, for instance); `spec_encode` and `spec_decode`
/// fix the byte layout, and the two proof obligations make the layout
/// self-delimiting: a decoder applied to an encoding followed by anything
/// yields the record back and consumes exactly the encoding.
pub trait BucketItem: Sized {
    /// Extra data stored alongside the record (`()` when there is none).
    type ExtraData;

    /// Mathematical model of a record plus its extra data.
    type ViewType;

    /// The model of this record with the given extra data.
    spec fn view_with(&self, extra: &Self::ExtraData) -> Self::ViewType;

    /// Which models a real record value can have (a payload that fits in
    /// memory, for instance). The round-trip obligation holds on these.
    spec fn valid_view(v: Self::ViewType) -> bool;

    /// Every real record's model is valid.
    proof fn lemma_view_valid(&self, extra: &Self::ExtraData)
        ensures
            Self::valid_view(self.view_with(extra)),
    ;

    /// Byte layout of a record model.
    spec fn spec_encode(v: Self::ViewType) -> Seq<u8>;

    /// What decoding the head of `s` yields: a record model and the number
    /// of bytes it occupies, or nothing if no record starts at `s`.
    spec fn spec_decode(s: Seq<u8>) -> Option<(Self::ViewType, int)>;

    /// A decoded record occupies at least one byte and no more than the
    /// input.
    proof fn lemma_decode_len(s: Seq<u8>)
        ensures
            Self::spec_decode(s) matches Some((_, n)) ==> 0 < n <= s.len(),
    ;

    /// Round trip: the encoding decodes to itself, whatever follows it.
    proof fn lemma_encode_decode(v: Self::ViewType, rest: Seq<u8>)
        requires
            Self::valid_view(v),
        ensures
            Self::spec_decode(Self::spec_encode(v) + rest) == Some((
                v,
                Self::spec_encode(v).len() as int,
            )),
    ;

    /// Appends the encoding of this record to `bucket`.
    fn write_to(&self, bucket: &mut Vec<u8>, extra: &Self::ExtraData)
        ensures
            final(bucket)@ == old(bucket)@ + Self::spec_encode(self.view_with(extra)),
    ;

    /// Decodes one record starting at `pos`, returning it with the position
    /// just past it.
    fn read_from(bytes: &Vec<u8>, pos: usize) -> (r: Option<((Self, Self::ExtraData), usize)>)
        requires
            pos <= bytes@.len(),
        ensures
            match r {
                Some((ie, p)) => {
                    &&& pos < p <= bytes@.len()
                    &&& Self::spec_decode(bytes@.skip(pos as int)) == Some((
                        ie.0.view_with(&ie.1),
                        p - pos,
                    ))
                },
                None => Self::spec_decode(bytes@.skip(pos as int)) is None,
            },
    ;

    /// An upper bound on the encoded size of this record, saturating at
    /// `usize::MAX`.
    fn get_size(&self, extra: &Self::ExtraData) -> (r: usize)
        ensures
            Self::spec_encode(self.view_with(extra)).len() <= r || r == usize::MAX,
    ;
}

/// All record models whose encodings, in order, make up `items`.
pub open spec fn spec_encode_all<E: BucketItem>(items: Seq<E::ViewType>) -> Seq<u8>
    decreases items.len(),
{
    if items.len() == 0 {
        Seq::empty()
    } else {
        E::spec_encode(items[0]) + spec_encode_all::<E>(items.skip(1))
    }
}

/// The record models decoded one after another from the front of `s`,
/// stopping at the first position where no record starts.
pub open spec fn spec_decode_all<E: BucketItem>(s: Seq<u8>) -> Seq<E::ViewType>
    decreases s.len(),
{
    match E::spec_decode(s) {
        Some((v, n)) => {
            if 0 < n <= s.len() {
                seq![v] + spec_decode_all::<E>(s.skip(n))
            } else {
                seq![v]
            }
        },
        None => Seq::empty(),
    }
}

/// Round-trip law: for every sequence of records, decoding the
/// concatenation of their encodings yields exactly those records, in the
/// order they were written.
pub proof fn lemma_bucket_round_trip<E: BucketItem>(items: Seq<E::ViewType>)
    requires
        forall|i: int| 0 <= i < items.len() ==> E::valid_view(#[trigger] items[i]),
    ensures
        spec_decode_all::<E>(spec_encode_all::<E>(items)) == items,
    decreases items.len(),
{
    if items.len() == 0 {
        E::lemma_decode_len(Seq::empty());
        assert(spec_decode_all::<E>(spec_encode_all::<E>(items)) =~= items);
    } else {
        let v = items[0];
        let enc = E::spec_encode(v);
        let rest = spec_encode_all::<E>(items.skip(1));
        E::lemma_encode_decode(v, rest);
        E::lemma_decode_len(enc + rest);
        assert(forall|i: int| 0 <= i < items.skip(1).len()
            ==> E::valid_view(#[trigger] items.skip(1)[i]));
        lemma_bucket_round_trip::<E>(items.skip(1));
        assert((enc + rest).skip(enc.len() as int) =~= rest);
        assert(spec_decode_all::<E>(spec_encode_all::<E>(items)) =~= items);
    }
}

/// The model of each decoded record-and-extra pair.
pub open spec fn views_of<E: BucketItem>(s: Seq<(E, E::ExtraData)>) -> Seq<E::ViewType> {
    s.map_values(|p: (E, E::ExtraData)| p.0.view_with(&p.1))
}

/// Decodes every record in `bytes`, front to back, stopping at the first
/// position where no record starts (for a well-formed bucket, its end).
pub fn decode_all_items<E: BucketItem>(bytes: &Vec<u8>) -> (r: Vec<(E, E::ExtraData)>)
    ensures
        views_of::<E>(r@) == spec_decode_all::<E>(bytes@),
{
    let mut out: Vec<(E, E::ExtraData)> = Vec::new();
    let mut pos: usize = 0;
    proof {
        assert(bytes@.skip(0) =~= bytes@);
        assert(views_of::<E>(out@) + spec_decode_all::<E>(bytes@)
            =~= spec_decode_all::<E>(bytes@));
    }
    loop
        invariant
            pos <= bytes@.len(),
            spec_decode_all::<E>(bytes@) == views_of::<E>(out@)
                + spec_decode_all::<E>(bytes@.skip(pos as int)),
        decreases bytes@.len() - pos,
    {
        match E::read_from(bytes, pos) {
            Some((ie, p)) => {
                proof {
                    assert(bytes@.skip(pos as int).skip(p - pos) =~= bytes@.skip(p as int));
                }
                let ghost prev = out@;
                out.push(ie);
                proof {
                    assert(views_of::<E>(out@) =~= views_of::<E>(prev).push(
                        out@[prev.len() as int].0.view_with(&out@[prev.len() as int].1),
                    ));
                    assert(spec_decode_all::<E>(bytes@) =~= views_of::<E>(out@)
                        + spec_decode_all::<E>(bytes@.skip(p as int)));
                }
                pos = p;
            },
            None => {
                proof {
                    assert(spec_decode_all::<E>(bytes@) =~= views_of::<E>(out@));
                }
                return out;
            },
        }
    }
}

/// Appends every byte of `src` to `dst`.
pub fn push_all(dst: &mut Vec<u8>, src: &Vec<u8>)
    ensures
        final(dst)@ == old(dst)@ + src@,
{
    let mut i: usize = 0;
    while i < src.len()
        invariant
            i <= src@.len(),
            dst@ == old(dst)@ + src@.take(i as int),
        decreases src@.len() - i,
    {
        let ghost prev = dst@;
        dst.push(src[i]);
        i = i + 1;
        proof {
            assert(dst@ =~= old(dst)@ + src@.take(i as int));
        }
    }
    proof {
        assert(dst@ =~= old(dst)@ + src@);
    }
}

/// Copies `bytes[from..to]` out into a fresh vector.
pub fn copy_range(bytes: &Vec<u8>, from: usize, to: usize) -> (r: Vec<u8>)
    requires
        from <= to <= bytes@.len(),
    ensures
        r@ == bytes@.subrange(from as int, to as int),
{
    let mut out: Vec<u8> = Vec::new();
    let mut i: usize = from;
    while i < to
        invariant
            from <= i <= to <= bytes@.len(),
            out@ == bytes@.subrange(from as int, i as int),
        decreases to - i,
    {
        out.push(bytes[i]);
        i = i + 1;
        proof {
            assert(out@ =~= bytes@.subrange(from as int, i as int));
        }
    }
    out
}

/// A plain record: an opaque byte payload, length-prefixed.
pub struct BytesRecord {
    pub data: Vec<u8>,
}

impl BucketItem for BytesRecord {
    type ExtraData = ();

    type ViewType = Seq<u8>;

    open spec fn view_with(&self, extra: &()) -> Seq<u8> {
        self.data@
    }

    open spec fn valid_view(v: Seq<u8>) -> bool {
        v.len() <= u64::MAX
    }

    proof fn lemma_view_valid(&self, extra: &()) {
        assert(self.data@.len() == self.data.len());
    }

    open spec fn spec_encode(v: Seq<u8>) -> Seq<u8> {
        spec_varint(v.len()) + v
    }

    open spec fn spec_decode(s: Seq<u8>) -> Option<(Seq<u8>, int)> {
        match spec_varint_decode(s) {
            Some((len, n)) => {
                if n + len <= s.len() {
                    Some((s.subrange(n, n + len), n + len))
                } else {
                    None
                }
            },
            None => None,
        }
    }

    proof fn lemma_decode_len(s: Seq<u8>) {
        lemma_varint_decode_len(s);
    }

    proof fn lemma_encode_decode(v: Seq<u8>, rest: Seq<u8>) {
        let enc = Self::spec_encode(v);
        lemma_varint_round_trip(v.len() as u64, v + rest);
        assert(spec_varint(v.len()) + (v + rest) =~= enc + rest);
        let n = spec_varint(v.len()).len() as int;
        assert((enc + rest).subrange(n, n + v.len()) =~= v);
    }

    fn write_to(&self, bucket: &mut Vec<u8>, extra: &()) {
        encode_varint(bucket, self.data.len() as u64);
        push_all(bucket, &self.data);
    }

    fn read_from(bytes: &Vec<u8>, pos: usize) -> (r: Option<((Self, ()), usize)>) {
        match decode_varint(bytes, pos) {
            Some((len, p)) => {
                if len <= (bytes.len() - p) as u64 {
                    let end = p + len as usize;
                    let data = copy_range(bytes, p, end);
                    proof {
                        assert(bytes@.skip(pos as int).subrange(
                            p - pos,
                            p - pos + len as int,
                        ) =~= bytes@.subrange(p as int, end as int));
                    }
                    Some(((BytesRecord { data }, ()), end))
                } else {
                    None
                }
            },
            None => None,
        }
    }

    fn get_size(&self, extra: &()) -> (r: usize) {
        proof {
            crate::varint::lemma_varint_size(self.data.len() as u64);
        }
        if self.data.len() <= usize::MAX - crate::varint::VARINT_MAX_SIZE {
            self.data.len() + crate::varint::VARINT_MAX_SIZE
        } else {
            usize::MAX
        }
    }
}

/// Where one record sits inside a staging area: its start offset and the
/// sorting hash that chose its position.
#[derive(Copy, Clone, PartialEq, Eq, Hash, Debug)]
pub struct ReadRef {
    pub read_start: usize,
    pub hash: u64,
}

/// What unpacking a packed sequence read at the front of `s` yields: the
/// flags, the 2-bit-packed base bytes (four bases per byte), and the number
/// of bytes consumed. The extra data that follows is decoded by its own
/// collaborator-defined codec, starting at the returned offset.
pub open spec fn spec_unpack(s: Seq<u8>, limit: nat) -> Option<(u8, Seq<u8>, int)> {
    match spec_varint_flags_decode(s, limit) {
        Some(((len, flags), n)) => {
            let blen = (len as nat + 3) / 4;
            if n + blen <= s.len() {
                Some((flags, s.subrange(n, n + blen), n + blen))
            } else {
                None
            }
        },
        None => None,
    }
}

impl ReadRef {
    /// Reads the record this reference points at out of `memory`: the flags
    /// packed into the length prefix and the packed base bytes. Returns the
    /// offset just past the bases, where the record's extra data starts;
    /// nothing if no well-formed record starts at `read_start`.
    pub fn unpack(&self, memory: &Vec<u8>, flags_limit: u8) -> (r: Option<(u8, Vec<u8>, usize)>)
        requires
            self.read_start <= memory@.len(),
            1 <= flags_limit <= 128,
        ensures
            match r {
                Some((flags, bases, next)) => {
                    &&& self.read_start < next <= memory@.len()
                    &&& spec_unpack(memory@.skip(self.read_start as int), flags_limit as nat)
                        == Some((flags, bases@, next - self.read_start))
                },
                None => spec_unpack(
                    memory@.skip(self.read_start as int),
                    flags_limit as nat,
                ) is None,
            },
    {
        match decode_varint_flags(memory, self.read_start, flags_limit) {
            Some(((len, flags), p)) => {
                let low: u64 = len % 4;
                let blen: u64 = len / 4 + if low == 0 {
                    0
                } else {
                    1
                };
                proof {
                    assert(blen == ((len as nat) + 3) / 4) by (nonlinear_arith)
                        requires
                            blen == len / 4 + (if len % 4 == 0 { 0int } else { 1 }),
                            len >= 0,
                    ;
                }
                if blen <= (memory.len() - p) as u64 {
                    let end = p + blen as usize;
                    let bases = copy_range(memory, p, end);
                    proof {
                        let s = memory@.skip(self.read_start as int);
                        assert(s.subrange(
                            p - self.read_start,
                            p - self.read_start + blen as int,
                        ) =~= memory@.subrange(p as int, end as int));
                    }
                    Some((flags, bases, end))
                } else {
                    None
                }
            },
            None => None,
        }
    }
}

} // verus!
