//! Variable-length integer codec used as the record length prefix in every
//! bucket file, plus the variant that packs a small flags field into the
//! first byte.
//!
//! A plain varint stores a `u64` least-significant-group first, seven value
//! bits per byte; the high bit of each byte says whether another byte
//! follows. Both directions are proved to round-trip and to be prefix
//! decodable: a decoder can always tell where the field ends.

use vstd::prelude::*;

verus! {

/// Largest number of bytes a `u64` varint can occupy.
pub const VARINT_MAX_SIZE: usize = 10;

/// Byte sequence of the varint encoding of `v`.
pub open spec fn spec_varint(v: nat) -> Seq<u8>
    decreases v,
{
    if v < 128 {
        seq![v as u8]
    } else {
        seq![(v % 128 + 128) as u8] + spec_varint(v / 128)
    }
}

/// What a varint decoder yields on `s`: the value and the number of bytes
/// consumed, or nothing if `s` has no terminating byte or the value does
/// not fit in a `u64`.
pub open spec fn spec_varint_decode(s: Seq<u8>) -> Option<(u64, int)>
    decreases s.len(),
{
    if s.len() == 0 {
        None
    } else if s[0] < 128 {
        Some((s[0] as u64, 1))
    } else {
        match spec_varint_decode(s.skip(1)) {
            Some((v, n)) => {
                if v <= (u64::MAX - (s[0] - 128)) / 128 {
                    Some(((((s[0] - 128) + 128 * v)) as u64, n + 1))
                } else {
                    None
                }
            },
            None => None,
        }
    }
}

/// A decoded varint consumes at least one byte and no more than the input.
pub proof fn lemma_varint_decode_len(s: Seq<u8>)
    ensures
        spec_varint_decode(s) matches Some((_, n)) ==> 0 < n <= s.len(),
    decreases s.len(),
{
    if s.len() > 0 && s[0] >= 128 {
        lemma_varint_decode_len(s.skip(1));
    }
}

/// Round trip: decoding an encoded value, whatever follows it, yields the
/// value back and consumes exactly the encoding.
pub proof fn lemma_varint_round_trip(v: u64, rest: Seq<u8>)
    ensures
        spec_varint_decode(spec_varint(v as nat) + rest) == Some((
            v,
            spec_varint(v as nat).len() as int,
        )),
    decreases v,
{
    let s = spec_varint(v as nat) + rest;
    if v < 128 {
        assert(s[0] == v as u8);
    } else {
        lemma_varint_round_trip(v / 128, rest);
        assert(spec_varint((v / 128) as nat) + rest =~= s.skip(1));
        assert(s[0] == (v as nat % 128 + 128) as u8);
        assert(v % 128 + 128 * (v / 128) == v) by (nonlinear_arith);
        assert(128 * (v / 128) <= v - v % 128) by (nonlinear_arith);
        assert(v / 128 <= (u64::MAX - (s[0] - 128)) / 128);
    }
}

spec fn pow128(n: nat) -> nat
    decreases n,
{
    if n == 0 {
        1
    } else {
        128 * pow128((n - 1) as nat)
    }
}

proof fn lemma_varint_size_rec(v: nat, k: nat)
    requires
        v < pow128(k),
        k >= 1,
    ensures
        0 < spec_varint(v).len() <= k,
    decreases v,
{
    if v >= 128 {
        if k == 1 {
            assert(pow128(1) == 128) by {
                reveal_with_fuel(pow128, 3);
            };
        }
        assert(pow128(k) == 128 * pow128((k - 1) as nat));
        assert(v < 128 * pow128((k - 1) as nat) ==> v / 128 < pow128((k - 1) as nat))
            by (nonlinear_arith);
        lemma_varint_size_rec(v / 128, (k - 1) as nat);
    }
}

/// The encoding of a `u64` never exceeds [`VARINT_MAX_SIZE`] bytes.
pub proof fn lemma_varint_size(v: u64)
    ensures
        0 < spec_varint(v as nat).len() <= VARINT_MAX_SIZE,
{
    assert((v as nat) < pow128(10)) by {
        reveal_with_fuel(pow128, 11);
    };
    lemma_varint_size_rec(v as nat, 10);
}

/// Appends the varint encoding of `value` to `out`.
pub fn encode_varint(out: &mut Vec<u8>, value: u64)
    ensures
        final(out)@ == old(out)@ + spec_varint(value as nat),
{
    let mut v: u64 = value;
    let ghost prefix = old(out)@;
    while v >= 128
        invariant
            prefix + spec_varint(value as nat) == out@ + spec_varint(v as nat),
        decreases v,
    {
        let ghost prev_out = out@;
        let ghost prev_v = v;
        let b: u8 = (v % 128 + 128) as u8;
        out.push(b);
        v = v / 128;
        proof {
            assert(prev_out + spec_varint(prev_v as nat)
                =~= out@ + spec_varint(v as nat));
        }
    }
    out.push(v as u8);
    proof {
        assert(prefix + spec_varint(value as nat) =~= out@);
    }
}

/// Decodes a varint starting at `pos`. Returns the value and the position
/// just past the field, or nothing if no well-formed `u64` varint starts
/// there.
pub fn decode_varint(bytes: &Vec<u8>, pos: usize) -> (r: Option<(u64, usize)>)
    requires
        pos <= bytes@.len(),
    ensures
        match r {
            Some((v, p)) => {
                &&& pos < p <= bytes@.len()
                &&& spec_varint_decode(bytes@.skip(pos as int)) == Some((v, p - pos))
            },
            None => spec_varint_decode(bytes@.skip(pos as int)) is None,
        },
{
    // Find the terminating byte (high bit clear) first.
    let mut t: usize = pos;
    while t < bytes.len() && bytes[t] >= 128
        invariant
            pos <= t <= bytes@.len(),
            forall|j: int| pos <= j < t ==> bytes@[j] >= 128,
        decreases bytes@.len() - t,
    {
        t = t + 1;
    }
    if t == bytes.len() {
        proof {
            assert(bytes@.skip(t as int).len() == 0);
            lemma_varint_none_propagates(bytes@, pos as int, t as int);
        }
        return None;
    }
    // Fold the value from the terminator back to `pos`.
    let mut value: u64 = bytes[t] as u64;
    let mut j: usize = t;
    proof {
        assert(bytes@.skip(t as int)[0] == bytes@[t as int]);
    }
    while j > pos
        invariant
            pos <= j <= t < bytes@.len(),
            bytes@[t as int] < 128,
            forall|k: int| pos <= k < t ==> bytes@[k] >= 128,
            spec_varint_decode(bytes@.skip(j as int)) == Some((value, t + 1 - j)),
        decreases j,
    {
        let b = bytes[j - 1];
        let low: u64 = (b - 128) as u64;
        if value > (u64::MAX - low) / 128 {
            proof {
                lemma_decode_overflow_none(bytes@, pos as int, j as int, value);
            }
            return None;
        }
        value = low + 128 * value;
        j = j - 1;
        proof {
            assert(bytes@.skip(j as int).skip(1) =~= bytes@.skip(j as int + 1));
            assert(bytes@.skip(j as int)[0] == bytes@[j as int]);
        }
    }
    Some((value, t + 1))
}

proof fn lemma_decode_overflow_none(s: Seq<u8>, pos: int, j: int, value: u64)
    requires
        0 <= pos < j <= s.len(),
        forall|k: int| pos <= k < j ==> s[k] >= 128,
        spec_varint_decode(s.skip(j)) matches Some((v, _)) && v == value,
        value > (u64::MAX - (s[j - 1] - 128)) / 128,
    ensures
        spec_varint_decode(s.skip(pos)) is None,
{
    assert(s.skip(j - 1).skip(1) =~= s.skip(j));
    assert(s.skip(j - 1)[0] == s[j - 1]);
    assert(spec_varint_decode(s.skip(j - 1)) is None);
    lemma_varint_none_propagates(s, pos, j - 1);
}

proof fn lemma_varint_none_propagates(s: Seq<u8>, pos: int, t: int)
    requires
        0 <= pos <= t <= s.len(),
        forall|k: int| pos <= k < t ==> s[k] >= 128,
        spec_varint_decode(s.skip(t)) is None,
    ensures
        spec_varint_decode(s.skip(pos)) is None,
    decreases t - pos,
{
    if t > pos {
        lemma_varint_none_propagates(s, pos + 1, t);
        assert(s.skip(pos).skip(1) =~= s.skip(pos + 1));
        assert(s.skip(pos)[0] == s[pos]);
    }
}

/// Byte sequence of the flags-varint encoding of `v` with flags field
/// `flags`. `limit` is the number of values the first byte can carry in its
/// low bits: the first byte holds the flags in its top bits, then one
/// continuation bit, then `v % limit`; continuation bytes are plain varint.
pub open spec fn spec_varint_flags(v: nat, flags: nat, limit: nat) -> Seq<u8> {
    if v < limit {
        seq![(flags * (2 * limit) + v) as u8]
    } else {
        seq![(flags * (2 * limit) + limit + v % limit) as u8] + spec_varint(v / limit)
    }
}

/// What a flags-varint decoder yields on `s`: value, flags and bytes
/// consumed, or nothing on an empty or overlong field.
pub open spec fn spec_varint_flags_decode(s: Seq<u8>, limit: nat) -> Option<((u64, u8), int)> {
    if s.len() == 0 || limit < 1 {
        None
    } else {
        let flags = (s[0] as nat) / (2 * limit);
        let cont = ((s[0] as nat) / limit) % 2;
        let low = (s[0] as nat) % limit;
        if cont == 0 {
            Some(((low as u64, flags as u8), 1))
        } else {
            match spec_varint_decode(s.skip(1)) {
                Some((v, n)) => {
                    if v <= ((u64::MAX - low) as nat) / limit {
                        Some((((low + limit * v) as u64, flags as u8), n + 1))
                    } else {
                        None
                    }
                },
                None => None,
            }
        }
    }
}

/// A decoded flags-varint consumes at least one byte and no more than the
/// input.
pub proof fn lemma_varint_flags_decode_len(s: Seq<u8>, limit: nat)
    ensures
        spec_varint_flags_decode(s, limit) matches Some((_, n)) ==> 0 < n <= s.len(),
{
    if s.len() > 0 && limit >= 1 {
        lemma_varint_decode_len(s.skip(1));
    }
}

/// How the first byte of a flags-varint splits back into its three fields.
proof fn lemma_flags_byte(f: nat, c: nat, low: nat, limit: nat)
    requires
        limit >= 1,
        low < limit,
        c <= 1,
        f * (2 * limit) + c * limit + low <= 255,
    ensures
        (f * (2 * limit) + c * limit + low) / (2 * limit) == f,
        ((f * (2 * limit) + c * limit + low) / limit) % 2 == c,
        (f * (2 * limit) + c * limit + low) % limit == low,
{
    let b = f * (2 * limit) + c * limit + low;
    assert(b == (2 * f + c) * limit + low) by (nonlinear_arith)
        requires b == f * (2 * limit) + c * limit + low;
    assert(b / limit == 2 * f + c && b % limit == low) by (nonlinear_arith)
        requires b == (2 * f + c) * limit + low && low < limit && limit >= 1;
    assert((2 * f + c) % 2 == c) by (nonlinear_arith)
        requires c <= 1;
    assert(b / (2 * limit) == f) by (nonlinear_arith)
        requires b == f * (2 * limit) + c * limit + low && low < limit && c <= 1
            && limit >= 1;
}

/// Round trip for the flags variant.
pub proof fn lemma_varint_flags_round_trip(v: u64, flags: u8, limit: u8, rest: Seq<u8>)
    requires
        1 <= limit <= 128,
        flags < 128nat / (limit as nat),
    ensures
        spec_varint_flags_decode(
            spec_varint_flags(v as nat, flags as nat, limit as nat) + rest,
            limit as nat,
        ) == Some((
            (v, flags),
            spec_varint_flags(v as nat, flags as nat, limit as nat).len() as int,
        )),
{
    let f = flags as nat;
    let nl = limit as nat;
    let enc = spec_varint_flags(v as nat, f, nl);
    let s = enc + rest;
    assert(f * nl + nl <= 128) by (nonlinear_arith)
        requires f < 128nat / nl && nl >= 1;
    if (v as nat) < nl {
        assert(f * (2 * nl) + 0 * nl + (v as nat) <= 255) by (nonlinear_arith)
            requires f * nl + nl <= 128 && (v as nat) < nl;
        lemma_flags_byte(f, 0, v as nat, nl);
        assert(s[0] == (f * (2 * nl) + v as nat) as u8);
    } else {
        let low = (v as nat) % nl;
        let hi = (v as nat) / nl;
        assert(low < nl && hi * nl + low == v as nat) by (nonlinear_arith)
            requires low == (v as nat) % nl && hi == (v as nat) / nl && nl >= 1;
        assert(f * (2 * nl) + 1 * nl + low <= 255) by (nonlinear_arith)
            requires f * nl + nl <= 128 && low < nl;
        lemma_flags_byte(f, 1, low, nl);
        assert(s[0] == (f * (2 * nl) + nl + low) as u8);
        lemma_varint_round_trip((hi) as u64, rest);
        assert(spec_varint(hi) + rest =~= s.skip(1));
        assert(hi <= ((u64::MAX - low) as nat) / nl) by (nonlinear_arith)
            requires nl >= 1 && hi * nl + low == v as nat && v <= u64::MAX && low < nl;
        assert((low + nl * hi) as u64 == v) by (nonlinear_arith)
            requires hi * nl + low == v as nat && v <= u64::MAX;
    }
}

/// Appends the flags-varint encoding of `value` with `flags` to `out`.
pub fn encode_varint_flags(out: &mut Vec<u8>, value: u64, flags: u8, limit: u8)
    requires
        1 <= limit <= 128,
        (flags as nat) < 128nat / (limit as nat),
    ensures
        final(out)@ == old(out)@
            + spec_varint_flags(value as nat, flags as nat, limit as nat),
{
    proof {
        assert((flags as nat) * (limit as nat) + limit as nat <= 128) by (nonlinear_arith)
            requires (flags as nat) < 128nat / (limit as nat) && limit >= 1;
        assert((flags as nat) * (2 * limit as nat) <= 256 - 2 * limit as nat)
            by (nonlinear_arith)
            requires (flags as nat) * (limit as nat) + limit as nat <= 128;
    }
    let head: u32 = flags as u32 * (2 * limit as u32);
    if value < limit as u64 {
        out.push((head + value as u32) as u8);
        proof {
            assert(old(out)@ + spec_varint_flags(value as nat, flags as nat, limit as nat)
                =~= out@);
        }
    } else {
        let low: u64 = value % limit as u64;
        out.push((head as u64 + limit as u64 + low) as u8);
        encode_varint(out, value / limit as u64);
        proof {
            assert(old(out)@ + spec_varint_flags(value as nat, flags as nat, limit as nat)
                =~= out@);
        }
    }
}

/// Decodes a flags-varint starting at `pos`; the counterpart of
/// [`encode_varint_flags`].
pub fn decode_varint_flags(bytes: &Vec<u8>, pos: usize, limit: u8) -> (r: Option<
    ((u64, u8), usize),
>)
    requires
        pos <= bytes@.len(),
        1 <= limit <= 128,
    ensures
        match r {
            Some((vf, p)) => {
                &&& pos < p <= bytes@.len()
                &&& spec_varint_flags_decode(bytes@.skip(pos as int), limit as nat)
                    == Some((vf, p - pos))
            },
            None => spec_varint_flags_decode(bytes@.skip(pos as int), limit as nat) is None,
        },
{
    if pos == bytes.len() {
        return None;
    }
    let b = bytes[pos];
    proof {
        assert(bytes@.skip(pos as int)[0] == bytes@[pos as int]);
        assert((b as nat) / (2 * limit as nat) <= 127) by (nonlinear_arith)
            requires b <= 255 && limit >= 1;
    }
    let flags: u8 = (b as u16 / (2 * limit as u16)) as u8;
    let cont: u8 = (b / limit) % 2;
    let low: u64 = (b % limit) as u64;
    if cont == 0 {
        Some(((low, flags), pos + 1))
    } else {
        match decode_varint(bytes, pos + 1) {
            Some((v, p)) => {
                proof {
                    assert(bytes@.skip(pos as int).skip(1) =~= bytes@.skip(pos as int + 1));
                }
                if v <= (u64::MAX - low) / (limit as u64) {
                    proof {
                        assert((low as nat) + (limit as nat) * (v as nat) <= u64::MAX)
                            by (nonlinear_arith)
                            requires (v as nat) <= ((u64::MAX - low) as nat) / (limit as nat)
                                && limit >= 1 && low <= u64::MAX;
                    }
                    Some(((low + limit as u64 * v, flags), p))
                } else {
                    None
                }
            },
            None => {
                proof {
                    assert(bytes@.skip(pos as int).skip(1) =~= bytes@.skip(pos as int + 1));
                }
                None
            },
        }
    }
}

} // verus!
