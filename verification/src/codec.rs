//! Fixed-width integer encodings and a cursor-style reader over byte slices.
//!
//! Every reader `read_x(bytes, pos)` is tied to a spec reader `take_x(s)`
//! that works on the unread rest `s` of the input and returns the value with
//! the rest that follows it.

use vstd::prelude::*;

verus! {

/// Why a byte sequence could not be decoded.
#[derive(Clone, Copy, Debug, PartialEq, Eq, Structural)]
pub enum DeserializationError {
    /// A discriminant or tag byte holds a value the format does not define.
    InvalidData,
    /// More items than the format allows.
    TooMuchData,
    /// The input ended before the value was complete.
    EndOfInput,
}

/// Result of a spec reader: the value and the unread rest of the input.
pub type Take<T> = Result<(T, Seq<u8>), DeserializationError>;

/// Lifts the result of an exec reader (value and position) to the result of a
/// spec reader (value and unread rest of `s`).
pub open spec fn at<T>(s: Seq<u8>, r: Result<(T, usize), DeserializationError>) -> Take<T> {
    match r {
        Ok((v, p)) => Ok((v, s.skip(p as int))),
        Err(e) => Err(e),
    }
}

/// The position returned by a successful exec reader lies within the input.
pub open spec fn pos_ok<T>(len: int, start: int, r: Result<(T, usize), DeserializationError>) -> bool {
    r matches Ok((_, p)) ==> start <= p <= len
}

// ---------------------------------------------------------------------------
// Encodings
// ---------------------------------------------------------------------------

pub open spec fn u16_le_bytes(v: u16) -> Seq<u8> {
    seq![(v & 0xff) as u8, (v >> 8u16) as u8]
}

pub open spec fn u16_be_bytes(v: u16) -> Seq<u8> {
    seq![(v >> 8u16) as u8, (v & 0xff) as u8]
}

pub open spec fn u64_be_bytes(v: u64) -> Seq<u8> {
    seq![
        (v >> 56u64) as u8,
        ((v >> 48u64) & 0xff) as u8,
        ((v >> 40u64) & 0xff) as u8,
        ((v >> 32u64) & 0xff) as u8,
        ((v >> 24u64) & 0xff) as u8,
        ((v >> 16u64) & 0xff) as u8,
        ((v >> 8u64) & 0xff) as u8,
        (v & 0xff) as u8,
    ]
}

pub open spec fn u16_from_le(s: Seq<u8>) -> u16 {
    (s[0] as u16) | ((s[1] as u16) << 8u16)
}

pub open spec fn u16_from_be(s: Seq<u8>) -> u16 {
    ((s[0] as u16) << 8u16) | (s[1] as u16)
}

pub open spec fn u64_from_be(s: Seq<u8>) -> u64 {
    ((s[0] as u64) << 56u64) | ((s[1] as u64) << 48u64) | ((s[2] as u64) << 40u64) | ((
    s[3] as u64) << 32u64) | ((s[4] as u64) << 24u64) | ((s[5] as u64) << 16u64) | ((s[6] as u64)
        << 8u64) | (s[7] as u64)
}

// ---------------------------------------------------------------------------
// Numeric meaning of byte strings
// ---------------------------------------------------------------------------

/// The number that the bytes spell with the most significant byte first.
pub open spec fn be_value(s: Seq<u8>) -> nat
    decreases s.len(),
{
    if s.len() == 0 {
        0
    } else {
        (be_value(s.drop_last()) * 256 + s.last()) as nat
    }
}

/// 256 to the power `n`: the weight of a byte followed by `n` bytes.
pub open spec fn pow256(n: nat) -> nat
    decreases n,
{
    if n == 0 {
        1
    } else {
        256 * pow256((n - 1) as nat)
    }
}

/// Bytes that follow others shift them up by a byte each.
pub proof fn lemma_be_value_concat(a: Seq<u8>, b: Seq<u8>)
    ensures
        be_value(a + b) == be_value(a) * pow256(b.len()) + be_value(b),
    decreases b.len(),
{
    if b.len() == 0 {
        assert(a + b =~= a);
        assert(be_value(b) == 0);
        assert(pow256(0) == 1);
    } else {
        let b1 = b.drop_last();
        assert((a + b).drop_last() =~= a + b1);
        assert((a + b).last() == b.last());
        lemma_be_value_concat(a, b1);
        let x = be_value(a);
        let y = be_value(b1);
        let p = pow256(b1.len());
        let l = b.last() as int;
        assert(pow256(b.len()) == 256 * p);
        assert(be_value(b) == y * 256 + l);
        assert(be_value(a + b) == (x * p + y) * 256 + l);
        assert((x * p + y) * 256 + l == x * (256 * p) + (y * 256 + l)) by (nonlinear_arith);
    }
}

/// The weight of eight bytes is 2^64.
pub proof fn lemma_pow256_8()
    ensures
        pow256(8) == 0x1_0000_0000_0000_0000,
{
    reveal_with_fuel(pow256, 9);
}

/// A big-endian 64-bit encoding spells the encoded number.
pub proof fn lemma_u64_be_value(w: u64)
    ensures
        u64_be_bytes(w).len() == 8,
        be_value(u64_be_bytes(w)) == w,
{
    let s = u64_be_bytes(w);
    let b0 = s[0];
    let b1 = s[1];
    let b2 = s[2];
    let b3 = s[3];
    let b4 = s[4];
    let b5 = s[5];
    let b6 = s[6];
    let b7 = s[7];
    assert(w == b0 * 0x100_0000_0000_0000u64 + b1 * 0x1_0000_0000_0000u64 + b2 * 0x100_0000_0000u64
        + b3 * 0x1_0000_0000u64 + b4 * 0x100_0000u64 + b5 * 0x1_0000u64 + b6 * 0x100u64 + b7)
        by (bit_vector)
        requires
            b0 == (w >> 56u64) as u8,
            b1 == ((w >> 48u64) & 0xff) as u8,
            b2 == ((w >> 40u64) & 0xff) as u8,
            b3 == ((w >> 32u64) & 0xff) as u8,
            b4 == ((w >> 24u64) & 0xff) as u8,
            b5 == ((w >> 16u64) & 0xff) as u8,
            b6 == ((w >> 8u64) & 0xff) as u8,
            b7 == (w & 0xff) as u8,
    ;
    assert(s.drop_last().drop_last().drop_last().drop_last().drop_last().drop_last().drop_last().drop_last() =~= Seq::<u8>::empty());
    reveal_with_fuel(be_value, 9);
}

/// A big-endian 16-bit encoding spells the encoded number.
pub proof fn lemma_u16_be_value(v: u16)
    ensures
        u16_be_bytes(v).len() == 2,
        be_value(u16_be_bytes(v)) == v,
{
    let s = u16_be_bytes(v);
    let b0 = s[0];
    let b1 = s[1];
    assert(v == b0 * 0x100u16 + b1) by (bit_vector)
        requires
            b0 == (v >> 8u16) as u8,
            b1 == (v & 0xff) as u8,
    ;
    assert(s.drop_last().drop_last() =~= Seq::<u8>::empty());
    reveal_with_fuel(be_value, 3);
}

/// A little-endian 16-bit encoding holds the low byte first, then the high byte.
pub proof fn lemma_u16_le_value(v: u16)
    ensures
        u16_le_bytes(v).len() == 2,
        u16_le_bytes(v)[0] + 256 * u16_le_bytes(v)[1] == v,
{
    let s = u16_le_bytes(v);
    let b0 = s[0];
    let b1 = s[1];
    assert(v == b0 + b1 * 0x100u16) by (bit_vector)
        requires
            b0 == (v & 0xff) as u8,
            b1 == (v >> 8u16) as u8,
    ;
}

// ---------------------------------------------------------------------------
// Spec readers
// ---------------------------------------------------------------------------

pub open spec fn take_u8(s: Seq<u8>) -> Take<u8> {
    if s.len() >= 1 {
        Ok((s[0], s.skip(1)))
    } else {
        Err(DeserializationError::EndOfInput)
    }
}

pub open spec fn take_u16_le(s: Seq<u8>) -> Take<u16> {
    if s.len() >= 2 {
        Ok((u16_from_le(s.take(2)), s.skip(2)))
    } else {
        Err(DeserializationError::EndOfInput)
    }
}

pub open spec fn take_u16_be(s: Seq<u8>) -> Take<u16> {
    if s.len() >= 2 {
        Ok((u16_from_be(s.take(2)), s.skip(2)))
    } else {
        Err(DeserializationError::EndOfInput)
    }
}

pub open spec fn take_u64_be(s: Seq<u8>) -> Take<u64> {
    if s.len() >= 8 {
        Ok((u64_from_be(s.take(8)), s.skip(8)))
    } else {
        Err(DeserializationError::EndOfInput)
    }
}

// ---------------------------------------------------------------------------
// Round-trip lemmas
// ---------------------------------------------------------------------------

pub proof fn lemma_u16_le_roundtrip(v: u16)
    ensures
        u16_from_le(u16_le_bytes(v)) == v,
{
    let b0 = (v & 0xff) as u8;
    let b1 = (v >> 8u16) as u8;
    assert(((b0 as u16) | ((b1 as u16) << 8u16)) == v) by (bit_vector)
        requires
            b0 == (v & 0xff) as u8,
            b1 == (v >> 8u16) as u8,
    ;
}

pub proof fn lemma_u16_be_roundtrip(v: u16)
    ensures
        u16_from_be(u16_be_bytes(v)) == v,
{
    let b0 = (v >> 8u16) as u8;
    let b1 = (v & 0xff) as u8;
    assert((((b0 as u16) << 8u16) | (b1 as u16)) == v) by (bit_vector)
        requires
            b0 == (v >> 8u16) as u8,
            b1 == (v & 0xff) as u8,
    ;
}

pub proof fn lemma_u16_le_decode(s: Seq<u8>)
    requires
        s.len() == 2,
    ensures
        u16_le_bytes(u16_from_le(s)) =~= s,
{
    let b0 = s[0];
    let b1 = s[1];
    let x = u16_from_le(s);
    assert((x & 0xff) as u8 == b0 && (x >> 8u16) as u8 == b1) by (bit_vector)
        requires
            x == (b0 as u16) | ((b1 as u16) << 8u16),
    ;
}

pub proof fn lemma_u16_be_decode(s: Seq<u8>)
    requires
        s.len() == 2,
    ensures
        u16_be_bytes(u16_from_be(s)) =~= s,
{
    let b0 = s[0];
    let b1 = s[1];
    let x = u16_from_be(s);
    assert((x >> 8u16) as u8 == b0 && (x & 0xff) as u8 == b1) by (bit_vector)
        requires
            x == ((b0 as u16) << 8u16) | (b1 as u16),
    ;
}

pub proof fn lemma_u64_be_roundtrip(v: u64)
    ensures
        u64_from_be(u64_be_bytes(v)) == v,
{
    let s = u64_be_bytes(v);
    let b0 = s[0];
    let b1 = s[1];
    let b2 = s[2];
    let b3 = s[3];
    let b4 = s[4];
    let b5 = s[5];
    let b6 = s[6];
    let b7 = s[7];
    assert(((b0 as u64) << 56u64) | ((b1 as u64) << 48u64) | ((b2 as u64) << 40u64) | ((
    b3 as u64) << 32u64) | ((b4 as u64) << 24u64) | ((b5 as u64) << 16u64) | ((b6 as u64)
        << 8u64) | (b7 as u64) == v) by (bit_vector)
        requires
            b0 == (v >> 56u64) as u8,
            b1 == ((v >> 48u64) & 0xff) as u8,
            b2 == ((v >> 40u64) & 0xff) as u8,
            b3 == ((v >> 32u64) & 0xff) as u8,
            b4 == ((v >> 24u64) & 0xff) as u8,
            b5 == ((v >> 16u64) & 0xff) as u8,
            b6 == ((v >> 8u64) & 0xff) as u8,
            b7 == (v & 0xff) as u8,
    ;
}

pub proof fn lemma_u64_be_decode(s: Seq<u8>)
    requires
        s.len() == 8,
    ensures
        u64_be_bytes(u64_from_be(s)) =~= s,
{
    let b0 = s[0];
    let b1 = s[1];
    let b2 = s[2];
    let b3 = s[3];
    let b4 = s[4];
    let b5 = s[5];
    let b6 = s[6];
    let b7 = s[7];
    let x = u64_from_be(s);
    assert((x >> 56u64) as u8 == b0 && ((x >> 48u64) & 0xff) as u8 == b1 && ((x >> 40u64) & 0xff)
        as u8 == b2 && ((x >> 32u64) & 0xff) as u8 == b3 && ((x >> 24u64) & 0xff) as u8 == b4 && ((
    x >> 16u64) & 0xff) as u8 == b5 && ((x >> 8u64) & 0xff) as u8 == b6 && (x & 0xff) as u8
        == b7) by (bit_vector)
        requires
            x == ((b0 as u64) << 56u64) | ((b1 as u64) << 48u64) | ((b2 as u64) << 40u64) | ((
            b3 as u64) << 32u64) | ((b4 as u64) << 24u64) | ((b5 as u64) << 16u64) | ((
            b6 as u64) << 8u64) | (b7 as u64),
    ;
}

/// Reading a fixed-width value back from its encoding followed by any rest.
pub proof fn lemma_take_u64_be_encoded(v: u64, rest: Seq<u8>)
    ensures
        take_u64_be(u64_be_bytes(v) + rest) == Ok::<(u64, Seq<u8>), DeserializationError>(
            (v, rest),
        ),
{
    let s = u64_be_bytes(v) + rest;
    assert(s.take(8) =~= u64_be_bytes(v));
    assert(s.skip(8) =~= rest);
    lemma_u64_be_roundtrip(v);
}

pub proof fn lemma_take_u64_be_split(s: Seq<u8>)
    ensures
        take_u64_be(s) matches Ok((v, rest)) ==> s =~= u64_be_bytes(v) + rest,
{
    if s.len() >= 8 {
        lemma_u64_be_decode(s.take(8));
        assert(s =~= s.take(8) + s.skip(8));
    }
}

pub proof fn lemma_take_u16_be_encoded(v: u16, rest: Seq<u8>)
    ensures
        take_u16_be(u16_be_bytes(v) + rest) == Ok::<(u16, Seq<u8>), DeserializationError>(
            (v, rest),
        ),
{
    let s = u16_be_bytes(v) + rest;
    assert(s.take(2) =~= u16_be_bytes(v));
    assert(s.skip(2) =~= rest);
    lemma_u16_be_roundtrip(v);
}

pub proof fn lemma_take_u16_be_split(s: Seq<u8>)
    ensures
        take_u16_be(s) matches Ok((v, rest)) ==> s =~= u16_be_bytes(v) + rest,
{
    if s.len() >= 2 {
        lemma_u16_be_decode(s.take(2));
        assert(s =~= s.take(2) + s.skip(2));
    }
}

pub proof fn lemma_take_u16_le_encoded(v: u16, rest: Seq<u8>)
    ensures
        take_u16_le(u16_le_bytes(v) + rest) == Ok::<(u16, Seq<u8>), DeserializationError>(
            (v, rest),
        ),
{
    let s = u16_le_bytes(v) + rest;
    assert(s.take(2) =~= u16_le_bytes(v));
    assert(s.skip(2) =~= rest);
    lemma_u16_le_roundtrip(v);
}

pub proof fn lemma_take_u16_le_split(s: Seq<u8>)
    ensures
        take_u16_le(s) matches Ok((v, rest)) ==> s =~= u16_le_bytes(v) + rest,
{
    if s.len() >= 2 {
        lemma_u16_le_decode(s.take(2));
        assert(s =~= s.take(2) + s.skip(2));
    }
}

pub proof fn lemma_take_u8_encoded(v: u8, rest: Seq<u8>)
    ensures
        take_u8(seq![v] + rest) == Ok::<(u8, Seq<u8>), DeserializationError>((v, rest)),
{
    assert((seq![v] + rest).skip(1) =~= rest);
}

// ---------------------------------------------------------------------------
// Exec writers
// ---------------------------------------------------------------------------

pub fn write_u8(out: &mut Vec<u8>, v: u8)
    ensures
        final(out)@ == old(out)@ + seq![v],
{
    out.push(v);
    assert(out@ =~= old(out)@ + seq![v]);
}

pub fn write_u16_le(out: &mut Vec<u8>, v: u16)
    ensures
        final(out)@ == old(out)@ + u16_le_bytes(v),
{
    out.push((v & 0xff) as u8);
    out.push((v >> 8u16) as u8);
    assert(out@ =~= old(out)@ + u16_le_bytes(v));
}

pub fn write_u16_be(out: &mut Vec<u8>, v: u16)
    ensures
        final(out)@ == old(out)@ + u16_be_bytes(v),
{
    out.push((v >> 8u16) as u8);
    out.push((v & 0xff) as u8);
    assert(out@ =~= old(out)@ + u16_be_bytes(v));
}

pub fn write_u64_be(out: &mut Vec<u8>, v: u64)
    ensures
        final(out)@ == old(out)@ + u64_be_bytes(v),
{
    out.push((v >> 56u64) as u8);
    out.push(((v >> 48u64) & 0xff) as u8);
    out.push(((v >> 40u64) & 0xff) as u8);
    out.push(((v >> 32u64) & 0xff) as u8);
    out.push(((v >> 24u64) & 0xff) as u8);
    out.push(((v >> 16u64) & 0xff) as u8);
    out.push(((v >> 8u64) & 0xff) as u8);
    out.push((v & 0xff) as u8);
    assert(out@ =~= old(out)@ + u64_be_bytes(v));
}

// ---------------------------------------------------------------------------
// Exec readers
// ---------------------------------------------------------------------------

pub fn read_u8(bytes: &[u8], pos: usize) -> (r: Result<(u8, usize), DeserializationError>)
    requires
        pos <= bytes@.len(),
    ensures
        at(bytes@, r) == take_u8(bytes@.skip(pos as int)),
        pos_ok(bytes@.len() as int, pos as int, r),
        r matches Ok((_, p)) ==> p == pos + 1,
{
    if pos >= bytes.len() {
        return Err(DeserializationError::EndOfInput);
    }
    let v = bytes[pos];
    assert(bytes@.skip(pos as int).skip(1) =~= bytes@.skip(pos + 1));
    Ok((v, pos + 1))
}

pub fn read_u16_le(bytes: &[u8], pos: usize) -> (r: Result<(u16, usize), DeserializationError>)
    requires
        pos <= bytes@.len(),
    ensures
        at(bytes@, r) == take_u16_le(bytes@.skip(pos as int)),
        pos_ok(bytes@.len() as int, pos as int, r),
{
    if bytes.len() - pos < 2 {
        return Err(DeserializationError::EndOfInput);
    }
    let v = (bytes[pos] as u16) | ((bytes[pos + 1] as u16) << 8u16);
    let ghost s = bytes@.skip(pos as int);
    assert(s.take(2)[0] == bytes@[pos as int] && s.take(2)[1] == bytes@[pos + 1]);
    assert(s.skip(2) =~= bytes@.skip(pos + 2));
    Ok((v, pos + 2))
}

pub fn read_u16_be(bytes: &[u8], pos: usize) -> (r: Result<(u16, usize), DeserializationError>)
    requires
        pos <= bytes@.len(),
    ensures
        at(bytes@, r) == take_u16_be(bytes@.skip(pos as int)),
        pos_ok(bytes@.len() as int, pos as int, r),
{
    if bytes.len() - pos < 2 {
        return Err(DeserializationError::EndOfInput);
    }
    let v = ((bytes[pos] as u16) << 8u16) | (bytes[pos + 1] as u16);
    let ghost s = bytes@.skip(pos as int);
    assert(s.take(2)[0] == bytes@[pos as int] && s.take(2)[1] == bytes@[pos + 1]);
    assert(s.skip(2) =~= bytes@.skip(pos + 2));
    Ok((v, pos + 2))
}

pub fn read_u64_be(bytes: &[u8], pos: usize) -> (r: Result<(u64, usize), DeserializationError>)
    requires
        pos <= bytes@.len(),
    ensures
        at(bytes@, r) == take_u64_be(bytes@.skip(pos as int)),
        pos_ok(bytes@.len() as int, pos as int, r),
{
    if bytes.len() - pos < 8 {
        return Err(DeserializationError::EndOfInput);
    }
    let v = ((bytes[pos] as u64) << 56u64) | ((bytes[pos + 1] as u64) << 48u64) | ((bytes[pos
        + 2] as u64) << 40u64) | ((bytes[pos + 3] as u64) << 32u64) | ((bytes[pos + 4] as u64)
        << 24u64) | ((bytes[pos + 5] as u64) << 16u64) | ((bytes[pos + 6] as u64) << 8u64) | (
    bytes[pos + 7] as u64);
    let ghost s = bytes@.skip(pos as int);
    let ghost t = s.take(8);
    assert(t[0] == bytes@[pos as int] && t[1] == bytes@[pos + 1] && t[2] == bytes@[pos + 2]
        && t[3] == bytes@[pos + 3] && t[4] == bytes@[pos + 4] && t[5] == bytes@[pos + 5] && t[6]
        == bytes@[pos + 6] && t[7] == bytes@[pos + 7]);
    assert(s.skip(8) =~= bytes@.skip(pos + 8));
    Ok((v, pos + 8))
}

} // verus!
