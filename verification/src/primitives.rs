//! 256-bit values (accounts, block hashes, message hashes) and frontiers.

use vstd::prelude::*;
use crate::codec::{
    at, be_value, lemma_be_value_concat, lemma_pow256_8, lemma_u64_be_value, lemma_take_u64_be_encoded, lemma_take_u64_be_split, pos_ok, read_u64_be, take_u64_be,
    u64_be_bytes, write_u64_be, DeserializationError, Take,
};

verus! {

/// A 256-bit value held as four 64-bit words, most significant first.
/// On the wire it is 32 bytes: the four words, each big-endian.
#[derive(Clone, Copy, Debug, PartialEq, Eq, Structural, Hash, Default)]
pub struct Bytes32 {
    pub w0: u64,
    pub w1: u64,
    pub w2: u64,
    pub w3: u64,
}

/// The public key of an account.
pub type Account = Bytes32;

/// The hash of a block.
pub type BlockHash = Bytes32;

/// A value that is read either as a block hash or as an account.
pub type HashOrAccount = Bytes32;

/// The hash of a snapshot message.
pub type MessageHash = Bytes32;

pub const BYTES32_LEN: usize = 32;

impl Bytes32 {
    /// The value `v` as a 256-bit number.
    pub fn from_u64(v: u64) -> (r: Bytes32)
        ensures
            r == (Bytes32 { w0: 0, w1: 0, w2: 0, w3: v }),
    {
        Bytes32 { w0: 0, w1: 0, w2: 0, w3: v }
    }

    pub fn zero() -> (r: Bytes32)
        ensures
            r == (Bytes32 { w0: 0, w1: 0, w2: 0, w3: 0 }),
    {
        Bytes32 { w0: 0, w1: 0, w2: 0, w3: 0 }
    }

    pub open spec fn is_zero_spec(self) -> bool {
        self.w0 == 0 && self.w1 == 0 && self.w2 == 0 && self.w3 == 0
    }

    pub fn is_zero(&self) -> (r: bool)
        ensures
            r == self.is_zero_spec(),
    {
        self.w0 == 0 && self.w1 == 0 && self.w2 == 0 && self.w3 == 0
    }

    /// Numeric order of 256-bit values, which is the order of their 32 wire bytes.
    pub open spec fn le_spec(self, other: Bytes32) -> bool {
        if self.w0 != other.w0 {
            self.w0 < other.w0
        } else if self.w1 != other.w1 {
            self.w1 < other.w1
        } else if self.w2 != other.w2 {
            self.w2 < other.w2
        } else {
            self.w3 <= other.w3
        }
    }

    /// `self` is numerically no greater than `other`.
    pub fn le(&self, other: &Bytes32) -> (r: bool)
        ensures
            r == self.le_spec(*other),
            r == (bytes32_value(*self) <= bytes32_value(*other)),
    {
        proof {
            lemma_bytes32_order_is_numeric(*self, *other);
        }
        if self.w0 != other.w0 {
            self.w0 < other.w0
        } else if self.w1 != other.w1 {
            self.w1 < other.w1
        } else if self.w2 != other.w2 {
            self.w2 < other.w2
        } else {
            self.w3 <= other.w3
        }
    }
}

/// The number that a 256-bit value stands for:
/// `w0 * 2^192 + w1 * 2^128 + w2 * 2^64 + w3`.
pub open spec fn bytes32_value(v: Bytes32) -> nat {
    (v.w0 * 0x1_0000_0000_0000_0000_0000_0000_0000_0000_0000_0000_0000_0000
        + v.w1 * 0x1_0000_0000_0000_0000_0000_0000_0000_0000
        + v.w2 * 0x1_0000_0000_0000_0000 + v.w3) as nat
}

/// The order on 256-bit values is the order of the numbers they stand for.
pub proof fn lemma_bytes32_order_is_numeric(a: Bytes32, b: Bytes32)
    ensures
        a.le_spec(b) <==> bytes32_value(a) <= bytes32_value(b),
        bytes32_value(a) == bytes32_value(b) <==> a == b,
{
}

/// The order on 256-bit values is total, antisymmetric and transitive.
pub proof fn lemma_bytes32_order(a: Bytes32, b: Bytes32, c: Bytes32)
    ensures
        a.le_spec(a),
        a.le_spec(b) || b.le_spec(a),
        a.le_spec(b) && b.le_spec(a) ==> a == b,
        a.le_spec(b) && b.le_spec(c) ==> a.le_spec(c),
{
}

pub closed spec fn bytes32_bytes(v: Bytes32) -> Seq<u8> {
    u64_be_bytes(v.w0) + u64_be_bytes(v.w1) + u64_be_bytes(v.w2) + u64_be_bytes(v.w3)
}

pub closed spec fn take_bytes32(s: Seq<u8>) -> Take<Bytes32> {
    match take_u64_be(s) {
        Err(e) => Err(e),
        Ok((w0, s1)) => match take_u64_be(s1) {
            Err(e) => Err(e),
            Ok((w1, s2)) => match take_u64_be(s2) {
                Err(e) => Err(e),
                Ok((w2, s3)) => match take_u64_be(s3) {
                    Err(e) => Err(e),
                    Ok((w3, s4)) => Ok((Bytes32 { w0, w1, w2, w3 }, s4)),
                },
            },
        },
    }
}

pub proof fn lemma_take_bytes32_encoded(v: Bytes32, rest: Seq<u8>)
    ensures
        take_bytes32(bytes32_bytes(v) + rest) == Ok::<(Bytes32, Seq<u8>), DeserializationError>(
            (v, rest),
        ),
{
    let r3 = u64_be_bytes(v.w3) + rest;
    let r2 = u64_be_bytes(v.w2) + r3;
    let r1 = u64_be_bytes(v.w1) + r2;
    assert(bytes32_bytes(v) + rest =~= u64_be_bytes(v.w0) + r1);
    lemma_take_u64_be_encoded(v.w0, r1);
    lemma_take_u64_be_encoded(v.w1, r2);
    lemma_take_u64_be_encoded(v.w2, r3);
    lemma_take_u64_be_encoded(v.w3, rest);
}

pub proof fn lemma_take_bytes32_split(s: Seq<u8>)
    ensures
        take_bytes32(s) matches Ok((v, rest)) ==> s =~= bytes32_bytes(v) + rest,
        take_bytes32(s) is Err <==> s.len() < 32,
        take_bytes32(s) is Err ==> take_bytes32(s) == Err::<(Bytes32, Seq<u8>), DeserializationError>(
            DeserializationError::EndOfInput,
        ),
{
    lemma_take_u64_be_split(s);
    if let Ok((w0, s1)) = take_u64_be(s) {
        lemma_take_u64_be_split(s1);
        if let Ok((w1, s2)) = take_u64_be(s1) {
            lemma_take_u64_be_split(s2);
            if let Ok((w2, s3)) = take_u64_be(s2) {
                lemma_take_u64_be_split(s3);
                if let Ok((w3, s4)) = take_u64_be(s3) {
                    let v = Bytes32 { w0, w1, w2, w3 };
                    assert(s =~= bytes32_bytes(v) + s4);
                }
            }
        }
    }
}

pub proof fn lemma_bytes32_len(v: Bytes32)
    ensures
        bytes32_bytes(v).len() == 32,
{
}

/// The 32 wire bytes of a 256-bit value, read as a big-endian number, are
/// the number that the value stands for.
pub proof fn lemma_bytes32_bytes_value(v: Bytes32)
    ensures
        bytes32_bytes(v).len() == 32,
        be_value(bytes32_bytes(v)) == bytes32_value(v),
{
    let a = u64_be_bytes(v.w0);
    let b = u64_be_bytes(v.w1);
    let c = u64_be_bytes(v.w2);
    let d = u64_be_bytes(v.w3);
    lemma_u64_be_value(v.w0);
    lemma_u64_be_value(v.w1);
    lemma_u64_be_value(v.w2);
    lemma_u64_be_value(v.w3);
    lemma_pow256_8();
    lemma_be_value_concat(a, b);
    lemma_be_value_concat(a + b, c);
    lemma_be_value_concat(a + b + c, d);
    let p: int = 0x1_0000_0000_0000_0000;
    let x = be_value(a + b);
    let y = be_value(a + b + c);
    assert(x == v.w0 * p + v.w1);
    assert(y == x * p + v.w2);
    assert(be_value(a + b + c + d) == y * p + v.w3);
    assert(y * p + v.w3 == bytes32_value(v)) by (nonlinear_arith)
        requires
            x == v.w0 * p + v.w1,
            y == x * p + v.w2,
            p == 0x1_0000_0000_0000_0000,
    ;
}

/// Reading a 256-bit value takes the first 32 bytes and gives the number they
/// spell big-endian.
pub proof fn lemma_take_bytes32_value(s: Seq<u8>)
    ensures
        take_bytes32(s) matches Ok((v, rest)) ==> s.len() >= 32 && bytes32_value(v) == be_value(
            s.take(32),
        ) && rest == s.skip(32),
{
    lemma_take_bytes32_split(s);
    if let Ok((v, rest)) = take_bytes32(s) {
        lemma_bytes32_bytes_value(v);
        assert(s.take(32) =~= bytes32_bytes(v));
        assert(s.skip(32) =~= rest);
    }
}

pub fn write_bytes32(out: &mut Vec<u8>, v: &Bytes32)
    ensures
        final(out)@ == old(out)@ + bytes32_bytes(*v),
        final(out)@.len() == old(out)@.len() + 32,
        be_value(final(out)@.skip(old(out)@.len() as int)) == bytes32_value(*v),
{
    proof {
        lemma_bytes32_bytes_value(*v);
    }
    write_u64_be(out, v.w0);
    write_u64_be(out, v.w1);
    write_u64_be(out, v.w2);
    write_u64_be(out, v.w3);
    assert(out@ =~= old(out)@ + bytes32_bytes(*v));
    assert(out@.skip(old(out)@.len() as int) =~= bytes32_bytes(*v));
}

pub fn read_bytes32(bytes: &[u8], pos: usize) -> (r: Result<(Bytes32, usize), DeserializationError>)
    requires
        pos <= bytes@.len(),
    ensures
        at(bytes@, r) == take_bytes32(bytes@.skip(pos as int)),
        pos_ok(bytes@.len() as int, pos as int, r),
        r matches Ok((v, p)) ==> p == pos + 32 && bytes32_value(v) == be_value(
            bytes@.subrange(pos as int, pos + 32),
        ),
{
    let (w0, p1) = read_u64_be(bytes, pos)?;
    let (w1, p2) = read_u64_be(bytes, p1)?;
    let (w2, p3) = read_u64_be(bytes, p2)?;
    let (w3, p4) = read_u64_be(bytes, p3)?;
    let v = Bytes32 { w0, w1, w2, w3 };
    proof {
        let s = bytes@.skip(pos as int);
        lemma_take_bytes32_value(s);
        assert(bytes@.skip(p4 as int) == s.skip(32));
        assert(bytes@.skip(p4 as int).len() == s.skip(32).len());
        assert(s.take(32) =~= bytes@.subrange(pos as int, pos + 32));
    }
    Ok((v, p4))
}

/// The confirmed head block of an account.
#[derive(Clone, Copy, Debug, PartialEq, Eq, Structural, Hash, Default)]
pub struct Frontier {
    pub account: Account,
    pub hash: BlockHash,
}

impl Frontier {
    pub fn new(account: Account, hash: BlockHash) -> (r: Frontier)
        ensures
            r == (Frontier { account, hash }),
    {
        Frontier { account, hash }
    }

    /// The all-zero frontier, which terminates a list of frontiers on the wire.
    pub open spec fn is_terminator_spec(self) -> bool {
        self.account.is_zero_spec() && self.hash.is_zero_spec()
    }

    pub fn is_terminator(&self) -> (r: bool)
        ensures
            r == self.is_terminator_spec(),
    {
        self.account.is_zero() && self.hash.is_zero()
    }

    /// The all-zero frontier.
    pub open spec fn default_spec() -> Frontier {
        Frontier { account: Bytes32 { w0: 0, w1: 0, w2: 0, w3: 0 }, hash: Bytes32 { w0: 0, w1: 0, w2: 0, w3: 0 } }
    }

    pub fn terminator() -> (r: Frontier)
        ensures
            r.is_terminator_spec(),
    {
        Frontier { account: Bytes32::zero(), hash: Bytes32::zero() }
    }
}

pub closed spec fn frontier_bytes(f: Frontier) -> Seq<u8> {
    bytes32_bytes(f.account) + bytes32_bytes(f.hash)
}

pub closed spec fn take_frontier(s: Seq<u8>) -> Take<Frontier> {
    match take_bytes32(s) {
        Err(e) => Err(e),
        Ok((account, s1)) => match take_bytes32(s1) {
            Err(e) => Err(e),
            Ok((hash, s2)) => Ok((Frontier { account, hash }, s2)),
        },
    }
}

pub proof fn lemma_take_frontier_encoded(f: Frontier, rest: Seq<u8>)
    ensures
        take_frontier(frontier_bytes(f) + rest) == Ok::<(Frontier, Seq<u8>), DeserializationError>(
            (f, rest),
        ),
{
    let r1 = bytes32_bytes(f.hash) + rest;
    assert(frontier_bytes(f) + rest =~= bytes32_bytes(f.account) + r1);
    lemma_take_bytes32_encoded(f.account, r1);
    lemma_take_bytes32_encoded(f.hash, rest);
}

pub proof fn lemma_frontier_len(f: Frontier)
    ensures
        frontier_bytes(f).len() == 64,
{
}

/// A frontier on the wire is its account's 32 big-endian bytes, then its
/// block hash's.
pub proof fn lemma_frontier_bytes_value(f: Frontier)
    ensures
        frontier_bytes(f).len() == 64,
        be_value(frontier_bytes(f).take(32)) == bytes32_value(f.account),
        be_value(frontier_bytes(f).skip(32)) == bytes32_value(f.hash),
{
    lemma_bytes32_bytes_value(f.account);
    lemma_bytes32_bytes_value(f.hash);
    assert(frontier_bytes(f).take(32) =~= bytes32_bytes(f.account));
    assert(frontier_bytes(f).skip(32) =~= bytes32_bytes(f.hash));
}

pub fn write_frontier(out: &mut Vec<u8>, f: &Frontier)
    ensures
        final(out)@ == old(out)@ + frontier_bytes(*f),
{
    write_bytes32(out, &f.account);
    write_bytes32(out, &f.hash);
    assert(out@ =~= old(out)@ + frontier_bytes(*f));
}

pub fn read_frontier(bytes: &[u8], pos: usize) -> (r: Result<(Frontier, usize), DeserializationError>)
    requires
        pos <= bytes@.len(),
    ensures
        at(bytes@, r) == take_frontier(bytes@.skip(pos as int)),
        pos_ok(bytes@.len() as int, pos as int, r),
{
    let (account, p1) = read_bytes32(bytes, pos)?;
    let (hash, p2) = read_bytes32(bytes, p1)?;
    Ok((Frontier { account, hash }, p2))
}

} // verus!
