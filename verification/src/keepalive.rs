//! The keepalive message: eight peer addresses.
//!
//! On the wire each peer is its 16-byte IPv6 address (network order) and its
//! port (16 bits, little-endian); the message is the eight peers in order.

use vstd::prelude::*;
use crate::asc_pull_ack::prepend;
use crate::codec::{
    at, be_value, lemma_be_value_concat, lemma_pow256_8, lemma_u16_le_value, lemma_u64_be_value,
    lemma_take_u16_le_encoded, lemma_take_u16_le_split, lemma_take_u64_be_encoded,
    lemma_take_u64_be_split, pos_ok, read_u16_le, read_u64_be, take_u16_le, take_u64_be,
    u16_le_bytes, u64_be_bytes, write_u16_le, write_u64_be, DeserializationError, Take,
};

verus! {

/// An IPv6 socket address: the address as a 128-bit number and the port.
#[derive(Clone, Copy, Debug, PartialEq, Eq, Structural, Hash, Default)]
pub struct PeerAddress {
    pub ip: u128,
    pub port: u16,
}

impl PeerAddress {
    /// The unspecified address `[::]:0`.
    pub fn unspecified() -> (r: PeerAddress)
        ensures
            r == (PeerAddress { ip: 0, port: 0 }),
    {
        PeerAddress { ip: 0, port: 0 }
    }

    /// The address `[a:b:c:d:e:f:g:h]:port` from its eight 16-bit segments.
    pub fn from_segments(seg: [u16; 8], port: u16) -> (r: PeerAddress)
        ensures
            r.port == port,
            r.ip == segments_value(seg@),
    {
        let ip = ((seg[0] as u128) << 112u128) | ((seg[1] as u128) << 96u128) | ((seg[2] as u128)
            << 80u128) | ((seg[3] as u128) << 64u128) | ((seg[4] as u128) << 48u128) | ((
        seg[5] as u128) << 32u128) | ((seg[6] as u128) << 16u128) | (seg[7] as u128);
        PeerAddress { ip, port }
    }
}

/// The 128-bit value of eight 16-bit segments, most significant first.
pub open spec fn segments_value(seg: Seq<u16>) -> u128 {
    ((seg[0] as u128) << 112u128) | ((seg[1] as u128) << 96u128) | ((seg[2] as u128) << 80u128)
        | ((seg[3] as u128) << 64u128) | ((seg[4] as u128) << 48u128) | ((seg[5] as u128)
        << 32u128) | ((seg[6] as u128) << 16u128) | (seg[7] as u128)
}

pub open spec fn u128_be_bytes(v: u128) -> Seq<u8> {
    u64_be_bytes((v >> 64u128) as u64) + u64_be_bytes(v as u64)
}

pub open spec fn take_u128_be(s: Seq<u8>) -> Take<u128> {
    match take_u64_be(s) {
        Err(e) => Err(e),
        Ok((hi, s1)) => match take_u64_be(s1) {
            Err(e) => Err(e),
            Ok((lo, s2)) => Ok(((((hi as u128) << 64u128) | (lo as u128)), s2)),
        },
    }
}

pub open spec fn peer_bytes(p: PeerAddress) -> Seq<u8> {
    u128_be_bytes(p.ip) + u16_le_bytes(p.port)
}

pub open spec fn take_peer(s: Seq<u8>) -> Take<PeerAddress> {
    match take_u128_be(s) {
        Err(e) => Err(e),
        Ok((ip, s1)) => match take_u16_le(s1) {
            Err(e) => Err(e),
            Ok((port, s2)) => Ok((PeerAddress { ip, port }, s2)),
        },
    }
}

/// The encodings of the peers, one after the other.
pub open spec fn peers_bytes(ps: Seq<PeerAddress>) -> Seq<u8>
    decreases ps.len(),
{
    if ps.len() == 0 {
        Seq::empty()
    } else {
        peer_bytes(ps[0]) + peers_bytes(ps.drop_first())
    }
}

/// Reads `n` peers one after the other.
pub open spec fn parse_peers(s: Seq<u8>, n: nat) -> Result<Seq<PeerAddress>, DeserializationError>
    decreases n,
{
    if n == 0 {
        Ok(Seq::empty())
    } else {
        match take_peer(s) {
            Err(e) => Err(e),
            Ok((p, rest)) => prepend(seq![p], parse_peers(rest, (n - 1) as nat)),
        }
    }
}

pub const KEEPALIVE_PEERS: usize = 8;

/// Eight peers that the sender knows.
#[derive(Clone, Copy, Debug, PartialEq, Eq)]
pub struct Keepalive {
    pub peers: [PeerAddress; 8],
}

impl Keepalive {
    pub const SERIALIZED_SIZE: usize = 144;

    pub fn new_test_instance() -> (r: Keepalive)
        ensures
            r.peers@.len() == 8,
            forall|i: int|
                0 <= i < 8 ==> (#[trigger] r.peers@[i]).port == 1111 * (i + 1) && r.peers@[i].ip
                    == segments_value(seq![0u16, 0, 0, 0xffff, 1, 2, 3, if i < 6 { (4 + i) as u16 } else { (0x10 + i - 6) as u16 }]),
    {
        let peers = [
            PeerAddress::from_segments([0, 0, 0, 0xffff, 1, 2, 3, 4], 1111),
            PeerAddress::from_segments([0, 0, 0, 0xffff, 1, 2, 3, 5], 2222),
            PeerAddress::from_segments([0, 0, 0, 0xffff, 1, 2, 3, 6], 3333),
            PeerAddress::from_segments([0, 0, 0, 0xffff, 1, 2, 3, 7], 4444),
            PeerAddress::from_segments([0, 0, 0, 0xffff, 1, 2, 3, 8], 5555),
            PeerAddress::from_segments([0, 0, 0, 0xffff, 1, 2, 3, 9], 6666),
            PeerAddress::from_segments([0, 0, 0, 0xffff, 1, 2, 3, 0x10], 7777),
            PeerAddress::from_segments([0, 0, 0, 0xffff, 1, 2, 3, 0x11], 8888),
        ];
        Keepalive { peers }
    }

    /// Writes the eight peers.
    pub fn serialize(&self, out: &mut Vec<u8>)
        ensures
            final(out)@ == old(out)@ + peers_bytes(self.peers@),
    {
        let mut i: usize = 0;
        while i < 8
            invariant
                0 <= i <= 8,
                self.peers@.len() == 8,
                out@ == old(out)@ + peers_bytes(self.peers@.take(i as int)),
            decreases 8 - i,
        {
            let peer = self.peers[i];
            write_u64_be(out, (peer.ip >> 64u128) as u64);
            write_u64_be(out, peer.ip as u64);
            write_u16_le(out, peer.port);
            proof {
                lemma_peers_bytes_push(self.peers@.take(i as int), peer);
                assert(self.peers@.take(i as int).push(peer) =~= self.peers@.take(i + 1));
            }
            assert(out@ =~= old(out)@ + peers_bytes(self.peers@.take(i + 1)));
            i = i + 1;
        }
        assert(self.peers@.take(8) =~= self.peers@);
    }

    /// Reads eight peers from the start of `bytes`; bytes after them are
    /// ignored.
    pub fn deserialize(bytes: &[u8]) -> (r: Result<Keepalive, DeserializationError>)
        ensures
            match r {
                Ok(k) => parse_peers(bytes@, 8) == Ok::<Seq<PeerAddress>, DeserializationError>(
                    k.peers@,
                ),
                Err(e) => parse_peers(bytes@, 8) == Err::<Seq<PeerAddress>, DeserializationError>(
                    e,
                ),
            },
    {
        let mut peers = [PeerAddress::unspecified();8];
        let mut pos: usize = 0;
        let mut i: usize = 0;
        assert(bytes@.skip(0) =~= bytes@);
        proof {
            if let Ok(xs) = parse_peers(bytes@, 8) {
                assert(peers@.take(0) + xs =~= xs);
            }
        }
        while i < 8
            invariant
                0 <= i <= 8,
                pos <= bytes@.len(),
                peers@.len() == 8,
                parse_peers(bytes@, 8) == prepend(
                    peers@.take(i as int),
                    parse_peers(bytes@.skip(pos as int), (8 - i) as nat),
                ),
            decreases 8 - i,
        {
            let (peer, p) = read_peer(bytes, pos)?;
            let ghost before = peers@;
            peers[i] = peer;
            proof {
                assert(peers@.take(i as int) =~= before.take(i as int));
                assert(peers@.take(i + 1) =~= before.take(i as int).push(peer));
                let tail = parse_peers(bytes@.skip(p as int), (8 - i - 1) as nat);
                if let Ok(xs) = tail {
                    assert(before.take(i as int) + (seq![peer] + xs) =~= peers@.take(i + 1) + xs);
                }
            }
            pos = p;
            i = i + 1;
        }
        proof {
            assert(peers@.take(8) =~= peers@);
            assert(peers@ + Seq::<PeerAddress>::empty() =~= peers@);
        }
        Ok(Keepalive { peers })
    }
}

impl Default for Keepalive {
    fn default() -> (r: Keepalive)
        ensures
            forall|i: int| 0 <= i < 8 ==> #[trigger] r.peers@[i] == (PeerAddress { ip: 0, port: 0 }),
    {
        Keepalive { peers: [PeerAddress::unspecified();8] }
    }
}

fn read_u128_be(bytes: &[u8], pos: usize) -> (r: Result<(u128, usize), DeserializationError>)
    requires
        pos <= bytes@.len(),
    ensures
        at(bytes@, r) == take_u128_be(bytes@.skip(pos as int)),
        pos_ok(bytes@.len() as int, pos as int, r),
{
    let (hi, p1) = read_u64_be(bytes, pos)?;
    let (lo, p2) = read_u64_be(bytes, p1)?;
    Ok((((hi as u128) << 64u128) | (lo as u128), p2))
}

fn read_peer(bytes: &[u8], pos: usize) -> (r: Result<(PeerAddress, usize), DeserializationError>)
    requires
        pos <= bytes@.len(),
    ensures
        at(bytes@, r) == take_peer(bytes@.skip(pos as int)),
        pos_ok(bytes@.len() as int, pos as int, r),
{
    let (ip, p1) = read_u128_be(bytes, pos)?;
    let (port, p2) = read_u16_le(bytes, p1)?;
    Ok((PeerAddress { ip, port }, p2))
}

pub proof fn lemma_peers_bytes_push(ps: Seq<PeerAddress>, p: PeerAddress)
    ensures
        peers_bytes(ps.push(p)) == peers_bytes(ps) + peer_bytes(p),
    decreases ps.len(),
{
    if ps.len() == 0 {
        assert(ps.push(p).drop_first() =~= Seq::<PeerAddress>::empty());
        assert(peers_bytes(Seq::<PeerAddress>::empty()) == Seq::<u8>::empty());
        assert(ps.push(p)[0] == p);
        assert(peers_bytes(ps.push(p)) =~= peers_bytes(ps) + peer_bytes(p));
    } else {
        lemma_peers_bytes_push(ps.drop_first(), p);
        assert(ps.push(p).drop_first() =~= ps.drop_first().push(p));
        assert(peers_bytes(ps.push(p)) =~= peers_bytes(ps) + peer_bytes(p));
    }
}

proof fn lemma_u128_split_join(v: u128)
    ensures
        ((((v >> 64u128) as u64) as u128) << 64u128) | ((v as u64) as u128) == v,
{
    assert(((((v >> 64u128) as u64) as u128) << 64u128) | ((v as u64) as u128) == v) by (bit_vector);
}

proof fn lemma_u128_join_split(hi: u64, lo: u64)
    ensures
        ((((hi as u128) << 64u128) | (lo as u128)) >> 64u128) as u64 == hi,
        (((hi as u128) << 64u128) | (lo as u128)) as u64 == lo,
{
    assert(((((hi as u128) << 64u128) | (lo as u128)) >> 64u128) as u64 == hi) by (bit_vector);
    assert((((hi as u128) << 64u128) | (lo as u128)) as u64 == lo) by (bit_vector);
}

proof fn lemma_take_peer_encoded(p: PeerAddress, rest: Seq<u8>)
    ensures
        take_peer(peer_bytes(p) + rest) == Ok::<(PeerAddress, Seq<u8>), DeserializationError>(
            (p, rest),
        ),
{
    let hi = (p.ip >> 64u128) as u64;
    let lo = p.ip as u64;
    let r2 = u16_le_bytes(p.port) + rest;
    let r1 = u64_be_bytes(lo) + r2;
    assert(peer_bytes(p) + rest =~= u64_be_bytes(hi) + r1);
    lemma_take_u64_be_encoded(hi, r1);
    lemma_take_u64_be_encoded(lo, r2);
    lemma_take_u16_le_encoded(p.port, rest);
    lemma_u128_split_join(p.ip);
}

proof fn lemma_take_peer_split(s: Seq<u8>)
    ensures
        take_peer(s) matches Ok((p, rest)) ==> s =~= peer_bytes(p) + rest,
{
    lemma_take_u64_be_split(s);
    if let Ok((hi, s1)) = take_u64_be(s) {
        lemma_take_u64_be_split(s1);
        if let Ok((lo, s2)) = take_u64_be(s1) {
            lemma_take_u16_le_split(s2);
            if let Ok((port, s3)) = take_u16_le(s2) {
                lemma_u128_join_split(hi, lo);
                let p = PeerAddress { ip: ((hi as u128) << 64u128) | (lo as u128), port };
                assert(s =~= peer_bytes(p) + s3);
            }
        }
    }
}

proof fn lemma_parse_peers_encoded(ps: Seq<PeerAddress>, rest: Seq<u8>)
    ensures
        parse_peers(peers_bytes(ps) + rest, ps.len()) == Ok::<Seq<PeerAddress>, DeserializationError>(
            ps,
        ),
    decreases ps.len(),
{
    if ps.len() == 0 {
        assert(peers_bytes(ps) + rest =~= rest);
        assert(ps =~= Seq::<PeerAddress>::empty());
    } else {
        let p = ps[0];
        let tail = ps.drop_first();
        lemma_parse_peers_encoded(tail, rest);
        assert(peers_bytes(ps) + rest =~= peer_bytes(p) + (peers_bytes(tail) + rest));
        lemma_take_peer_encoded(p, peers_bytes(tail) + rest);
        assert(seq![p] + tail =~= ps);
    }
}

proof fn lemma_parse_peers_split(s: Seq<u8>, n: nat)
    ensures
        parse_peers(s, n) matches Ok(ps) ==> ps.len() == n && peers_bytes(ps).len() <= s.len()
            && s.take(peers_bytes(ps).len() as int) == peers_bytes(ps),
    decreases n,
{
    if n > 0 {
        lemma_take_peer_split(s);
        if let Ok((p, rest)) = take_peer(s) {
            lemma_parse_peers_split(rest, (n - 1) as nat);
            if let Ok(xs) = parse_peers(rest, (n - 1) as nat) {
                let ps = seq![p] + xs;
                assert(ps.drop_first() =~= xs);
                assert(ps[0] == p);
                assert(peers_bytes(ps) == peer_bytes(p) + peers_bytes(xs));
                assert(s == peer_bytes(p) + rest);
                let a = peer_bytes(p).len() as int;
                let b = peers_bytes(xs).len() as int;
                assert(rest.take(b) == peers_bytes(xs));
                assert(s.take(a + b) =~= peer_bytes(p) + rest.take(b));
            }
        }
    } else {
        if let Ok(ps) = parse_peers(s, n) {
            assert(ps =~= Seq::<PeerAddress>::empty());
            assert(peers_bytes(ps) =~= Seq::<u8>::empty());
        }
    }
}

/// Decoding the encoding of eight peers, followed by any bytes, gives the
/// peers back.
pub proof fn lemma_keepalive_roundtrip(k: Keepalive, rest: Seq<u8>)
    ensures
        parse_peers(peers_bytes(k.peers@) + rest, 8) == Ok::<
            Seq<PeerAddress>,
            DeserializationError,
        >(k.peers@),
{
    lemma_parse_peers_encoded(k.peers@, rest);
}

/// A decoded keepalive is exactly what the input starts with.
pub proof fn lemma_keepalive_unique(s: Seq<u8>)
    ensures
        parse_peers(s, 8) matches Ok(ps) ==> s.take(peers_bytes(ps).len() as int) == peers_bytes(
            ps,
        ),
{
    lemma_parse_peers_split(s, 8);
}

/// The 16 wire bytes of an address, read as a big-endian number, are the
/// address: the IPv6 address in network order.
pub proof fn lemma_u128_be_value(v: u128)
    ensures
        u128_be_bytes(v).len() == 16,
        be_value(u128_be_bytes(v)) == v,
{
    let hi = (v >> 64u128) as u64;
    let lo = v as u64;
    lemma_u64_be_value(hi);
    lemma_u64_be_value(lo);
    lemma_pow256_8();
    lemma_be_value_concat(u64_be_bytes(hi), u64_be_bytes(lo));
    assert(v == hi * 0x1_0000_0000_0000_0000u128 + lo) by (bit_vector)
        requires
            hi == (v >> 64u128) as u64,
            lo == v as u64,
    ;
}

/// Reading an address takes the first 16 bytes and gives the number they
/// spell big-endian.
pub proof fn lemma_take_u128_be_value(s: Seq<u8>)
    ensures
        take_u128_be(s) matches Ok((v, rest)) ==> s.len() >= 16 && v == be_value(s.take(16))
            && rest == s.skip(16),
{
    lemma_take_u64_be_split(s);
    if let Ok((hi, s1)) = take_u64_be(s) {
        lemma_take_u64_be_split(s1);
        if let Ok((lo, s2)) = take_u64_be(s1) {
            lemma_u128_join_split(hi, lo);
            let v = ((hi as u128) << 64u128) | (lo as u128);
            lemma_u128_be_value(v);
            assert(s.take(16) =~= u128_be_bytes(v));
            assert(s.skip(16) =~= s2);
        }
    }
}

/// A peer on the wire: its address as 16 big-endian bytes, then its port,
/// low byte first.
pub proof fn lemma_peer_bytes_value(p: PeerAddress)
    ensures
        peer_bytes(p).len() == 18,
        be_value(peer_bytes(p).take(16)) == p.ip,
        peer_bytes(p)[16] + 256 * peer_bytes(p)[17] == p.port,
{
    lemma_u128_be_value(p.ip);
    lemma_u16_le_value(p.port);
    assert(peer_bytes(p).take(16) =~= u128_be_bytes(p.ip));
    assert(peer_bytes(p)[16] == u16_le_bytes(p.port)[0]);
    assert(peer_bytes(p)[17] == u16_le_bytes(p.port)[1]);
}

proof fn lemma_peers_bytes_at(ps: Seq<PeerAddress>, k: int)
    requires
        0 <= k < ps.len(),
    ensures
        peers_bytes(ps).len() == 18 * ps.len(),
        peers_bytes(ps).subrange(18 * k, 18 * k + 18) == peer_bytes(ps[k]),
    decreases ps.len(),
{
    let t = ps.drop_first();
    lemma_peers_bytes_len(ps);
    lemma_peers_bytes_len(t);
    lemma_peer_bytes_value(ps[0]);
    let l = peers_bytes(ps);
    if k == 0 {
        assert(l.subrange(0, 18) =~= peer_bytes(ps[0]));
    } else {
        lemma_peers_bytes_at(t, k - 1);
        assert(t[k - 1] == ps[k]);
        assert(l.subrange(18 * k, 18 * k + 18) =~= peers_bytes(t).subrange(
            18 * (k - 1),
            18 * (k - 1) + 18,
        ));
    }
}

proof fn lemma_peers_bytes_len(ps: Seq<PeerAddress>)
    ensures
        peers_bytes(ps).len() == 18 * ps.len(),
    decreases ps.len(),
{
    if ps.len() > 0 {
        lemma_peers_bytes_len(ps.drop_first());
        lemma_peer_bytes_value(ps[0]);
    }
}

/// The keepalive message on the wire: peer `k` at bytes `18k ..`, its
/// address as 16 bytes in network order (big-endian), then its port, low
/// byte first; 144 bytes in all.
pub proof fn lemma_keepalive_layout(k: Keepalive)
    ensures
        ({
            let s = peers_bytes(k.peers@);
            &&& s.len() == 144
            &&& forall|i: int|
                0 <= i < 8 ==> be_value(#[trigger] s.subrange(18 * i, 18 * i + 16)) == k.peers@[i].ip
                    && s[18 * i + 16] + 256 * s[18 * i + 17] == k.peers@[i].port
        }),
{
    let s = peers_bytes(k.peers@);
    lemma_peers_bytes_len(k.peers@);
    assert forall|i: int| 0 <= i < 8 implies be_value(#[trigger] s.subrange(18 * i, 18 * i + 16))
        == k.peers@[i].ip && s[18 * i + 16] + 256 * s[18 * i + 17] == k.peers@[i].port by {
        lemma_peers_bytes_at(k.peers@, i);
        let b = peer_bytes(k.peers@[i]);
        lemma_peer_bytes_value(k.peers@[i]);
        assert(s.subrange(18 * i, 18 * i + 18) == b);
        assert(s.subrange(18 * i, 18 * i + 16) =~= b.take(16)) by {
            assert forall|j: int| 0 <= j < 16 implies s.subrange(18 * i, 18 * i + 16)[j] == b.take(
                16,
            )[j] by {
                assert(s.subrange(18 * i, 18 * i + 18)[j] == s[18 * i + j]);
            }
        }
        assert(s.subrange(18 * i, 18 * i + 18)[16] == s[18 * i + 16]);
        assert(s.subrange(18 * i, 18 * i + 18)[17] == s[18 * i + 17]);
    }
}

/// A decoded keepalive takes peer `k`'s address from bytes `18k .. 18k + 16`
/// read big-endian, and its port from the next two bytes, low byte first.
pub proof fn lemma_parse_keepalive_fields(s: Seq<u8>)
    ensures
        parse_peers(s, 8) matches Ok(ps) ==> {
            &&& ps.len() == 8
            &&& s.len() >= 144
            &&& forall|i: int|
                0 <= i < 8 ==> (#[trigger] ps[i]).ip == be_value(s.subrange(18 * i, 18 * i + 16))
                    && ps[i].port == s[18 * i + 16] + 256 * s[18 * i + 17]
        },
{
    lemma_parse_peers_split(s, 8);
    if let Ok(ps) = parse_peers(s, 8) {
        let e = peers_bytes(ps);
        lemma_peers_bytes_len(ps);
        assert(s.take(144) == e);
        assert forall|i: int| 0 <= i < 8 implies (#[trigger] ps[i]).ip == be_value(
            s.subrange(18 * i, 18 * i + 16),
        ) && ps[i].port == s[18 * i + 16] + 256 * s[18 * i + 17] by {
            lemma_peers_bytes_at(ps, i);
            lemma_peer_bytes_value(ps[i]);
            let b = peer_bytes(ps[i]);
            assert(e.subrange(18 * i, 18 * i + 18) == b);
            assert(s.subrange(18 * i, 18 * i + 16) =~= b.take(16)) by {
                assert forall|j: int| 0 <= j < 16 implies s.subrange(18 * i, 18 * i + 16)[j]
                    == b.take(16)[j] by {
                    assert(e.subrange(18 * i, 18 * i + 18)[j] == e[18 * i + j]);
                    assert(s.take(144)[18 * i + j] == s[18 * i + j]);
                }
            }
            assert(e.subrange(18 * i, 18 * i + 18)[16] == e[18 * i + 16]);
            assert(e.subrange(18 * i, 18 * i + 18)[17] == e[18 * i + 17]);
            assert(s.take(144)[18 * i + 16] == s[18 * i + 16]);
            assert(s.take(144)[18 * i + 17] == s[18 * i + 17]);
        }
    }
}

} // verus!
