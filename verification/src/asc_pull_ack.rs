//! Ascending-bootstrap pull replies and their wire format.
//!
//! A reply is the pull type (one byte), the id of the request it answers
//! (64 bits, big-endian) and the payload of that pull type:
//! - blocks: each block (type code and body), then the "not a block" code;
//! - account info: fixed-size fields;
//! - frontiers: each frontier, then the all-zero frontier.

use std::collections::VecDeque;
use vstd::prelude::*;
use vstd::std_specs::vecdeque::VecDequeAdditionalSpecFns;
use crate::asc_pull_req::{lemma_pull_codes, AscPullPayloadId, PullDetail};
use crate::blocks::{
    block_bytes, lemma_block_type_code_roundtrip, lemma_block_type_ids, Block, BlockType, BlockView,
    BLOCK_TYPE_NOT_A_BLOCK,
};
use crate::codec::{
    at, be_value, lemma_take_u64_be_split, lemma_u64_be_value, lemma_take_u64_be_encoded, lemma_take_u8_encoded, pos_ok, read_u64_be, read_u8,
    take_u64_be, take_u8, u64_be_bytes, write_u64_be, write_u8, DeserializationError, Take,
};
use crate::header::{
    extension_bits, pull_header_extensions, pull_serialized_size, HeaderExtensions,
    PULL_PREFIX_LEN,
};
use crate::primitives::{
    bytes32_bytes, bytes32_value, frontier_bytes, lemma_bytes32_bytes_value, lemma_frontier_bytes_value, lemma_bytes32_len, lemma_frontier_len, lemma_take_bytes32_encoded, lemma_take_frontier_encoded,
    read_bytes32, read_frontier, take_bytes32, take_frontier, write_bytes32, write_frontier,
    Account, BlockHash, Bytes32, Frontier,
};

verus! {

// ---------------------------------------------------------------------------
// Blocks payload
// ---------------------------------------------------------------------------

/// The header allows 16-bit extensions: 65535 bytes / 500 bytes (a block
/// with some margin) is about 131.
pub const MAX_BLOCKS: u8 = 128;

/// The encodings of the blocks, one after the other.
pub open spec fn blocks_list_bytes(bs: Seq<BlockView>) -> Seq<u8>
    decreases bs.len(),
{
    if bs.len() == 0 {
        Seq::empty()
    } else {
        block_bytes(bs[0]) + blocks_list_bytes(bs.drop_first())
    }
}

/// Wire format of a blocks payload: the blocks, then the "not a block" code.
pub open spec fn blocks_payload_bytes(bs: Seq<BlockView>) -> Seq<u8> {
    blocks_list_bytes(bs) + seq![BLOCK_TYPE_NOT_A_BLOCK]
}

/// Adds `acc` in front of a successfully read list.
pub open spec fn prepend<T>(acc: Seq<T>, r: Result<Seq<T>, DeserializationError>) -> Result<
    Seq<T>,
    DeserializationError,
> {
    match r {
        Ok(xs) => Ok(acc + xs),
        Err(e) => Err(e),
    }
}

/// Reads blocks from `s` when `n` blocks have been read already. The list
/// ends at the end of the input or at a "not a block" code; a code that names
/// no block type is invalid data; the block after the 128th is too much data.
pub open spec fn parse_blocks(s: Seq<u8>, n: nat) -> Result<Seq<BlockView>, DeserializationError>
    decreases s.len(),
{
    if s.len() == 0 {
        Ok(Seq::empty())
    } else if s[0] == BLOCK_TYPE_NOT_A_BLOCK {
        Ok(Seq::empty())
    } else {
        match BlockType::from_code_spec(s[0]) {
            None => Err(DeserializationError::InvalidData),
            Some(t) => {
                let end = 1 + t.body_len_spec();
                if s.len() < end {
                    Err(DeserializationError::EndOfInput)
                } else if n + 1 > MAX_BLOCKS {
                    Err(DeserializationError::TooMuchData)
                } else {
                    let b = BlockView { block_type: t, body: s.subrange(1, end as int) };
                    prepend(seq![b], parse_blocks(s.skip(end as int), n + 1))
                }
            },
        }
    }
}

pub open spec fn blocks_view(d: Seq<Block>) -> Seq<BlockView> {
    d.map_values(|b: Block| b@)
}

/// Blocks sent in reply to a blocks pull: at most 128.
#[derive(Debug, PartialEq, Eq)]
pub struct BlocksAckPayload(VecDeque<Block>);

impl Clone for BlocksAckPayload {
    fn clone(&self) -> (r: BlocksAckPayload)
        ensures
            r@ == self@,
    {
        proof {
            use_type_invariant(self);
        }
        let blocks = self.0.clone();
        assert forall|i: int| 0 <= i < blocks@.len() implies #[trigger] blocks@[i]@ == self.0@[i]@ by {
            assert(cloned::<Block>(self.0[i], blocks[i]));
        }
        assert(blocks_view(blocks@) =~= blocks_view(self.0@));
        BlocksAckPayload(blocks)
    }
}

impl View for BlocksAckPayload {
    type V = Seq<BlockView>;

    closed spec fn view(&self) -> Seq<BlockView> {
        blocks_view(self.0@)
    }
}

impl BlocksAckPayload {
    #[verifier::type_invariant]
    spec fn inv(self) -> bool {
        self.0@.len() <= MAX_BLOCKS
    }

    pub const MAX_BLOCKS: u8 = 128;

    /// A payload of the given blocks. More than 128 blocks are refused.
    pub fn new(blocks: VecDeque<Block>) -> (r: BlocksAckPayload)
        requires
            blocks@.len() <= MAX_BLOCKS,
        ensures
            r@ == blocks_view(blocks@),
    {
        BlocksAckPayload(blocks)
    }

    /// One state block whose fields are all zero.
    pub fn new_test_instance() -> (r: BlocksAckPayload)
        ensures
            r@.len() == 1,
            r@[0] == (BlockView { block_type: BlockType::State, body: Seq::new(216, |i: int| 0u8) }),
    {
        let mut blocks: VecDeque<Block> = VecDeque::new();
        blocks.push_back(Block::new_test_instance());
        let r = Self::new(blocks);
        assert(r@[0] == blocks_view(blocks@)[0]);
        r
    }

    pub fn empty() -> (r: BlocksAckPayload)
        ensures
            r@ == Seq::<BlockView>::empty(),
    {
        let r = Self::new(VecDeque::new());
        assert(r@ =~= Seq::<BlockView>::empty());
        r
    }

    pub fn blocks(&self) -> (r: &VecDeque<Block>)
        ensures
            blocks_view(r@) == self@,
            r@.len() <= MAX_BLOCKS,
    {
        proof {
            use_type_invariant(self);
        }
        &self.0
    }

    pub fn take_blocks(self) -> (r: VecDeque<Block>)
        ensures
            blocks_view(r@) == self@,
            r@.len() <= MAX_BLOCKS,
    {
        proof {
            use_type_invariant(&self);
        }
        self.0
    }

    pub fn serialize(&self, out: &mut Vec<u8>)
        ensures
            final(out)@ == old(out)@ + blocks_payload_bytes(self@),
    {
        let n = self.0.len();
        let ghost bs = self@;
        let mut i: usize = 0;
        while i < n
            invariant
                n == self.0@.len(),
                bs == blocks_view(self.0@),
                0 <= i <= n,
                out@ == old(out)@ + blocks_list_bytes(bs.take(i as int)),
            decreases n - i,
        {
            let b = &self.0[i];
            b.serialize(out);
            proof {
                lemma_blocks_list_bytes_push(bs.take(i as int), bs[i as int]);
                assert(bs.take(i as int).push(bs[i as int]) =~= bs.take(i + 1));
            }
            i = i + 1;
        }
        assert(bs.take(n as int) =~= bs);
        write_u8(out, 1);
        assert(out@ =~= old(out)@ + blocks_payload_bytes(self@));
    }

    /// Reads blocks up to the end of `bytes` or to the "not a block" code.
    pub fn deserialize(bytes: &[u8]) -> (r: Result<BlocksAckPayload, DeserializationError>)
        ensures
            match r {
                Ok(p) => parse_blocks(bytes@, 0) == Ok::<Seq<BlockView>, DeserializationError>(p@),
                Err(e) => parse_blocks(bytes@, 0) == Err::<Seq<BlockView>, DeserializationError>(e),
            },
    {
        assert(bytes@.skip(0) =~= bytes@);
        Self::deserialize_at(bytes, 0)
    }

    /// Reads blocks from `pos` to the end of `bytes` or to the "not a block"
    /// code.
    fn deserialize_at(bytes: &[u8], pos: usize) -> (r: Result<BlocksAckPayload, DeserializationError>)
        requires
            pos <= bytes@.len(),
        ensures
            match r {
                Ok(p) => parse_blocks(bytes@.skip(pos as int), 0) == Ok::<
                    Seq<BlockView>,
                    DeserializationError,
                >(p@),
                Err(e) => parse_blocks(bytes@.skip(pos as int), 0) == Err::<
                    Seq<BlockView>,
                    DeserializationError,
                >(e),
            },
    {
        let mut blocks: VecDeque<Block> = VecDeque::new();
        let mut i: usize = pos;
        let ghost whole = bytes@.skip(pos as int);
        assert(blocks_view(blocks@) =~= Seq::<BlockView>::empty());
        proof {
            if let Ok(xs) = parse_blocks(whole, 0) {
                assert(blocks_view(blocks@) + xs =~= xs);
            }
        }
        loop
            invariant
                pos <= i <= bytes@.len(),
                whole == bytes@.skip(pos as int),
                blocks@.len() <= MAX_BLOCKS,
                parse_blocks(whole, 0) == prepend(
                    blocks_view(blocks@),
                    parse_blocks(bytes@.skip(i as int), blocks@.len()),
                ),
            ensures
                blocks@.len() <= MAX_BLOCKS,
                parse_blocks(whole, 0) == Ok::<Seq<BlockView>, DeserializationError>(
                    blocks_view(blocks@),
                ),
            decreases bytes@.len() - i,
        {
            if i >= bytes.len() {
                assert(blocks_view(blocks@) + Seq::<BlockView>::empty() =~= blocks_view(blocks@));
                break ;
            }
            let ghost s = bytes@.skip(i as int);
            let (code, p1) = read_u8(bytes, i)?;
            if code == 1 {
                assert(blocks_view(blocks@) + Seq::<BlockView>::empty() =~= blocks_view(blocks@));
                break ;
            }
            let block_type = match BlockType::from_code(code) {
                Some(t) => t,
                None => {
                    return Err(DeserializationError::InvalidData);
                },
            };
            let (block, p2) = match Block::deserialize_body(block_type, bytes, p1) {
                Ok(x) => x,
                Err(e) => {
                    assert(s.len() < 1 + block_type.body_len_spec());
                    return Err(e);
                },
            };
            let ghost old_blocks = blocks@;
            let ghost end = 1 + block_type.body_len_spec();
            proof {
                assert(s.subrange(1, end as int) =~= bytes@.subrange(p1 as int, p2 as int));
                assert(s.skip(end as int) =~= bytes@.skip(p2 as int));
            }
            blocks.push_back(block);
            if blocks.len() > 128 {
                return Err(DeserializationError::TooMuchData);
            }
            proof {
                let b = BlockView {
                    block_type,
                    body: bytes@.subrange(p1 as int, p2 as int),
                };
                assert(blocks_view(blocks@) =~= blocks_view(old_blocks).push(b));
                let tail = parse_blocks(bytes@.skip(p2 as int), blocks@.len());
                assert(parse_blocks(s, old_blocks.len()) == prepend(seq![b], tail));
                match tail {
                    Ok(xs) => {
                        assert(blocks_view(old_blocks) + (seq![b] + xs) =~= blocks_view(blocks@)
                            + xs);
                    },
                    Err(_) => {},
                }
            }
            i = p2;
        }
        Ok(BlocksAckPayload(blocks))
    }
}

pub proof fn lemma_blocks_list_bytes_push(bs: Seq<BlockView>, b: BlockView)
    ensures
        blocks_list_bytes(bs.push(b)) == blocks_list_bytes(bs) + block_bytes(b),
    decreases bs.len(),
{
    if bs.len() == 0 {
        assert(bs.push(b).drop_first() =~= Seq::<BlockView>::empty());
        assert(blocks_list_bytes(Seq::<BlockView>::empty()) == Seq::<u8>::empty());
        assert(bs.push(b)[0] == b);
        assert(blocks_list_bytes(bs.push(b)) =~= blocks_list_bytes(bs) + block_bytes(b));
    } else {
        lemma_blocks_list_bytes_push(bs.drop_first(), b);
        assert(bs.push(b).drop_first() =~= bs.drop_first().push(b));
        assert(blocks_list_bytes(bs.push(b)) =~= blocks_list_bytes(bs) + block_bytes(b));
    }
}

proof fn lemma_parse_blocks_encoded(bs: Seq<BlockView>, i: nat, rest: Seq<u8>)
    requires
        i <= bs.len() <= MAX_BLOCKS,
        forall|j: int| 0 <= j < bs.len() ==> (#[trigger] bs[j]).wf(),
    ensures
        parse_blocks(blocks_list_bytes(bs.skip(i as int)) + seq![BLOCK_TYPE_NOT_A_BLOCK] + rest, i)
            == Ok::<Seq<BlockView>, DeserializationError>(bs.skip(i as int)),
    decreases bs.len() - i,
{
    let s = blocks_list_bytes(bs.skip(i as int)) + seq![BLOCK_TYPE_NOT_A_BLOCK] + rest;
    if i == bs.len() {
        assert(bs.skip(i as int) =~= Seq::<BlockView>::empty());
        assert(s[0] == BLOCK_TYPE_NOT_A_BLOCK);
    } else {
        lemma_parse_blocks_encoded(bs, i + 1, rest);
        let b = bs[i as int];
        let t = b.block_type;
        lemma_block_type_code_roundtrip(t);
        assert(bs.skip(i as int).drop_first() =~= bs.skip((i + 1) as int));
        assert(bs.skip(i as int)[0] == b);
        let tail = blocks_list_bytes(bs.skip((i + 1) as int)) + seq![BLOCK_TYPE_NOT_A_BLOCK] + rest;
        assert(s =~= seq![t.code_spec()] + b.body + tail);
        let end = 1 + t.body_len_spec();
        assert(s.subrange(1, end as int) =~= b.body);
        assert(s.skip(end as int) =~= tail);
        assert(seq![b] + bs.skip((i + 1) as int) =~= bs.skip(i as int));
    }
}

/// Decoding the encoding of at most 128 well-formed blocks, followed by any
/// bytes, gives the blocks back.
pub proof fn lemma_blocks_payload_roundtrip(bs: Seq<BlockView>, rest: Seq<u8>)
    requires
        bs.len() <= MAX_BLOCKS,
        forall|j: int| 0 <= j < bs.len() ==> (#[trigger] bs[j]).wf(),
    ensures
        parse_blocks(blocks_payload_bytes(bs) + rest, 0) == Ok::<
            Seq<BlockView>,
            DeserializationError,
        >(bs),
{
    lemma_parse_blocks_encoded(bs, 0, rest);
    assert(bs.skip(0) =~= bs);
}

// ---------------------------------------------------------------------------
// Account info payload
// ---------------------------------------------------------------------------

/// The account information sent in reply to an account-info pull.
#[derive(Clone, Copy, Debug, PartialEq, Eq, Structural, Default)]
pub struct AccountInfoAckPayload {
    pub account: Account,
    pub account_open: BlockHash,
    pub account_head: BlockHash,
    pub account_block_count: u64,
    pub account_conf_frontier: BlockHash,
    pub account_conf_height: u64,
}

/// Wire format: the fields in order, integers big-endian.
pub open spec fn account_info_ack_bytes(p: AccountInfoAckPayload) -> Seq<u8> {
    bytes32_bytes(p.account) + bytes32_bytes(p.account_open) + bytes32_bytes(p.account_head)
        + u64_be_bytes(p.account_block_count) + bytes32_bytes(p.account_conf_frontier)
        + u64_be_bytes(p.account_conf_height)
}

pub open spec fn take_account_info_ack(s: Seq<u8>) -> Take<AccountInfoAckPayload> {
    match take_bytes32(s) {
        Err(e) => Err(e),
        Ok((account, s1)) => match take_bytes32(s1) {
            Err(e) => Err(e),
            Ok((account_open, s2)) => match take_bytes32(s2) {
                Err(e) => Err(e),
                Ok((account_head, s3)) => match take_u64_be(s3) {
                    Err(e) => Err(e),
                    Ok((account_block_count, s4)) => match take_bytes32(s4) {
                        Err(e) => Err(e),
                        Ok((account_conf_frontier, s5)) => match take_u64_be(s5) {
                            Err(e) => Err(e),
                            Ok((account_conf_height, s6)) => Ok(
                                (
                                    AccountInfoAckPayload {
                                        account,
                                        account_open,
                                        account_head,
                                        account_block_count,
                                        account_conf_frontier,
                                        account_conf_height,
                                    },
                                    s6,
                                ),
                            ),
                        },
                    },
                },
            },
        },
    }
}

impl AccountInfoAckPayload {
    pub fn new_test_instance() -> (r: AccountInfoAckPayload)
        ensures
            r == (AccountInfoAckPayload {
                account: Bytes32 { w0: 0, w1: 0, w2: 0, w3: 1 },
                account_open: Bytes32 { w0: 0, w1: 0, w2: 0, w3: 2 },
                account_head: Bytes32 { w0: 0, w1: 0, w2: 0, w3: 3 },
                account_block_count: 4,
                account_conf_frontier: Bytes32 { w0: 0, w1: 0, w2: 0, w3: 5 },
                account_conf_height: 3,
            }),
    {
        AccountInfoAckPayload {
            account: Bytes32::from_u64(1),
            account_open: Bytes32::from_u64(2),
            account_head: Bytes32::from_u64(3),
            account_block_count: 4,
            account_conf_frontier: Bytes32::from_u64(5),
            account_conf_height: 3,
        }
    }

    pub fn deserialize(bytes: &[u8], pos: usize) -> (r: Result<(AccountInfoAckPayload, usize), DeserializationError>)
        requires
            pos <= bytes@.len(),
        ensures
            at(bytes@, r) == take_account_info_ack(bytes@.skip(pos as int)),
            pos_ok(bytes@.len() as int, pos as int, r),
    {
        let (account, p1) = read_bytes32(bytes, pos)?;
        let (account_open, p2) = read_bytes32(bytes, p1)?;
        let (account_head, p3) = read_bytes32(bytes, p2)?;
        let (account_block_count, p4) = read_u64_be(bytes, p3)?;
        let (account_conf_frontier, p5) = read_bytes32(bytes, p4)?;
        let (account_conf_height, p6) = read_u64_be(bytes, p5)?;
        Ok(
            (
                AccountInfoAckPayload {
                    account,
                    account_open,
                    account_head,
                    account_block_count,
                    account_conf_frontier,
                    account_conf_height,
                },
                p6,
            ),
        )
    }

    pub fn serialize(&self, out: &mut Vec<u8>)
        ensures
            final(out)@ == old(out)@ + account_info_ack_bytes(*self),
    {
        write_bytes32(out, &self.account);
        write_bytes32(out, &self.account_open);
        write_bytes32(out, &self.account_head);
        write_u64_be(out, self.account_block_count);
        write_bytes32(out, &self.account_conf_frontier);
        write_u64_be(out, self.account_conf_height);
        assert(out@ =~= old(out)@ + account_info_ack_bytes(*self));
    }
}

proof fn lemma_take_account_info_ack_encoded(p: AccountInfoAckPayload, rest: Seq<u8>)
    ensures
        take_account_info_ack(account_info_ack_bytes(p) + rest) == Ok::<
            (AccountInfoAckPayload, Seq<u8>),
            DeserializationError,
        >((p, rest)),
{
    let r5 = u64_be_bytes(p.account_conf_height) + rest;
    let r4 = bytes32_bytes(p.account_conf_frontier) + r5;
    let r3 = u64_be_bytes(p.account_block_count) + r4;
    let r2 = bytes32_bytes(p.account_head) + r3;
    let r1 = bytes32_bytes(p.account_open) + r2;
    assert(account_info_ack_bytes(p) + rest =~= bytes32_bytes(p.account) + r1);
    lemma_take_bytes32_encoded(p.account, r1);
    lemma_take_bytes32_encoded(p.account_open, r2);
    lemma_take_bytes32_encoded(p.account_head, r3);
    lemma_take_u64_be_encoded(p.account_block_count, r4);
    lemma_take_bytes32_encoded(p.account_conf_frontier, r5);
    lemma_take_u64_be_encoded(p.account_conf_height, rest);
}

// ---------------------------------------------------------------------------
// Frontiers payload
// ---------------------------------------------------------------------------

/// At most this many frontiers are read from a reply.
pub const MAX_FRONTIERS: usize = 1000;

pub open spec fn frontiers_list_bytes(fs: Seq<Frontier>) -> Seq<u8>
    decreases fs.len(),
{
    if fs.len() == 0 {
        Seq::empty()
    } else {
        frontier_bytes(fs[0]) + frontiers_list_bytes(fs.drop_first())
    }
}

/// Wire format of a frontiers payload: the frontiers, then the all-zero one.
pub open spec fn frontiers_payload_bytes(fs: Seq<Frontier>) -> Seq<u8> {
    frontiers_list_bytes(fs) + frontier_bytes(Frontier::default_spec())
}


/// Reads frontiers from `s` when `n` have been read already: up to the
/// all-zero frontier, and no more than 1000 in all.
pub open spec fn parse_frontiers(s: Seq<u8>, n: nat) -> Result<Seq<Frontier>, DeserializationError>
    decreases MAX_FRONTIERS - n,
{
    if n >= MAX_FRONTIERS {
        Ok(Seq::empty())
    } else {
        match take_frontier(s) {
            Err(e) => Err(e),
            Ok((f, rest)) => if f.is_terminator_spec() {
                Ok(Seq::empty())
            } else {
                prepend(seq![f], parse_frontiers(rest, n + 1))
            },
        }
    }
}

pub proof fn lemma_frontiers_list_bytes_push(fs: Seq<Frontier>, f: Frontier)
    ensures
        frontiers_list_bytes(fs.push(f)) == frontiers_list_bytes(fs) + frontier_bytes(f),
    decreases fs.len(),
{
    if fs.len() == 0 {
        assert(fs.push(f).drop_first() =~= Seq::<Frontier>::empty());
        assert(frontiers_list_bytes(Seq::<Frontier>::empty()) == Seq::<u8>::empty());
        assert(fs.push(f)[0] == f);
        assert(frontiers_list_bytes(fs.push(f)) =~= frontiers_list_bytes(fs) + frontier_bytes(f));
    } else {
        lemma_frontiers_list_bytes_push(fs.drop_first(), f);
        assert(fs.push(f).drop_first() =~= fs.drop_first().push(f));
        assert(frontiers_list_bytes(fs.push(f)) =~= frontiers_list_bytes(fs) + frontier_bytes(f));
    }
}

fn serialize_frontiers(frontiers: &Vec<Frontier>, out: &mut Vec<u8>)
    ensures
        final(out)@ == old(out)@ + frontiers_payload_bytes(frontiers@),
{
    let n = frontiers.len();
    let mut i: usize = 0;
    while i < n
        invariant
            n == frontiers@.len(),
            0 <= i <= n,
            out@ == old(out)@ + frontiers_list_bytes(frontiers@.take(i as int)),
        decreases n - i,
    {
        write_frontier(out, &frontiers[i]);
        proof {
            lemma_frontiers_list_bytes_push(frontiers@.take(i as int), frontiers@[i as int]);
            assert(frontiers@.take(i as int).push(frontiers@[i as int]) =~= frontiers@.take(i + 1));
        }
        i = i + 1;
    }
    assert(frontiers@.take(n as int) =~= frontiers@);
    let t = Frontier::terminator();
    assert(t == Frontier::default_spec());
    write_frontier(out, &t);
    assert(out@ =~= old(out)@ + frontiers_payload_bytes(frontiers@));
}

fn deserialize_frontiers(bytes: &[u8], pos: usize) -> (r: Result<Vec<Frontier>, DeserializationError>)
    requires
        pos <= bytes@.len(),
    ensures
        match r {
            Ok(fs) => parse_frontiers(bytes@.skip(pos as int), 0) == Ok::<
                Seq<Frontier>,
                DeserializationError,
            >(fs@),
            Err(e) => parse_frontiers(bytes@.skip(pos as int), 0) == Err::<
                Seq<Frontier>,
                DeserializationError,
            >(e),
        },
{
    let mut frontiers: Vec<Frontier> = Vec::new();
    let mut i: usize = pos;
    let ghost whole = bytes@.skip(pos as int);
    proof {
        if let Ok(xs) = parse_frontiers(whole, 0) {
            assert(frontiers@ + xs =~= xs);
        }
    }
    loop
        invariant
            pos <= i <= bytes@.len(),
            whole == bytes@.skip(pos as int),
            frontiers@.len() <= MAX_FRONTIERS,
            parse_frontiers(whole, 0) == prepend(
                frontiers@,
                parse_frontiers(bytes@.skip(i as int), frontiers@.len()),
            ),
        ensures
            parse_frontiers(whole, 0) == Ok::<Seq<Frontier>, DeserializationError>(frontiers@),
        decreases MAX_FRONTIERS - frontiers@.len(),
    {
        if frontiers.len() >= MAX_FRONTIERS {
            assert(frontiers@ + Seq::<Frontier>::empty() =~= frontiers@);
            break ;
        }
        let (f, p) = read_frontier(bytes, i)?;
        if f.is_terminator() {
            assert(frontiers@ + Seq::<Frontier>::empty() =~= frontiers@);
            break ;
        }
        let ghost old_fs = frontiers@;
        frontiers.push(f);
        proof {
            let tail = parse_frontiers(bytes@.skip(p as int), frontiers@.len());
            match tail {
                Ok(xs) => {
                    assert(old_fs + (seq![f] + xs) =~= frontiers@ + xs);
                },
                Err(_) => {},
            }
        }
        i = p;
    }
    Ok(frontiers)
}

proof fn lemma_parse_frontiers_encoded(fs: Seq<Frontier>, i: nat, rest: Seq<u8>)
    requires
        i <= fs.len() <= MAX_FRONTIERS,
        forall|j: int| 0 <= j < fs.len() ==> !(#[trigger] fs[j]).is_terminator_spec(),
    ensures
        parse_frontiers(
            frontiers_list_bytes(fs.skip(i as int)) + frontier_bytes(Frontier::default_spec())
                + rest,
            i,
        ) == Ok::<Seq<Frontier>, DeserializationError>(fs.skip(i as int)),
    decreases fs.len() - i,
{
    let z = Frontier::default_spec();
    let s = frontiers_list_bytes(fs.skip(i as int)) + frontier_bytes(z) + rest;
    if i == fs.len() {
        assert(fs.skip(i as int) =~= Seq::<Frontier>::empty());
        assert(s =~= frontier_bytes(z) + rest);
        lemma_take_frontier_encoded(z, rest);
    } else {
        lemma_parse_frontiers_encoded(fs, i + 1, rest);
        let f = fs[i as int];
        assert(fs.skip(i as int).drop_first() =~= fs.skip((i + 1) as int));
        assert(fs.skip(i as int)[0] == f);
        let tail = frontiers_list_bytes(fs.skip((i + 1) as int)) + frontier_bytes(z) + rest;
        assert(s =~= frontier_bytes(f) + tail);
        lemma_take_frontier_encoded(f, tail);
        assert(seq![f] + fs.skip((i + 1) as int) =~= fs.skip(i as int));
    }
}

/// Decoding the encoding of at most 1000 frontiers, none of them all-zero,
/// followed by any bytes, gives the frontiers back.
pub proof fn lemma_frontiers_payload_roundtrip(fs: Seq<Frontier>, rest: Seq<u8>)
    requires
        fs.len() <= MAX_FRONTIERS,
        forall|j: int| 0 <= j < fs.len() ==> !(#[trigger] fs[j]).is_terminator_spec(),
    ensures
        parse_frontiers(frontiers_payload_bytes(fs) + rest, 0) == Ok::<
            Seq<Frontier>,
            DeserializationError,
        >(fs),
{
    lemma_parse_frontiers_encoded(fs, 0, rest);
    assert(fs.skip(0) =~= fs);
}

// ---------------------------------------------------------------------------
// Replies
// ---------------------------------------------------------------------------

/// The payload of a pull reply.
#[derive(Clone, Debug, PartialEq, Eq)]
pub enum AscPullAckType {
    Blocks(BlocksAckPayload),
    AccountInfo(AccountInfoAckPayload),
    Frontiers(Vec<Frontier>),
}

/// What the payload of a pull reply holds.
pub enum AscPullAckTypeView {
    Blocks(Seq<BlockView>),
    AccountInfo(AccountInfoAckPayload),
    Frontiers(Seq<Frontier>),
}

impl View for AscPullAckType {
    type V = AscPullAckTypeView;

    open spec fn view(&self) -> AscPullAckTypeView {
        match self {
            AscPullAckType::Blocks(p) => AscPullAckTypeView::Blocks(p@),
            AscPullAckType::AccountInfo(p) => AscPullAckTypeView::AccountInfo(*p),
            AscPullAckType::Frontiers(fs) => AscPullAckTypeView::Frontiers(fs@),
        }
    }
}

impl AscPullAckTypeView {
    pub open spec fn payload_type(self) -> AscPullPayloadId {
        match self {
            AscPullAckTypeView::Blocks(_) => AscPullPayloadId::Blocks,
            AscPullAckTypeView::AccountInfo(_) => AscPullPayloadId::AccountInfo,
            AscPullAckTypeView::Frontiers(_) => AscPullPayloadId::Frontiers,
        }
    }

    /// The payload can be written and read back: at most 128 blocks, each with
    /// a body of its type's length; at most 1000 frontiers, none all-zero.
    pub open spec fn encodable(self) -> bool {
        match self {
            AscPullAckTypeView::Blocks(bs) => bs.len() <= MAX_BLOCKS && forall|j: int|
                0 <= j < bs.len() ==> (#[trigger] bs[j]).wf(),
            AscPullAckTypeView::AccountInfo(_) => true,
            AscPullAckTypeView::Frontiers(fs) => fs.len() <= MAX_FRONTIERS && forall|j: int|
                0 <= j < fs.len() ==> !(#[trigger] fs[j]).is_terminator_spec(),
        }
    }
}

pub open spec fn ack_type_bytes(t: AscPullAckTypeView) -> Seq<u8> {
    match t {
        AscPullAckTypeView::Blocks(bs) => blocks_payload_bytes(bs),
        AscPullAckTypeView::AccountInfo(p) => account_info_ack_bytes(p),
        AscPullAckTypeView::Frontiers(fs) => frontiers_payload_bytes(fs),
    }
}

/// Reads the payload of pull type `kind` from the rest of the input.
pub open spec fn parse_ack_type(kind: AscPullPayloadId, s: Seq<u8>) -> Result<
    AscPullAckTypeView,
    DeserializationError,
> {
    match kind {
        AscPullPayloadId::Blocks => match parse_blocks(s, 0) {
            Err(e) => Err(e),
            Ok(bs) => Ok(AscPullAckTypeView::Blocks(bs)),
        },
        AscPullPayloadId::AccountInfo => match take_account_info_ack(s) {
            Err(e) => Err(e),
            Ok((p, _)) => Ok(AscPullAckTypeView::AccountInfo(p)),
        },
        AscPullPayloadId::Frontiers => match parse_frontiers(s, 0) {
            Err(e) => Err(e),
            Ok(fs) => Ok(AscPullAckTypeView::Frontiers(fs)),
        },
    }
}

/// An ascending-bootstrap pull reply.
#[derive(Clone, Debug, PartialEq, Eq)]
pub struct AscPullAck {
    pub id: u64,
    pub pull_type: AscPullAckType,
}

/// What a pull reply holds.
pub struct AscPullAckView {
    pub id: u64,
    pub pull_type: AscPullAckTypeView,
}

impl View for AscPullAck {
    type V = AscPullAckView;

    open spec fn view(&self) -> AscPullAckView {
        AscPullAckView { id: self.id, pull_type: self.pull_type@ }
    }
}

/// Wire format: pull type code, id (big-endian), payload.
pub open spec fn asc_pull_ack_bytes(a: AscPullAckView) -> Seq<u8> {
    seq![a.pull_type.payload_type().code_spec()] + u64_be_bytes(a.id) + ack_type_bytes(
        a.pull_type,
    )
}

/// What a byte sequence decodes to.
pub open spec fn parse_asc_pull_ack(s: Seq<u8>) -> Result<AscPullAckView, DeserializationError> {
    match take_u8(s) {
        Err(e) => Err(e),
        Ok((code, s1)) => match AscPullPayloadId::from_u8_spec(code) {
            None => Err(DeserializationError::InvalidData),
            Some(kind) => match take_u64_be(s1) {
                Err(e) => Err(e),
                Ok((id, s2)) => match parse_ack_type(kind, s2) {
                    Err(e) => Err(e),
                    Ok(pull_type) => Ok(AscPullAckView { id, pull_type }),
                },
            },
        },
    }
}

impl AscPullAck {
    pub const MAX_FRONTIERS: usize = 1000;

    pub fn new_test_instance_blocks() -> (r: AscPullAck)
        ensures
            r.id == 12345,
            r@.pull_type matches AscPullAckTypeView::Blocks(bs) && bs.len() == 1 && bs[0] == (
            BlockView { block_type: BlockType::State, body: Seq::new(216, |i: int| 0u8) }),
    {
        AscPullAck { id: 12345, pull_type: AscPullAckType::Blocks(BlocksAckPayload::new_test_instance()) }
    }

    pub fn new_test_instance_account() -> (r: AscPullAck)
        ensures
            r.id == 12345,
            r@.pull_type == AscPullAckTypeView::AccountInfo(
                AccountInfoAckPayload {
                    account: Bytes32 { w0: 0, w1: 0, w2: 0, w3: 1 },
                    account_open: Bytes32 { w0: 0, w1: 0, w2: 0, w3: 2 },
                    account_head: Bytes32 { w0: 0, w1: 0, w2: 0, w3: 3 },
                    account_block_count: 4,
                    account_conf_frontier: Bytes32 { w0: 0, w1: 0, w2: 0, w3: 5 },
                    account_conf_height: 3,
                },
            ),
    {
        AscPullAck {
            id: 12345,
            pull_type: AscPullAckType::AccountInfo(AccountInfoAckPayload::new_test_instance()),
        }
    }

    pub fn payload_type(&self) -> (r: AscPullPayloadId)
        ensures
            r == self@.pull_type.payload_type(),
    {
        match self.pull_type {
            AscPullAckType::Blocks(_) => AscPullPayloadId::Blocks,
            AscPullAckType::AccountInfo(_) => AscPullPayloadId::AccountInfo,
            AscPullAckType::Frontiers(_) => AscPullPayloadId::Frontiers,
        }
    }

    /// The statistics detail of this reply's pull type.
    pub fn detail_type(&self) -> (r: PullDetail)
        ensures
            r == match self@.pull_type.payload_type() {
                AscPullPayloadId::Blocks => PullDetail::Blocks,
                AscPullPayloadId::AccountInfo => PullDetail::AccountInfo,
                AscPullPayloadId::Frontiers => PullDetail::Frontiers,
            },
    {
        match self.pull_type {
            AscPullAckType::Blocks(_) => PullDetail::Blocks,
            AscPullAckType::AccountInfo(_) => PullDetail::AccountInfo,
            AscPullAckType::Frontiers(_) => PullDetail::Frontiers,
        }
    }

    /// Size of the message body whose header carries `extensions`: pull type,
    /// id and the payload length that the extensions hold.
    pub fn serialized_size(extensions: HeaderExtensions) -> (r: usize)
        ensures
            r == 1 + 8 + extension_bits(extensions),
    {
        pull_serialized_size(&extensions)
    }

    /// The header extensions of a body of `payload_len` bytes.
    pub fn header_extensions(&self, payload_len: u16) -> (r: HeaderExtensions)
        requires
            payload_len >= PULL_PREFIX_LEN,
        ensures
            extension_bits(r) == payload_len - PULL_PREFIX_LEN,
    {
        pull_header_extensions(payload_len)
    }

    /// Writes the message. A frontiers reply is meant to hold at most 1000
    /// frontiers: only that many are read back.
    pub fn serialize(&self, out: &mut Vec<u8>)
        ensures
            final(out)@ == old(out)@ + asc_pull_ack_bytes(self@),
    {
        write_u8(out, self.payload_type().code());
        write_u64_be(out, self.id);
        self.serialize_pull_type(out);
        assert(out@ =~= old(out)@ + asc_pull_ack_bytes(self@));
    }

    fn serialize_pull_type(&self, out: &mut Vec<u8>)
        ensures
            final(out)@ == old(out)@ + ack_type_bytes(self@.pull_type),
    {
        match &self.pull_type {
            AscPullAckType::Blocks(blocks) => blocks.serialize(out),
            AscPullAckType::AccountInfo(account_info) => account_info.serialize(out),
            AscPullAckType::Frontiers(frontiers) => serialize_frontiers(frontiers, out),
        }
    }

    pub fn deserialize(bytes: &[u8]) -> (r: Result<AscPullAck, DeserializationError>)
        ensures
            match r {
                Ok(a) => parse_asc_pull_ack(bytes@) == Ok::<AscPullAckView, DeserializationError>(a@),
                Err(e) => parse_asc_pull_ack(bytes@) == Err::<AscPullAckView, DeserializationError>(e),
            },
    {
        assert(bytes@.skip(0) =~= bytes@);
        let (code, p1) = read_u8(bytes, 0)?;
        let kind = match AscPullPayloadId::from_u8(code) {
            Some(k) => k,
            None => return Err(DeserializationError::InvalidData),
        };
        let (id, p2) = read_u64_be(bytes, p1)?;
        let pull_type = match kind {
            AscPullPayloadId::Blocks => {
                let payload = BlocksAckPayload::deserialize_at(bytes, p2)?;
                AscPullAckType::Blocks(payload)
            },
            AscPullPayloadId::AccountInfo => {
                let (payload, _) = AccountInfoAckPayload::deserialize(bytes, p2)?;
                AscPullAckType::AccountInfo(payload)
            },
            AscPullPayloadId::Frontiers => {
                let frontiers = deserialize_frontiers(bytes, p2)?;
                AscPullAckType::Frontiers(frontiers)
            },
        };
        Ok(AscPullAck { id, pull_type })
    }
}

proof fn lemma_parse_ack_type_encoded(t: AscPullAckTypeView, rest: Seq<u8>)
    requires
        t.encodable(),
    ensures
        parse_ack_type(t.payload_type(), ack_type_bytes(t) + rest) == Ok::<
            AscPullAckTypeView,
            DeserializationError,
        >(t),
{
    match t {
        AscPullAckTypeView::Blocks(bs) => lemma_blocks_payload_roundtrip(bs, rest),
        AscPullAckTypeView::AccountInfo(p) => lemma_take_account_info_ack_encoded(p, rest),
        AscPullAckTypeView::Frontiers(fs) => lemma_frontiers_payload_roundtrip(fs, rest),
    }
}

/// Decoding the encoding of a reply, followed by any bytes, gives the reply
/// back, where its payload can be written and read back (see `encodable`).
pub proof fn lemma_asc_pull_ack_roundtrip(a: AscPullAckView, rest: Seq<u8>)
    requires
        a.pull_type.encodable(),
    ensures
        parse_asc_pull_ack(asc_pull_ack_bytes(a) + rest) == Ok::<AscPullAckView, DeserializationError>(
            a,
        ),
{
    let code = a.pull_type.payload_type().code_spec();
    let r2 = ack_type_bytes(a.pull_type) + rest;
    let r1 = u64_be_bytes(a.id) + r2;
    assert(asc_pull_ack_bytes(a) + rest =~= seq![code] + r1);
    lemma_take_u8_encoded(code, r1);
    lemma_take_u64_be_encoded(a.id, r2);
    lemma_parse_ack_type_encoded(a.pull_type, rest);
}

proof fn lemma_blocks_list_len(bs: Seq<BlockView>)
    requires
        forall|j: int| 0 <= j < bs.len() ==> (#[trigger] bs[j]).wf(),
    ensures
        blocks_list_bytes(bs).len() <= 217 * bs.len(),
    decreases bs.len(),
{
    if bs.len() > 0 {
        let rest = bs.drop_first();
        assert forall|j: int| 0 <= j < rest.len() implies (#[trigger] rest[j]).wf() by {
            assert(rest[j] == bs[j + 1]);
        }
        lemma_blocks_list_len(rest);
        assert(bs[0].wf());
    }
}

proof fn lemma_frontiers_list_len(fs: Seq<Frontier>)
    ensures
        frontiers_list_bytes(fs).len() == 64 * fs.len(),
    decreases fs.len(),
{
    if fs.len() > 0 {
        lemma_frontiers_list_len(fs.drop_first());
        lemma_frontier_len(fs[0]);
    }
}

/// The payload of every reply that can be written and read back fits in the
/// 16 extension bits of the message header: at most 128 blocks of at most 216
/// bytes each, or at most 1000 frontiers and the terminator, or the fixed
/// account information.
pub proof fn lemma_ack_payload_fits_header(t: AscPullAckTypeView)
    requires
        t.encodable(),
    ensures
        ack_type_bytes(t).len() <= u16::MAX,
{
    match t {
        AscPullAckTypeView::Blocks(bs) => {
            lemma_blocks_list_len(bs);
            assert(217 * bs.len() <= 217 * 128) by (nonlinear_arith)
                requires
                    bs.len() <= 128,
            ;
        },
        AscPullAckTypeView::AccountInfo(p) => {
            lemma_bytes32_len(p.account);
            lemma_bytes32_len(p.account_open);
            lemma_bytes32_len(p.account_head);
            lemma_bytes32_len(p.account_conf_frontier);
        },
        AscPullAckTypeView::Frontiers(fs) => {
            lemma_frontiers_list_len(fs);
            lemma_frontier_len(Frontier::default_spec());
        },
    }
}

/// A blocks payload that holds one block reads as that block: the block
/// type's id (legacy send 2, legacy receive 3, legacy open 4, legacy change 5,
/// state 6), a body of that type's length, then the "not a block" code 1.
pub proof fn lemma_parse_single_block(t: BlockType, body: Seq<u8>)
    requires
        body.len() == t.body_len_spec(),
    ensures
        parse_blocks(
            seq![
                match t {
                    BlockType::LegacySend => 2u8,
                    BlockType::LegacyReceive => 3u8,
                    BlockType::LegacyOpen => 4u8,
                    BlockType::LegacyChange => 5u8,
                    BlockType::State => 6u8,
                },
            ] + body + seq![1u8],
            0,
        ) == Ok::<Seq<BlockView>, DeserializationError>(
            seq![BlockView { block_type: t, body }],
        ),
{
    let c = t.code_spec();
    lemma_block_type_ids(c);
    lemma_block_type_code_roundtrip(t);
    let s = seq![c] + body + seq![1u8];
    let end = 1 + t.body_len_spec();
    assert(s[0] == c);
    assert(s.subrange(1, end as int) =~= body);
    assert(s.skip(end as int) =~= seq![1u8]);
    let tail = parse_blocks(s.skip(end as int), 1);
    assert(tail == Ok::<Seq<BlockView>, DeserializationError>(Seq::empty()));
    let b = BlockView { block_type: t, body };
    assert(seq![b] + Seq::<BlockView>::empty() =~= seq![b]);
}

proof fn lemma_frontiers_list_at(fs: Seq<Frontier>, k: int)
    requires
        0 <= k < fs.len(),
    ensures
        frontiers_list_bytes(fs).len() == 64 * fs.len(),
        frontiers_list_bytes(fs).subrange(64 * k, 64 * k + 64) == frontier_bytes(fs[k]),
    decreases fs.len(),
{
    let t = fs.drop_first();
    lemma_frontiers_list_len(fs);
    lemma_frontiers_list_len(t);
    lemma_frontier_len(fs[0]);
    let l = frontiers_list_bytes(fs);
    assert(l == frontier_bytes(fs[0]) + frontiers_list_bytes(t));
    if k == 0 {
        assert(l.subrange(0, 64) =~= frontier_bytes(fs[0]));
    } else {
        lemma_frontiers_list_at(t, k - 1);
        assert(t[k - 1] == fs[k]);
        assert(l.subrange(64 * k, 64 * k + 64) =~= frontiers_list_bytes(t).subrange(
            64 * (k - 1),
            64 * (k - 1) + 64,
        ));
    }
}

/// The layout of a reply on the wire, the same as a request's: byte 0 is the
/// pull type (blocks 1, account info 2, frontiers 3) and bytes 1..9 are the
/// id, big-endian. A blocks payload ends with the "not a block" code 1. The
/// account information is its fields at fixed offsets, each big-endian. A
/// frontiers payload holds frontier `k` at bytes `9 + 64k ..`: its account's
/// 32 bytes, then its hash's, and ends with the all-zero frontier.
pub proof fn lemma_asc_pull_ack_layout(a: AscPullAckView)
    ensures
        ({
            let s = asc_pull_ack_bytes(a);
            &&& s.len() >= 10
            &&& s[0] == match a.pull_type {
                AscPullAckTypeView::Blocks(_) => 1u8,
                AscPullAckTypeView::AccountInfo(_) => 2u8,
                AscPullAckTypeView::Frontiers(_) => 3u8,
            }
            &&& be_value(s.subrange(1, 9)) == a.id
            &&& match a.pull_type {
                AscPullAckTypeView::Blocks(_) => s[s.len() - 1] == 1u8,
                AscPullAckTypeView::AccountInfo(p) => {
                    &&& s.len() == 153
                    &&& be_value(s.subrange(9, 41)) == bytes32_value(p.account)
                    &&& be_value(s.subrange(41, 73)) == bytes32_value(p.account_open)
                    &&& be_value(s.subrange(73, 105)) == bytes32_value(p.account_head)
                    &&& be_value(s.subrange(105, 113)) == p.account_block_count
                    &&& be_value(s.subrange(113, 145)) == bytes32_value(p.account_conf_frontier)
                    &&& be_value(s.subrange(145, 153)) == p.account_conf_height
                },
                AscPullAckTypeView::Frontiers(fs) => {
                    &&& s.len() == 9 + 64 * (fs.len() + 1)
                    &&& forall|k: int|
                        0 <= k < fs.len() ==> be_value(#[trigger] s.subrange(9 + 64 * k, 41 + 64 * k))
                            == bytes32_value(fs[k].account) && be_value(
                            s.subrange(41 + 64 * k, 73 + 64 * k),
                        ) == bytes32_value(fs[k].hash)
                    &&& be_value(s.subrange(s.len() - 64, s.len() - 32)) == 0
                    &&& be_value(s.subrange(s.len() - 32, s.len() as int)) == 0
                },
            }
        }),
{
    let s = asc_pull_ack_bytes(a);
    let head = seq![a.pull_type.payload_type().code_spec()] + u64_be_bytes(a.id);
    let body = ack_type_bytes(a.pull_type);
    assert(s == head + body);
    lemma_u64_be_value(a.id);
    assert(s.subrange(1, 9) =~= u64_be_bytes(a.id));
    lemma_pull_codes(0);
    match a.pull_type {
        AscPullAckTypeView::Blocks(bs) => {
            assert(body == blocks_list_bytes(bs) + seq![1u8]);
            assert(s[s.len() - 1] == body[body.len() - 1]);
        },
        AscPullAckTypeView::AccountInfo(p) => {
            lemma_bytes32_bytes_value(p.account);
            lemma_bytes32_bytes_value(p.account_open);
            lemma_bytes32_bytes_value(p.account_head);
            lemma_bytes32_bytes_value(p.account_conf_frontier);
            lemma_u64_be_value(p.account_block_count);
            lemma_u64_be_value(p.account_conf_height);
            assert(s.subrange(9, 41) =~= bytes32_bytes(p.account));
            assert(s.subrange(41, 73) =~= bytes32_bytes(p.account_open));
            assert(s.subrange(73, 105) =~= bytes32_bytes(p.account_head));
            assert(s.subrange(105, 113) =~= u64_be_bytes(p.account_block_count));
            assert(s.subrange(113, 145) =~= bytes32_bytes(p.account_conf_frontier));
            assert(s.subrange(145, 153) =~= u64_be_bytes(p.account_conf_height));
        },
        AscPullAckTypeView::Frontiers(fs) => {
            let l = frontiers_list_bytes(fs);
            let z = Frontier::default_spec();
            lemma_frontiers_list_len(fs);
            lemma_frontier_bytes_value(z);
            assert(body == l + frontier_bytes(z));
            assert forall|k: int| 0 <= k < fs.len() implies be_value(
                #[trigger] s.subrange(9 + 64 * k, 41 + 64 * k),
            ) == bytes32_value(fs[k].account) && be_value(s.subrange(41 + 64 * k, 73 + 64 * k))
                == bytes32_value(fs[k].hash) by {
                lemma_frontiers_list_at(fs, k);
                lemma_frontier_bytes_value(fs[k]);
                let f = frontier_bytes(fs[k]);
                assert(l.subrange(64 * k, 64 * k + 64) == f);
                assert(s.subrange(9 + 64 * k, 41 + 64 * k) =~= f.take(32)) by {
                    assert forall|i: int| 0 <= i < 32 implies s.subrange(9 + 64 * k, 41 + 64 * k)[i]
                        == f.take(32)[i] by {
                        assert(l.subrange(64 * k, 64 * k + 64)[i] == l[64 * k + i]);
                    }
                }
                assert(s.subrange(41 + 64 * k, 73 + 64 * k) =~= f.skip(32)) by {
                    assert forall|i: int| 0 <= i < 32 implies s.subrange(41 + 64 * k, 73 + 64 * k)[i]
                        == f.skip(32)[i] by {
                        assert(l.subrange(64 * k, 64 * k + 64)[i + 32] == l[64 * k + 32 + i]);
                    }
                }
            }
            assert(s.subrange(s.len() - 64, s.len() - 32) =~= frontier_bytes(z).take(32));
            assert(s.subrange(s.len() - 32, s.len() as int) =~= frontier_bytes(z).skip(32));
        },
    }
}

/// A decoded reply's pull type is byte 0 (blocks 1, account info 2,
/// frontiers 3) and its id is bytes 1..9 read big-endian.
pub proof fn lemma_parse_asc_pull_ack_id(s: Seq<u8>)
    ensures
        parse_asc_pull_ack(s) matches Ok(a) ==> {
            &&& s.len() >= 9
            &&& s[0] == match a.pull_type {
                AscPullAckTypeView::Blocks(_) => 1u8,
                AscPullAckTypeView::AccountInfo(_) => 2u8,
                AscPullAckTypeView::Frontiers(_) => 3u8,
            }
            &&& a.id == be_value(s.subrange(1, 9))
        },
{
    if let Ok(a) = parse_asc_pull_ack(s) {
        let s1 = s.skip(1);
        lemma_pull_codes(s[0]);
        lemma_take_u64_be_split(s1);
        if let Ok((id, s2)) = take_u64_be(s1) {
            lemma_u64_be_value(id);
            assert(s1.take(8) =~= u64_be_bytes(id));
            assert(s.subrange(1, 9) =~= s1.take(8));
        }
    }
}

} // verus!
