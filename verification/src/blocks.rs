//! Blocks as they travel in an ascending-bootstrap pull reply: a block type
//! and the block's serialized fields.
//!
//! Every block type has fixed-size fields, so a block of a given type is
//! exactly a body of that type's length. On the wire a block is its type code
//! followed by its body.

use vstd::prelude::*;
use crate::codec::DeserializationError;

verus! {

/// The kinds of block, with their type codes on the wire.
#[derive(Clone, Copy, Debug, PartialEq, Eq, Structural)]
pub enum BlockType {
    /// Code 2.
    LegacySend,
    /// Code 3.
    LegacyReceive,
    /// Code 4.
    LegacyOpen,
    /// Code 5.
    LegacyChange,
    /// Code 6.
    State,
}

/// Type code 0: no valid block type.
pub const BLOCK_TYPE_INVALID: u8 = 0;

/// Type code 1: no block; ends a list of blocks.
pub const BLOCK_TYPE_NOT_A_BLOCK: u8 = 1;

impl BlockType {
    pub open spec fn code_spec(self) -> u8 {
        match self {
            BlockType::LegacySend => 2,
            BlockType::LegacyReceive => 3,
            BlockType::LegacyOpen => 4,
            BlockType::LegacyChange => 5,
            BlockType::State => 6,
        }
    }

    pub fn code(&self) -> (r: u8)
        ensures
            r == self.code_spec(),
    {
        match self {
            BlockType::LegacySend => 2,
            BlockType::LegacyReceive => 3,
            BlockType::LegacyOpen => 4,
            BlockType::LegacyChange => 5,
            BlockType::State => 6,
        }
    }

    /// The block type with code `v`; codes 0 (invalid) and 1 (not a block)
    /// and codes above 6 name none.
    pub open spec fn from_code_spec(v: u8) -> Option<BlockType> {
        if v == 2 {
            Some(BlockType::LegacySend)
        } else if v == 3 {
            Some(BlockType::LegacyReceive)
        } else if v == 4 {
            Some(BlockType::LegacyOpen)
        } else if v == 5 {
            Some(BlockType::LegacyChange)
        } else if v == 6 {
            Some(BlockType::State)
        } else {
            None
        }
    }

    pub fn from_code(v: u8) -> (r: Option<BlockType>)
        ensures
            r == Self::from_code_spec(v),
    {
        if v == 2 {
            Some(BlockType::LegacySend)
        } else if v == 3 {
            Some(BlockType::LegacyReceive)
        } else if v == 4 {
            Some(BlockType::LegacyOpen)
        } else if v == 5 {
            Some(BlockType::LegacyChange)
        } else if v == 6 {
            Some(BlockType::State)
        } else {
            None
        }
    }

    /// Length of the serialized fields of a block of this type:
    /// send: previous, destination, balance, signature, work;
    /// receive: previous, source, signature, work;
    /// open: source, representative, account, signature, work;
    /// change: previous, representative, signature, work;
    /// state: account, previous, representative, balance, link, signature, work.
    pub open spec fn body_len_spec(self) -> nat {
        match self {
            BlockType::LegacySend => 152,
            BlockType::LegacyReceive => 136,
            BlockType::LegacyOpen => 168,
            BlockType::LegacyChange => 136,
            BlockType::State => 216,
        }
    }

    pub fn body_len(&self) -> (r: usize)
        ensures
            r == self.body_len_spec(),
    {
        match self {
            BlockType::LegacySend => 152,
            BlockType::LegacyReceive => 136,
            BlockType::LegacyOpen => 168,
            BlockType::LegacyChange => 136,
            BlockType::State => 216,
        }
    }
}

/// Every block type is found again from its code.
pub proof fn lemma_block_type_code_roundtrip(t: BlockType)
    ensures
        BlockType::from_code_spec(t.code_spec()) == Some(t),
        t.code_spec() != BLOCK_TYPE_NOT_A_BLOCK,
{
}

/// Each block type's wire code is its block type id: legacy send 2, legacy
/// receive 3, legacy open 4, legacy change 5, state 6. Codes 0 (invalid),
/// 1 (not a block) and codes above 6 name no block type, and a code that
/// names one is that type's own code.
pub proof fn lemma_block_type_ids(v: u8)
    ensures
        BlockType::LegacySend.code_spec() == 2,
        BlockType::LegacyReceive.code_spec() == 3,
        BlockType::LegacyOpen.code_spec() == 4,
        BlockType::LegacyChange.code_spec() == 5,
        BlockType::State.code_spec() == 6,
        BlockType::from_code_spec(v) matches Some(t) ==> t.code_spec() == v,
        BlockType::from_code_spec(v) is None <==> (v < 2 || v > 6),
        BLOCK_TYPE_INVALID == 0,
        BLOCK_TYPE_NOT_A_BLOCK == 1,
{
}

/// A block: its type and its serialized fields.
#[derive(Debug, PartialEq, Eq)]
pub struct Block {
    block_type: BlockType,
    body: Vec<u8>,
}

/// What a block is: its type and its serialized fields.
pub struct BlockView {
    pub block_type: BlockType,
    pub body: Seq<u8>,
}

impl BlockView {
    /// The body has the length of the block type's fields.
    pub open spec fn wf(self) -> bool {
        self.body.len() == self.block_type.body_len_spec()
    }
}

impl Clone for Block {
    fn clone(&self) -> (r: Block)
        ensures
            r@ == self@,
    {
        proof {
            use_type_invariant(self);
        }
        let body = self.body.clone();
        assert(body@ =~= self.body@);
        Block { block_type: self.block_type, body }
    }
}

impl View for Block {
    type V = BlockView;

    closed spec fn view(&self) -> BlockView {
        BlockView { block_type: self.block_type, body: self.body@ }
    }
}

/// Wire format of a block: type code, then body.
pub open spec fn block_bytes(b: BlockView) -> Seq<u8> {
    seq![b.block_type.code_spec()] + b.body
}

impl Block {
    #[verifier::type_invariant]
    spec fn inv(self) -> bool {
        self.body@.len() == self.block_type.body_len_spec()
    }

    /// A block of type `block_type` with serialized fields `body`.
    pub fn new(block_type: BlockType, body: Vec<u8>) -> (r: Block)
        requires
            body@.len() == block_type.body_len_spec(),
        ensures
            r@ == (BlockView { block_type, body: body@ }),
    {
        Block { block_type, body }
    }

    /// A state block whose fields are all zero.
    pub fn new_test_instance() -> (r: Block)
        ensures
            r@.block_type == BlockType::State,
            r@.body == Seq::new(216, |i: int| 0u8),
    {
        let body: Vec<u8> = vec![0u8; 216];
        assert(body@ =~= Seq::new(216, |i: int| 0u8));
        Block { block_type: BlockType::State, body }
    }

    pub fn block_type(&self) -> (r: BlockType)
        ensures
            r == self@.block_type,
            self@.wf(),
    {
        proof {
            use_type_invariant(self);
        }
        self.block_type
    }

    pub fn body(&self) -> (r: &[u8])
        ensures
            r@ == self@.body,
            self@.wf(),
    {
        proof {
            use_type_invariant(self);
        }
        self.body.as_slice()
    }

    /// Appends the block's type code and body.
    pub fn serialize(&self, out: &mut Vec<u8>)
        ensures
            final(out)@ == old(out)@ + block_bytes(self@),
    {
        out.push(self.block_type.code());
        out.extend_from_slice(self.body.as_slice());
        assert(out@ =~= old(out)@ + block_bytes(self@));
    }

    /// Reads the body of a block of type `block_type` at `pos`.
    pub fn deserialize_body(block_type: BlockType, bytes: &[u8], pos: usize) -> (r: Result<
        (Block, usize),
        DeserializationError,
    >)
        requires
            pos <= bytes@.len(),
        ensures
            match r {
                Ok((b, p)) => {
                    &&& pos + block_type.body_len_spec() <= bytes@.len()
                    &&& p == pos + block_type.body_len_spec()
                    &&& b@ == (BlockView {
                        block_type,
                        body: bytes@.subrange(pos as int, p as int),
                    })
                },
                Err(e) => e == DeserializationError::EndOfInput && bytes@.len() < pos
                    + block_type.body_len_spec(),
            },
    {
        let n = block_type.body_len();
        if bytes.len() - pos < n {
            return Err(DeserializationError::EndOfInput);
        }
        let mut body: Vec<u8> = Vec::with_capacity(n);
        let end = pos + n;
        let mut i: usize = pos;
        while i < end
            invariant
                pos <= i <= end <= bytes@.len(),
                end == pos + n,
                n == block_type.body_len_spec(),
                body@ =~= bytes@.subrange(pos as int, i as int),
            decreases end - i,
        {
            body.push(bytes[i]);
            i = i + 1;
        }
        Ok((Block { block_type, body }, end))
    }
}

} // verus!
