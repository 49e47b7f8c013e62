//! Ascending-bootstrap pull requests and their wire format.
//!
//! A request is the pull type (one byte), the request id (64 bits,
//! big-endian) and the payload of that pull type.

use vstd::prelude::*;
use crate::codec::{
    at, be_value, lemma_u16_be_value, lemma_u64_be_value, lemma_take_u16_be_encoded, lemma_take_u16_be_split, lemma_take_u64_be_encoded,
    lemma_take_u64_be_split, lemma_take_u8_encoded, pos_ok, read_u16_be, read_u64_be, read_u8,
    take_u16_be, take_u64_be, take_u8, u16_be_bytes, u64_be_bytes, write_u16_be, write_u64_be,
    write_u8, DeserializationError, Take,
};
use crate::header::{
    extension_bits, pull_header_extensions, pull_serialized_size, HeaderExtensions,
    PULL_PREFIX_LEN,
};
use crate::primitives::{
    bytes32_bytes, bytes32_value, lemma_bytes32_bytes_value, lemma_take_bytes32_encoded, lemma_take_bytes32_split, read_bytes32,
    take_bytes32, write_bytes32, Account, BlockHash, Bytes32, HashOrAccount,
};

verus! {

/// The kind of data that a pull asks for, with its code on the wire.
#[derive(Clone, Copy, Debug, PartialEq, Eq, Structural)]
pub enum AscPullPayloadId {
    /// Code 1.
    Blocks,
    /// Code 2.
    AccountInfo,
    /// Code 3.
    Frontiers,
}

impl AscPullPayloadId {
    pub open spec fn code_spec(self) -> u8 {
        match self {
            AscPullPayloadId::Blocks => 1,
            AscPullPayloadId::AccountInfo => 2,
            AscPullPayloadId::Frontiers => 3,
        }
    }

    /// The code of the pull type on the wire.
    pub fn code(&self) -> (r: u8)
        ensures
            r == self.code_spec(),
    {
        match self {
            AscPullPayloadId::Blocks => 1,
            AscPullPayloadId::AccountInfo => 2,
            AscPullPayloadId::Frontiers => 3,
        }
    }

    pub open spec fn from_u8_spec(v: u8) -> Option<AscPullPayloadId> {
        if v == 1 {
            Some(AscPullPayloadId::Blocks)
        } else if v == 2 {
            Some(AscPullPayloadId::AccountInfo)
        } else if v == 3 {
            Some(AscPullPayloadId::Frontiers)
        } else {
            None
        }
    }

    /// The pull type with code `v`, if there is one.
    pub fn from_u8(v: u8) -> (r: Option<AscPullPayloadId>)
        ensures
            r == Self::from_u8_spec(v),
    {
        if v == 1 {
            Some(AscPullPayloadId::Blocks)
        } else if v == 2 {
            Some(AscPullPayloadId::AccountInfo)
        } else if v == 3 {
            Some(AscPullPayloadId::Frontiers)
        } else {
            None
        }
    }
}

/// Every pull type is found again from its code.
pub proof fn lemma_payload_id_code_roundtrip(id: AscPullPayloadId)
    ensures
        AscPullPayloadId::from_u8_spec(id.code_spec()) == Some(id),
{
}

/// The codes on the wire: pull types blocks 1, account info 2, frontiers 3;
/// hash types account 0, block 1. No other code names a pull type or a hash
/// type.
pub proof fn lemma_pull_codes(v: u8)
    ensures
        AscPullPayloadId::Blocks.code_spec() == 1,
        AscPullPayloadId::AccountInfo.code_spec() == 2,
        AscPullPayloadId::Frontiers.code_spec() == 3,
        AscPullPayloadId::from_u8_spec(v) matches Some(t) ==> t.code_spec() == v,
        AscPullPayloadId::from_u8_spec(v) is None <==> (v < 1 || v > 3),
        HashType::Account.code_spec() == 0,
        HashType::Block.code_spec() == 1,
        HashType::from_u8_spec(v) matches Some(t) ==> t.code_spec() == v,
        HashType::from_u8_spec(v) is None <==> v > 1,
{
}

/// Whether a 256-bit start value is read as an account or as a block hash.
#[derive(Clone, Copy, Debug, PartialEq, Eq, Structural)]
pub enum HashType {
    /// Code 0.
    Account,
    /// Code 1.
    Block,
}

impl Default for HashType {
    fn default() -> (r: HashType)
        ensures
            r == HashType::Account,
    {
        HashType::Account
    }
}

impl HashType {
    pub open spec fn code_spec(self) -> u8 {
        match self {
            HashType::Account => 0,
            HashType::Block => 1,
        }
    }

    pub fn code(&self) -> (r: u8)
        ensures
            r == self.code_spec(),
    {
        match self {
            HashType::Account => 0,
            HashType::Block => 1,
        }
    }

    pub open spec fn from_u8_spec(v: u8) -> Option<HashType> {
        if v == 0 {
            Some(HashType::Account)
        } else if v == 1 {
            Some(HashType::Block)
        } else {
            None
        }
    }

    pub fn from_u8(v: u8) -> (r: Option<HashType>)
        ensures
            r == Self::from_u8_spec(v),
    {
        if v == 0 {
            Some(HashType::Account)
        } else if v == 1 {
            Some(HashType::Block)
        } else {
            None
        }
    }
}

/// Reads a hash type: its code byte, which must be 0 or 1.
pub open spec fn take_hash_type(s: Seq<u8>) -> Take<HashType> {
    match take_u8(s) {
        Err(e) => Err(e),
        Ok((b, rest)) => match HashType::from_u8_spec(b) {
            None => Err(DeserializationError::InvalidData),
            Some(t) => Ok((t, rest)),
        },
    }
}

fn read_hash_type(bytes: &[u8], pos: usize) -> (r: Result<(HashType, usize), DeserializationError>)
    requires
        pos <= bytes@.len(),
    ensures
        at(bytes@, r) == take_hash_type(bytes@.skip(pos as int)),
        pos_ok(bytes@.len() as int, pos as int, r),
{
    let (b, p) = read_u8(bytes, pos)?;
    match HashType::from_u8(b) {
        Some(t) => Ok((t, p)),
        None => Err(DeserializationError::InvalidData),
    }
}

/// Asks for up to `count` blocks, starting at `start`.
#[derive(Clone, Copy, Debug, PartialEq, Eq, Structural, Default)]
pub struct BlocksReqPayload {
    pub start_type: HashType,
    pub start: HashOrAccount,
    pub count: u8,
}

/// Wire format: the start value, the count, the code of the start type.
pub open spec fn blocks_req_bytes(p: BlocksReqPayload) -> Seq<u8> {
    bytes32_bytes(p.start) + seq![p.count, p.start_type.code_spec()]
}

pub open spec fn take_blocks_req(s: Seq<u8>) -> Take<BlocksReqPayload> {
    match take_bytes32(s) {
        Err(e) => Err(e),
        Ok((start, s1)) => match take_u8(s1) {
            Err(e) => Err(e),
            Ok((count, s2)) => match take_hash_type(s2) {
                Err(e) => Err(e),
                Ok((start_type, s3)) => Ok((BlocksReqPayload { start_type, start, count }, s3)),
            },
        },
    }
}

impl BlocksReqPayload {
    pub fn new_test_instance() -> (r: BlocksReqPayload)
        ensures
            r == (BlocksReqPayload {
                start: Bytes32 { w0: 0, w1: 0, w2: 0, w3: 123 },
                count: 100,
                start_type: HashType::Account,
            }),
    {
        BlocksReqPayload { start: Bytes32::from_u64(123), count: 100, start_type: HashType::Account }
    }

    pub fn serialize(&self, out: &mut Vec<u8>)
        ensures
            final(out)@ == old(out)@ + blocks_req_bytes(*self),
    {
        write_bytes32(out, &self.start);
        write_u8(out, self.count);
        write_u8(out, self.start_type.code());
        assert(out@ =~= old(out)@ + blocks_req_bytes(*self));
    }

    pub fn deserialize(bytes: &[u8], pos: usize) -> (r: Result<(BlocksReqPayload, usize), DeserializationError>)
        requires
            pos <= bytes@.len(),
        ensures
            at(bytes@, r) == take_blocks_req(bytes@.skip(pos as int)),
            pos_ok(bytes@.len() as int, pos as int, r),
    {
        let (start, p1) = read_bytes32(bytes, pos)?;
        let (count, p2) = read_u8(bytes, p1)?;
        let (start_type, p3) = read_hash_type(bytes, p2)?;
        Ok((BlocksReqPayload { start_type, start, count }, p3))
    }
}

/// Asks for the account information of `target`.
#[derive(Clone, Copy, Debug, PartialEq, Eq, Structural, Default)]
pub struct AccountInfoReqPayload {
    pub target: HashOrAccount,
    pub target_type: HashType,
}

/// Wire format: the target, the code of the target type.
pub open spec fn account_info_req_bytes(p: AccountInfoReqPayload) -> Seq<u8> {
    bytes32_bytes(p.target) + seq![p.target_type.code_spec()]
}

pub open spec fn take_account_info_req(s: Seq<u8>) -> Take<AccountInfoReqPayload> {
    match take_bytes32(s) {
        Err(e) => Err(e),
        Ok((target, s1)) => match take_hash_type(s1) {
            Err(e) => Err(e),
            Ok((target_type, s2)) => Ok((AccountInfoReqPayload { target, target_type }, s2)),
        },
    }
}

impl AccountInfoReqPayload {
    pub fn new_test_instance() -> (r: AccountInfoReqPayload)
        ensures
            r == (AccountInfoReqPayload {
                target: Bytes32 { w0: 0, w1: 0, w2: 0, w3: 42 },
                target_type: HashType::Account,
            }),
    {
        AccountInfoReqPayload { target: Bytes32::from_u64(42), target_type: HashType::Account }
    }

    pub fn serialize(&self, out: &mut Vec<u8>)
        ensures
            final(out)@ == old(out)@ + account_info_req_bytes(*self),
    {
        write_bytes32(out, &self.target);
        write_u8(out, self.target_type.code());
        assert(out@ =~= old(out)@ + account_info_req_bytes(*self));
    }

    pub fn deserialize(bytes: &[u8], pos: usize) -> (r: Result<(AccountInfoReqPayload, usize), DeserializationError>)
        requires
            pos <= bytes@.len(),
        ensures
            at(bytes@, r) == take_account_info_req(bytes@.skip(pos as int)),
            pos_ok(bytes@.len() as int, pos as int, r),
    {
        let (target, p1) = read_bytes32(bytes, pos)?;
        let (target_type, p2) = read_hash_type(bytes, p1)?;
        Ok((AccountInfoReqPayload { target, target_type }, p2))
    }
}

/// Asks for up to `count` frontiers, starting at account `start`.
#[derive(Clone, Copy, Debug, PartialEq, Eq, Structural, Default)]
pub struct FrontiersReqPayload {
    pub start: Account,
    pub count: u16,
}

/// Wire format: the start account, the count (16 bits, big-endian).
pub open spec fn frontiers_req_bytes(p: FrontiersReqPayload) -> Seq<u8> {
    bytes32_bytes(p.start) + u16_be_bytes(p.count)
}

pub open spec fn take_frontiers_req(s: Seq<u8>) -> Take<FrontiersReqPayload> {
    match take_bytes32(s) {
        Err(e) => Err(e),
        Ok((start, s1)) => match take_u16_be(s1) {
            Err(e) => Err(e),
            Ok((count, s2)) => Ok((FrontiersReqPayload { start, count }, s2)),
        },
    }
}

impl FrontiersReqPayload {
    /// The header allows 16-bit extensions: 65536 bytes / 64 bytes (account
    /// and frontier) is about 1024, less room for the null terminator.
    pub const MAX_FRONTIERS: u16 = 1000;

    pub fn serialize(&self, out: &mut Vec<u8>)
        ensures
            final(out)@ == old(out)@ + frontiers_req_bytes(*self),
    {
        write_bytes32(out, &self.start);
        write_u16_be(out, self.count);
        assert(out@ =~= old(out)@ + frontiers_req_bytes(*self));
    }

    pub fn deserialize(bytes: &[u8], pos: usize) -> (r: Result<(FrontiersReqPayload, usize), DeserializationError>)
        requires
            pos <= bytes@.len(),
        ensures
            at(bytes@, r) == take_frontiers_req(bytes@.skip(pos as int)),
            pos_ok(bytes@.len() as int, pos as int, r),
    {
        let (start, p1) = read_bytes32(bytes, pos)?;
        let (count, p2) = read_u16_be(bytes, p1)?;
        Ok((FrontiersReqPayload { start, count }, p2))
    }
}

/// The payload of a pull request.
#[derive(Clone, Copy, Debug, PartialEq, Eq, Structural)]
pub enum AscPullReqType {
    Blocks(BlocksReqPayload),
    AccountInfo(AccountInfoReqPayload),
    Frontiers(FrontiersReqPayload),
}

/// The statistics detail under which a pull is counted.
#[derive(Clone, Copy, Debug, PartialEq, Eq, Structural)]
pub enum PullDetail {
    Blocks,
    AccountInfo,
    Frontiers,
}

pub open spec fn req_type_bytes(t: AscPullReqType) -> Seq<u8> {
    match t {
        AscPullReqType::Blocks(p) => blocks_req_bytes(p),
        AscPullReqType::AccountInfo(p) => account_info_req_bytes(p),
        AscPullReqType::Frontiers(p) => frontiers_req_bytes(p),
    }
}

/// Reads the payload of the pull type `id`.
pub open spec fn take_req_type(id: AscPullPayloadId, s: Seq<u8>) -> Take<AscPullReqType> {
    match id {
        AscPullPayloadId::Blocks => match take_blocks_req(s) {
            Err(e) => Err(e),
            Ok((p, rest)) => Ok((AscPullReqType::Blocks(p), rest)),
        },
        AscPullPayloadId::AccountInfo => match take_account_info_req(s) {
            Err(e) => Err(e),
            Ok((p, rest)) => Ok((AscPullReqType::AccountInfo(p), rest)),
        },
        AscPullPayloadId::Frontiers => match take_frontiers_req(s) {
            Err(e) => Err(e),
            Ok((p, rest)) => Ok((AscPullReqType::Frontiers(p), rest)),
        },
    }
}

impl AscPullReqType {
    /// Asks for the account information of the account that holds block `next`.
    pub fn account_info_by_hash(next: BlockHash) -> (r: AscPullReqType)
        ensures
            r == AscPullReqType::AccountInfo(
                AccountInfoReqPayload { target: next, target_type: HashType::Block },
            ),
    {
        AscPullReqType::AccountInfo(AccountInfoReqPayload { target: next, target_type: HashType::Block })
    }

    pub open spec fn payload_type_spec(self) -> AscPullPayloadId {
        match self {
            AscPullReqType::Blocks(_) => AscPullPayloadId::Blocks,
            AscPullReqType::AccountInfo(_) => AscPullPayloadId::AccountInfo,
            AscPullReqType::Frontiers(_) => AscPullPayloadId::Frontiers,
        }
    }

    pub fn payload_type(&self) -> (r: AscPullPayloadId)
        ensures
            r == self.payload_type_spec(),
    {
        match self {
            AscPullReqType::Blocks(_) => AscPullPayloadId::Blocks,
            AscPullReqType::AccountInfo(_) => AscPullPayloadId::AccountInfo,
            AscPullReqType::Frontiers(_) => AscPullPayloadId::Frontiers,
        }
    }

    pub fn serialize(&self, out: &mut Vec<u8>)
        ensures
            final(out)@ == old(out)@ + req_type_bytes(*self),
    {
        match self {
            AscPullReqType::Blocks(p) => p.serialize(out),
            AscPullReqType::AccountInfo(p) => p.serialize(out),
            AscPullReqType::Frontiers(p) => p.serialize(out),
        }
    }

    /// The statistics detail of this pull type.
    pub fn detail_type(&self) -> (r: PullDetail)
        ensures
            r == match self.payload_type_spec() {
                AscPullPayloadId::Blocks => PullDetail::Blocks,
                AscPullPayloadId::AccountInfo => PullDetail::AccountInfo,
                AscPullPayloadId::Frontiers => PullDetail::Frontiers,
            },
    {
        match self {
            AscPullReqType::Blocks(_) => PullDetail::Blocks,
            AscPullReqType::AccountInfo(_) => PullDetail::AccountInfo,
            AscPullReqType::Frontiers(_) => PullDetail::Frontiers,
        }
    }
}

/// An ascending-bootstrap pull request.
#[derive(Clone, Copy, Debug, PartialEq, Eq, Structural)]
pub struct AscPullReq {
    pub id: u64,
    pub req_type: AscPullReqType,
}

/// Wire format: pull type code, id (big-endian), payload.
pub open spec fn asc_pull_req_bytes(r: AscPullReq) -> Seq<u8> {
    seq![r.req_type.payload_type_spec().code_spec()] + u64_be_bytes(r.id) + req_type_bytes(
        r.req_type,
    )
}

/// What a byte sequence decodes to. Bytes after the payload are ignored.
pub open spec fn parse_asc_pull_req(s: Seq<u8>) -> Result<AscPullReq, DeserializationError> {
    match take_u8(s) {
        Err(e) => Err(e),
        Ok((code, s1)) => match AscPullPayloadId::from_u8_spec(code) {
            None => Err(DeserializationError::InvalidData),
            Some(kind) => match take_u64_be(s1) {
                Err(e) => Err(e),
                Ok((id, s2)) => match take_req_type(kind, s2) {
                    Err(e) => Err(e),
                    Ok((req_type, _)) => Ok(AscPullReq { id, req_type }),
                },
            },
        },
    }
}

impl AscPullReq {
    pub fn new_test_instance_blocks() -> (r: AscPullReq)
        ensures
            r.id == 12345,
            r.req_type == AscPullReqType::Blocks(
                BlocksReqPayload {
                    start: Bytes32 { w0: 0, w1: 0, w2: 0, w3: 123 },
                    count: 100,
                    start_type: HashType::Account,
                },
            ),
    {
        AscPullReq { id: 12345, req_type: AscPullReqType::Blocks(BlocksReqPayload::new_test_instance()) }
    }

    pub fn new_test_instance_account() -> (r: AscPullReq)
        ensures
            r.id == 12345,
            r.req_type == AscPullReqType::AccountInfo(
                AccountInfoReqPayload {
                    target: Bytes32 { w0: 0, w1: 0, w2: 0, w3: 42 },
                    target_type: HashType::Account,
                },
            ),
    {
        AscPullReq {
            id: 12345,
            req_type: AscPullReqType::AccountInfo(AccountInfoReqPayload::new_test_instance()),
        }
    }

    pub fn payload_type(&self) -> (r: AscPullPayloadId)
        ensures
            r == self.req_type.payload_type_spec(),
    {
        self.req_type.payload_type()
    }

    /// Size of the message body whose header carries `extensions`: pull type,
    /// id and the payload length that the extensions hold.
    pub fn serialized_size(extensions: HeaderExtensions) -> (r: usize)
        ensures
            r == 1 + 8 + extension_bits(extensions),
    {
        pull_serialized_size(&extensions)
    }

    /// The header extensions of a body of `payload_len` bytes.
    pub fn header_extensions(&self, payload_len: u16) -> (r: HeaderExtensions)
        requires
            payload_len >= PULL_PREFIX_LEN,
        ensures
            extension_bits(r) == payload_len - PULL_PREFIX_LEN,
    {
        pull_header_extensions(payload_len)
    }

    pub fn serialize(&self, out: &mut Vec<u8>)
        ensures
            final(out)@ == old(out)@ + asc_pull_req_bytes(*self),
    {
        write_u8(out, self.payload_type().code());
        write_u64_be(out, self.id);
        self.req_type.serialize(out);
        assert(out@ =~= old(out)@ + asc_pull_req_bytes(*self));
    }

    pub fn deserialize(bytes: &[u8]) -> (r: Result<AscPullReq, DeserializationError>)
        ensures
            r == parse_asc_pull_req(bytes@),
    {
        assert(bytes@.skip(0) =~= bytes@);
        let (code, p1) = read_u8(bytes, 0)?;
        let kind = match AscPullPayloadId::from_u8(code) {
            Some(k) => k,
            None => return Err(DeserializationError::InvalidData),
        };
        let (id, p2) = read_u64_be(bytes, p1)?;
        let req_type = match kind {
            AscPullPayloadId::Blocks => {
                let (payload, _) = BlocksReqPayload::deserialize(bytes, p2)?;
                AscPullReqType::Blocks(payload)
            },
            AscPullPayloadId::AccountInfo => {
                let (payload, _) = AccountInfoReqPayload::deserialize(bytes, p2)?;
                AscPullReqType::AccountInfo(payload)
            },
            AscPullPayloadId::Frontiers => {
                let (payload, _) = FrontiersReqPayload::deserialize(bytes, p2)?;
                AscPullReqType::Frontiers(payload)
            },
        };
        Ok(AscPullReq { id, req_type })
    }
}

proof fn lemma_take_hash_type_encoded(t: HashType, rest: Seq<u8>)
    ensures
        take_hash_type(seq![t.code_spec()] + rest) == Ok::<(HashType, Seq<u8>), DeserializationError>(
            (t, rest),
        ),
{
    lemma_take_u8_encoded(t.code_spec(), rest);
}

proof fn lemma_take_blocks_req_encoded(p: BlocksReqPayload, rest: Seq<u8>)
    ensures
        take_blocks_req(blocks_req_bytes(p) + rest) == Ok::<(BlocksReqPayload, Seq<u8>), DeserializationError>(
            (p, rest),
        ),
{
    let r2 = seq![p.start_type.code_spec()] + rest;
    let r1 = seq![p.count] + r2;
    assert(blocks_req_bytes(p) + rest =~= bytes32_bytes(p.start) + r1);
    lemma_take_bytes32_encoded(p.start, r1);
    lemma_take_u8_encoded(p.count, r2);
    lemma_take_hash_type_encoded(p.start_type, rest);
}

proof fn lemma_take_account_info_req_encoded(p: AccountInfoReqPayload, rest: Seq<u8>)
    ensures
        take_account_info_req(account_info_req_bytes(p) + rest) == Ok::<
            (AccountInfoReqPayload, Seq<u8>),
            DeserializationError,
        >((p, rest)),
{
    let r1 = seq![p.target_type.code_spec()] + rest;
    assert(account_info_req_bytes(p) + rest =~= bytes32_bytes(p.target) + r1);
    lemma_take_bytes32_encoded(p.target, r1);
    lemma_take_hash_type_encoded(p.target_type, rest);
}

proof fn lemma_take_frontiers_req_encoded(p: FrontiersReqPayload, rest: Seq<u8>)
    ensures
        take_frontiers_req(frontiers_req_bytes(p) + rest) == Ok::<
            (FrontiersReqPayload, Seq<u8>),
            DeserializationError,
        >((p, rest)),
{
    let r1 = u16_be_bytes(p.count) + rest;
    assert(frontiers_req_bytes(p) + rest =~= bytes32_bytes(p.start) + r1);
    lemma_take_bytes32_encoded(p.start, r1);
    lemma_take_u16_be_encoded(p.count, rest);
}

proof fn lemma_take_req_type_encoded(t: AscPullReqType, rest: Seq<u8>)
    ensures
        take_req_type(t.payload_type_spec(), req_type_bytes(t) + rest) == Ok::<
            (AscPullReqType, Seq<u8>),
            DeserializationError,
        >((t, rest)),
{
    match t {
        AscPullReqType::Blocks(p) => lemma_take_blocks_req_encoded(p, rest),
        AscPullReqType::AccountInfo(p) => lemma_take_account_info_req_encoded(p, rest),
        AscPullReqType::Frontiers(p) => lemma_take_frontiers_req_encoded(p, rest),
    }
}

proof fn lemma_take_hash_type_split(s: Seq<u8>)
    ensures
        take_hash_type(s) matches Ok((t, rest)) ==> s =~= seq![t.code_spec()] + rest,
{
}

proof fn lemma_take_blocks_req_split(s: Seq<u8>)
    ensures
        take_blocks_req(s) matches Ok((p, rest)) ==> s =~= blocks_req_bytes(p) + rest,
{
    lemma_take_bytes32_split(s);
    if let Ok((v, s1)) = take_bytes32(s) {
        if let Ok((c, s2)) = take_u8(s1) {
            lemma_take_hash_type_split(s2);
            if let Ok((t, s3)) = take_hash_type(s2) {
                let p = BlocksReqPayload { start_type: t, start: v, count: c };
                assert(s =~= blocks_req_bytes(p) + s3);
            }
        }
    }
}

proof fn lemma_take_account_info_req_split(s: Seq<u8>)
    ensures
        take_account_info_req(s) matches Ok((p, rest)) ==> s =~= account_info_req_bytes(p) + rest,
{
    lemma_take_bytes32_split(s);
    if let Ok((v, s1)) = take_bytes32(s) {
        lemma_take_hash_type_split(s1);
        if let Ok((t, s2)) = take_hash_type(s1) {
            let p = AccountInfoReqPayload { target: v, target_type: t };
            assert(s =~= account_info_req_bytes(p) + s2);
        }
    }
}

proof fn lemma_take_frontiers_req_split(s: Seq<u8>)
    ensures
        take_frontiers_req(s) matches Ok((p, rest)) ==> s =~= frontiers_req_bytes(p) + rest,
{
    lemma_take_bytes32_split(s);
    if let Ok((v, s1)) = take_bytes32(s) {
        lemma_take_u16_be_split(s1);
        if let Ok((c, s2)) = take_u16_be(s1) {
            let p = FrontiersReqPayload { start: v, count: c };
            assert(s =~= frontiers_req_bytes(p) + s2);
        }
    }
}

proof fn lemma_take_req_type_split(kind: AscPullPayloadId, s: Seq<u8>)
    ensures
        take_req_type(kind, s) matches Ok((t, rest)) ==> t.payload_type_spec() == kind && s
            =~= req_type_bytes(t) + rest,
{
    match kind {
        AscPullPayloadId::Blocks => lemma_take_blocks_req_split(s),
        AscPullPayloadId::AccountInfo => lemma_take_account_info_req_split(s),
        AscPullPayloadId::Frontiers => lemma_take_frontiers_req_split(s),
    }
}

/// Decoding the encoding of a request, followed by any bytes, gives the
/// request back.
pub proof fn lemma_asc_pull_req_roundtrip(r: AscPullReq, rest: Seq<u8>)
    ensures
        parse_asc_pull_req(asc_pull_req_bytes(r) + rest) == Ok::<AscPullReq, DeserializationError>(
            r,
        ),
{
    let code = r.req_type.payload_type_spec().code_spec();
    let r2 = req_type_bytes(r.req_type) + rest;
    let r1 = u64_be_bytes(r.id) + r2;
    assert(asc_pull_req_bytes(r) + rest =~= seq![code] + r1);
    lemma_take_u8_encoded(code, r1);
    lemma_payload_id_code_roundtrip(r.req_type.payload_type_spec());
    lemma_take_u64_be_encoded(r.id, r2);
    lemma_take_req_type_encoded(r.req_type, rest);
}

/// A decoded request is exactly what the input starts with: no two encodings
/// decode to the same request.
pub proof fn lemma_asc_pull_req_unique(s: Seq<u8>)
    ensures
        parse_asc_pull_req(s) matches Ok(r) ==> asc_pull_req_bytes(r).len() <= s.len() && s.take(
            asc_pull_req_bytes(r).len() as int,
        ) == asc_pull_req_bytes(r),
{
    if let Ok((code, s1)) = take_u8(s) {
        assert(s =~= seq![code] + s1);
        if let Some(kind) = AscPullPayloadId::from_u8_spec(code) {
            lemma_take_u64_be_split(s1);
            if let Ok((id, s2)) = take_u64_be(s1) {
                lemma_take_req_type_split(kind, s2);
                if let Ok((t, s3)) = take_req_type(kind, s2) {
                    let r = AscPullReq { id, req_type: t };
                    assert(s =~= asc_pull_req_bytes(r) + s3);
                    assert(s.take(asc_pull_req_bytes(r).len() as int) =~= asc_pull_req_bytes(r));
                }
            }
        }
    }
}

/// The layout of a request on the wire: byte 0 is the pull type (blocks 1,
/// account info 2, frontiers 3); bytes 1..9 are the id, big-endian; then the
/// 32 bytes of the 256-bit start or target, big-endian; then, for blocks, the
/// count and the start type (account 0, block 1); for account info, the
/// target type; for frontiers, the count as 16 bits big-endian.
pub proof fn lemma_asc_pull_req_layout(r: AscPullReq)
    ensures
        ({
            let s = asc_pull_req_bytes(r);
            &&& s.len() >= 42
            &&& s[0] == match r.req_type {
                AscPullReqType::Blocks(_) => 1u8,
                AscPullReqType::AccountInfo(_) => 2u8,
                AscPullReqType::Frontiers(_) => 3u8,
            }
            &&& be_value(s.subrange(1, 9)) == r.id
            &&& match r.req_type {
                AscPullReqType::Blocks(p) => {
                    &&& s.len() == 43
                    &&& be_value(s.subrange(9, 41)) == bytes32_value(p.start)
                    &&& s[41] == p.count
                    &&& s[42] == match p.start_type {
                        HashType::Account => 0u8,
                        HashType::Block => 1u8,
                    }
                },
                AscPullReqType::AccountInfo(p) => {
                    &&& s.len() == 42
                    &&& be_value(s.subrange(9, 41)) == bytes32_value(p.target)
                    &&& s[41] == match p.target_type {
                        HashType::Account => 0u8,
                        HashType::Block => 1u8,
                    }
                },
                AscPullReqType::Frontiers(p) => {
                    &&& s.len() == 43
                    &&& be_value(s.subrange(9, 41)) == bytes32_value(p.start)
                    &&& be_value(s.subrange(41, 43)) == p.count
                },
            }
        }),
{
    let s = asc_pull_req_bytes(r);
    lemma_u64_be_value(r.id);
    assert(s.subrange(1, 9) =~= u64_be_bytes(r.id));
    match r.req_type {
        AscPullReqType::Blocks(p) => {
            lemma_bytes32_bytes_value(p.start);
            assert(s.subrange(9, 41) =~= bytes32_bytes(p.start));
        },
        AscPullReqType::AccountInfo(p) => {
            lemma_bytes32_bytes_value(p.target);
            assert(s.subrange(9, 41) =~= bytes32_bytes(p.target));
        },
        AscPullReqType::Frontiers(p) => {
            lemma_bytes32_bytes_value(p.start);
            lemma_u16_be_value(p.count);
            assert(s.subrange(9, 41) =~= bytes32_bytes(p.start));
            assert(s.subrange(41, 43) =~= u16_be_bytes(p.count));
        },
    }
}

/// A decoded request takes its id from bytes 1..9 read big-endian, and its
/// 256-bit start or target from bytes 9..41 read big-endian.
pub proof fn lemma_parse_asc_pull_req_fields(s: Seq<u8>)
    ensures
        parse_asc_pull_req(s) matches Ok(r) ==> {
            &&& s.len() >= 42
            &&& r.id == be_value(s.subrange(1, 9))
            &&& match r.req_type {
                AscPullReqType::Blocks(p) => bytes32_value(p.start) == be_value(s.subrange(9, 41)),
                AscPullReqType::AccountInfo(p) => bytes32_value(p.target) == be_value(
                    s.subrange(9, 41),
                ),
                AscPullReqType::Frontiers(p) => bytes32_value(p.start) == be_value(
                    s.subrange(9, 41),
                ),
            }
        },
{
    lemma_asc_pull_req_unique(s);
    if let Ok(r) = parse_asc_pull_req(s) {
        let e = asc_pull_req_bytes(r);
        lemma_asc_pull_req_layout(r);
        assert(s.take(e.len() as int) == e);
        assert(s.subrange(1, 9) =~= e.subrange(1, 9)) by {
            assert forall|i: int| 0 <= i < 8 implies s.subrange(1, 9)[i] == e.subrange(1, 9)[i] by {
                assert(s.take(e.len() as int)[i + 1] == s[i + 1]);
            }
        }
        assert(s.subrange(9, 41) =~= e.subrange(9, 41)) by {
            assert forall|i: int| 0 <= i < 32 implies s.subrange(9, 41)[i] == e.subrange(9, 41)[i] by {
                assert(s.take(e.len() as int)[i + 9] == s[i + 9]);
            }
        }
    }
}

} // verus!
