use nano_snapshots::asc_pull_req::{
    AccountInfoReqPayload, AscPullPayloadId, AscPullReq, AscPullReqType, BlocksReqPayload,
    FrontiersReqPayload, HashType, PullDetail,
};
use nano_snapshots::codec::DeserializationError;
use nano_snapshots::header::HeaderExtensions;
use nano_snapshots::primitives::Bytes32;

fn assert_deserializable(original: &AscPullReq) {
    let mut bytes = Vec::new();
    original.serialize(&mut bytes);
    let deserialized = AscPullReq::deserialize(&bytes).unwrap();
    assert_eq!(&deserialized, original);
}

#[test]
fn asc_pull_req_serialize_blocks() {
    let original = AscPullReq {
        id: 7,
        req_type: AscPullReqType::Blocks(BlocksReqPayload {
            start: Bytes32::from_u64(3),
            count: 111,
            start_type: HashType::Block,
        }),
    };
    assert_deserializable(&original);
}

#[test]
fn asc_pull_req_serialize_account_info() {
    let original = AscPullReq {
        id: 7,
        req_type: AscPullReqType::AccountInfo(AccountInfoReqPayload {
            target: Bytes32::from_u64(123),
            target_type: HashType::Block,
        }),
    };
    assert_deserializable(&original);
}

#[test]
fn asc_pull_req_serialize_frontiers() {
    let original = AscPullReq {
        id: 7,
        req_type: AscPullReqType::Frontiers(FrontiersReqPayload {
            start: Bytes32::from_u64(42),
            count: 69,
        }),
    };
    assert_deserializable(&original);
}

#[test]
fn blocks_request_wire_bytes() {
    let req = AscPullReq {
        id: 0x0102030405060708,
        req_type: AscPullReqType::Blocks(BlocksReqPayload {
            start: Bytes32 { w0: 0, w1: 0, w2: 0, w3: 0xAB },
            count: 111,
            start_type: HashType::Block,
        }),
    };
    let mut bytes = Vec::new();
    req.serialize(&mut bytes);
    let mut expected = vec![1u8, 1, 2, 3, 4, 5, 6, 7, 8];
    expected.extend_from_slice(&[0u8; 31]);
    expected.push(0xAB);
    expected.push(111);
    expected.push(1);
    assert_eq!(bytes, expected);
}

#[test]
fn frontiers_request_count_is_big_endian() {
    let req = AscPullReq {
        id: 1,
        req_type: AscPullReqType::Frontiers(FrontiersReqPayload {
            start: Bytes32::from_u64(1),
            count: 0x0102,
        }),
    };
    let mut bytes = Vec::new();
    req.serialize(&mut bytes);
    assert_eq!(bytes.len(), 1 + 8 + 32 + 2);
    assert_eq!(bytes[0], 3);
    assert_eq!(&bytes[41..], &[1, 2]);
}

#[test]
fn trailing_bytes_are_ignored() {
    let req = AscPullReq::new_test_instance_account();
    let mut bytes = Vec::new();
    req.serialize(&mut bytes);
    bytes.extend_from_slice(&[9, 9, 9]);
    assert_eq!(AscPullReq::deserialize(&bytes), Ok(req));
}

#[test]
fn empty_input_ends_too_early() {
    assert_eq!(AscPullReq::deserialize(&[]), Err(DeserializationError::EndOfInput));
}

#[test]
fn unknown_pull_type_is_invalid() {
    let mut bytes = vec![0u8];
    bytes.extend_from_slice(&[0u8; 60]);
    assert_eq!(AscPullReq::deserialize(&bytes), Err(DeserializationError::InvalidData));
    bytes[0] = 4;
    assert_eq!(AscPullReq::deserialize(&bytes), Err(DeserializationError::InvalidData));
}

#[test]
fn unknown_hash_type_is_invalid() {
    let req = AscPullReq::new_test_instance_blocks();
    let mut bytes = Vec::new();
    req.serialize(&mut bytes);
    let last = bytes.len() - 1;
    bytes[last] = 2;
    assert_eq!(AscPullReq::deserialize(&bytes), Err(DeserializationError::InvalidData));
}

#[test]
fn truncated_request_ends_too_early() {
    let req = AscPullReq::new_test_instance_blocks();
    let mut bytes = Vec::new();
    req.serialize(&mut bytes);
    bytes.pop();
    assert_eq!(AscPullReq::deserialize(&bytes), Err(DeserializationError::EndOfInput));
    assert_eq!(AscPullReq::deserialize(&bytes[..5]), Err(DeserializationError::EndOfInput));
}

#[test]
fn test_instances() {
    let blocks = AscPullReq::new_test_instance_blocks();
    assert_eq!(blocks.id, 12345);
    assert_eq!(blocks.payload_type(), AscPullPayloadId::Blocks);
    assert_eq!(
        blocks.req_type,
        AscPullReqType::Blocks(BlocksReqPayload {
            start: Bytes32::from_u64(123),
            count: 100,
            start_type: HashType::Account
        })
    );
    let account = AscPullReq::new_test_instance_account();
    assert_eq!(account.payload_type(), AscPullPayloadId::AccountInfo);
    assert_eq!(account.req_type.detail_type(), PullDetail::AccountInfo);
}

#[test]
fn account_info_by_hash_asks_by_block() {
    let t = AscPullReqType::account_info_by_hash(Bytes32::from_u64(5));
    assert_eq!(
        t,
        AscPullReqType::AccountInfo(AccountInfoReqPayload {
            target: Bytes32::from_u64(5),
            target_type: HashType::Block
        })
    );
    assert_eq!(t.payload_type(), AscPullPayloadId::AccountInfo);
}

#[test]
fn payload_id_codes() {
    assert_eq!(AscPullPayloadId::Blocks.code(), 1);
    assert_eq!(AscPullPayloadId::AccountInfo.code(), 2);
    assert_eq!(AscPullPayloadId::Frontiers.code(), 3);
    assert_eq!(AscPullPayloadId::from_u8(3), Some(AscPullPayloadId::Frontiers));
    assert_eq!(AscPullPayloadId::from_u8(0), None);
    assert_eq!(HashType::from_u8(1), Some(HashType::Block));
    assert_eq!(HashType::from_u8(2), None);
    assert_eq!(HashType::default(), HashType::Account);
}

#[test]
fn header_extensions_carry_payload_length() {
    let req = AscPullReq::new_test_instance_blocks();
    let ext = req.header_extensions(44);
    assert_eq!(ext.data(), 35);
    assert_eq!(AscPullReq::serialized_size(ext), 44);
    assert_eq!(AscPullReq::serialized_size(HeaderExtensions::new(100)), 109);
}

#[test]
fn request_descriptions() {
    let req = AscPullReq {
        id: 7,
        req_type: AscPullReqType::Blocks(BlocksReqPayload {
            start: Bytes32::from_u64(3),
            count: 111,
            start_type: HashType::Block,
        }),
    };
    let hex3 = format!("{}3", "0".repeat(63));
    assert_eq!(
        req.to_display_string(),
        format!("\nacc:{} max block count:111 hash type: 1", hex3)
    );
    let req = AscPullReq {
        id: 7,
        req_type: AscPullReqType::AccountInfo(AccountInfoReqPayload {
            target: Bytes32 { w0: 0xABCD, w1: 0, w2: 0, w3: 0x7B },
            target_type: HashType::Account,
        }),
    };
    let hex = format!("{}ABCD{}7B", "0".repeat(12), "0".repeat(46));
    assert_eq!(req.to_display_string(), format!("\ntarget:{} hash type:0", hex));
    let req = AscPullReq {
        id: 7,
        req_type: AscPullReqType::Frontiers(FrontiersReqPayload {
            start: Bytes32::from_u64(42),
            count: 1000,
        }),
    };
    let hex = format!("{}2A", "0".repeat(62));
    assert_eq!(req.to_display_string(), format!("\nstart:{} count:1000", hex));
}
