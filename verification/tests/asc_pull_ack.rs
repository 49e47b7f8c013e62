use std::collections::VecDeque;

use nano_snapshots::asc_pull_ack::{
    AccountInfoAckPayload, AscPullAck, AscPullAckType, BlocksAckPayload,
};
use nano_snapshots::asc_pull_req::{AscPullPayloadId, PullDetail};
use nano_snapshots::blocks::{Block, BlockType};
use nano_snapshots::codec::DeserializationError;
use nano_snapshots::primitives::{Bytes32, Frontier};

fn state_block(seed: u8) -> Block {
    let body: Vec<u8> = (0..216).map(|i| (i as u8).wrapping_add(seed)).collect();
    Block::new(BlockType::State, body)
}

fn assert_deserializable(original: &AscPullAck) {
    let mut bytes = Vec::new();
    original.serialize(&mut bytes);
    let deserialized = AscPullAck::deserialize(&bytes).unwrap();
    assert_eq!(&deserialized, original);
}

#[test]
fn asc_pull_ack_serialize_blocks() {
    let original = AscPullAck {
        id: 7,
        pull_type: AscPullAckType::Blocks(BlocksAckPayload::new(VecDeque::from([
            state_block(1),
            state_block(2),
        ]))),
    };
    assert_deserializable(&original);
}

#[test]
fn asc_pull_ack_serialize_account_info() {
    let original = AscPullAck {
        id: 7,
        pull_type: AscPullAckType::AccountInfo(AccountInfoAckPayload {
            account: Bytes32::from_u64(1),
            account_open: Bytes32::from_u64(2),
            account_head: Bytes32::from_u64(3),
            account_block_count: 4,
            account_conf_frontier: Bytes32::from_u64(5),
            account_conf_height: 6,
        }),
    };
    assert_deserializable(&original);
}

#[test]
fn asc_pull_ack_serialize_frontiers() {
    let original = AscPullAck {
        id: 7,
        pull_type: AscPullAckType::Frontiers(vec![Frontier::new(
            Bytes32::from_u64(1),
            Bytes32::from_u64(2),
        )]),
    };
    assert_deserializable(&original);
}

#[test]
fn blocks_of_every_type_round_trip() {
    let blocks = VecDeque::from([
        Block::new(BlockType::LegacySend, vec![1; 152]),
        Block::new(BlockType::LegacyReceive, vec![2; 136]),
        Block::new(BlockType::LegacyOpen, vec![3; 168]),
        Block::new(BlockType::LegacyChange, vec![4; 136]),
        Block::new(BlockType::State, vec![5; 216]),
    ]);
    let original = AscPullAck {
        id: 99,
        pull_type: AscPullAckType::Blocks(BlocksAckPayload::new(blocks)),
    };
    let mut bytes = Vec::new();
    original.serialize(&mut bytes);
    assert_eq!(bytes.len(), 1 + 8 + 5 + 152 + 136 + 168 + 136 + 216 + 1);
    assert_eq!(bytes[9], 2);
    assert_eq!(*bytes.last().unwrap(), 1);
    assert_eq!(AscPullAck::deserialize(&bytes), Ok(original));
}

#[test]
fn blocks_payload_may_end_without_terminator() {
    let mut bytes = vec![1u8, 0, 0, 0, 0, 0, 0, 0, 7, 6];
    bytes.extend_from_slice(&[9u8; 216]);
    let ack = AscPullAck::deserialize(&bytes).unwrap();
    match ack.pull_type {
        AscPullAckType::Blocks(p) => {
            assert_eq!(p.blocks().len(), 1);
            assert_eq!(p.blocks()[0].block_type(), BlockType::State);
            assert_eq!(p.blocks()[0].body(), &[9u8; 216][..]);
        }
        _ => panic!("expected blocks"),
    }
}

#[test]
fn invalid_block_type_is_invalid_data() {
    let bytes = vec![1u8, 0, 0, 0, 0, 0, 0, 0, 7, 0];
    assert_eq!(AscPullAck::deserialize(&bytes), Err(DeserializationError::InvalidData));
    let bytes = vec![1u8, 0, 0, 0, 0, 0, 0, 0, 7, 7];
    assert_eq!(AscPullAck::deserialize(&bytes), Err(DeserializationError::InvalidData));
}

#[test]
fn truncated_block_ends_too_early() {
    let mut bytes = vec![1u8, 0, 0, 0, 0, 0, 0, 0, 7, 5];
    bytes.extend_from_slice(&[0u8; 100]);
    assert_eq!(AscPullAck::deserialize(&bytes), Err(DeserializationError::EndOfInput));
}

#[test]
fn more_than_128_blocks_is_too_much_data() {
    let mut bytes = vec![1u8, 0, 0, 0, 0, 0, 0, 0, 7];
    for _ in 0..128 {
        bytes.push(5);
        bytes.extend_from_slice(&[0u8; 136]);
    }
    let mut ok = bytes.clone();
    ok.push(1);
    match AscPullAck::deserialize(&ok).unwrap().pull_type {
        AscPullAckType::Blocks(p) => assert_eq!(p.take_blocks().len(), 128),
        _ => panic!("expected blocks"),
    }
    bytes.push(5);
    bytes.extend_from_slice(&[0u8; 136]);
    assert_eq!(AscPullAck::deserialize(&bytes), Err(DeserializationError::TooMuchData));
}

#[test]
fn blocks_payload_accessors() {
    assert_eq!(BlocksAckPayload::empty().blocks().len(), 0);
    let p = BlocksAckPayload::new_test_instance();
    assert_eq!(p.blocks().len(), 1);
    assert_eq!(p.blocks()[0].block_type(), BlockType::State);
    assert_eq!(BlocksAckPayload::MAX_BLOCKS, 128);
    let mut bytes = Vec::new();
    BlocksAckPayload::empty().serialize(&mut bytes);
    assert_eq!(bytes, vec![1]);
}

#[test]
fn account_info_wire_bytes() {
    let info = AccountInfoAckPayload::new_test_instance();
    let mut bytes = Vec::new();
    info.serialize(&mut bytes);
    assert_eq!(bytes.len(), 32 * 4 + 8 * 2);
    assert_eq!(bytes[31], 1);
    assert_eq!(bytes[63], 2);
    assert_eq!(bytes[95], 3);
    assert_eq!(&bytes[96..104], &[0, 0, 0, 0, 0, 0, 0, 4]);
    assert_eq!(bytes[135], 5);
    assert_eq!(&bytes[136..144], &[0, 0, 0, 0, 0, 0, 0, 3]);
    let (decoded, end) = AccountInfoAckPayload::deserialize(&bytes, 0).unwrap();
    assert_eq!(decoded, info);
    assert_eq!(end, 144);
}

#[test]
fn frontiers_end_at_zero_frontier() {
    let ack = AscPullAck {
        id: 1,
        pull_type: AscPullAckType::Frontiers(vec![
            Frontier::new(Bytes32::from_u64(1), Bytes32::from_u64(2)),
            Frontier::new(Bytes32::from_u64(3), Bytes32::from_u64(4)),
        ]),
    };
    let mut bytes = Vec::new();
    ack.serialize(&mut bytes);
    assert_eq!(bytes.len(), 1 + 8 + 3 * 64);
    assert!(bytes[bytes.len() - 64..].iter().all(|b| *b == 0));
    bytes.extend_from_slice(&[7u8; 64]);
    assert_eq!(AscPullAck::deserialize(&bytes), Ok(ack));
}

#[test]
fn frontiers_without_terminator_end_too_early() {
    let mut bytes = vec![3u8, 0, 0, 0, 0, 0, 0, 0, 1];
    bytes.extend_from_slice(&[1u8; 64]);
    assert_eq!(AscPullAck::deserialize(&bytes), Err(DeserializationError::EndOfInput));
}

#[test]
fn at_most_1000_frontiers_are_read() {
    let mut bytes = vec![3u8, 0, 0, 0, 0, 0, 0, 0, 1];
    for _ in 0..1001 {
        bytes.extend_from_slice(&[1u8; 64]);
    }
    match AscPullAck::deserialize(&bytes).unwrap().pull_type {
        AscPullAckType::Frontiers(fs) => assert_eq!(fs.len(), AscPullAck::MAX_FRONTIERS),
        _ => panic!("expected frontiers"),
    }
}

#[test]
fn ack_test_instances() {
    let a = AscPullAck::new_test_instance_blocks();
    assert_eq!(a.id, 12345);
    assert_eq!(a.payload_type(), AscPullPayloadId::Blocks);
    assert_eq!(a.detail_type(), PullDetail::Blocks);
    let b = AscPullAck::new_test_instance_account();
    assert_eq!(b.payload_type(), AscPullPayloadId::AccountInfo);
    assert_eq!(
        b.pull_type,
        AscPullAckType::AccountInfo(AccountInfoAckPayload::new_test_instance())
    );
    assert_deserializable(&a);
    assert_deserializable(&b);
}

#[test]
fn ack_header_extensions() {
    let a = AscPullAck::new_test_instance_account();
    let ext = a.header_extensions(153);
    assert_eq!(ext.data(), 144);
    assert_eq!(AscPullAck::serialized_size(ext), 153);
}

#[test]
fn ack_unknown_pull_type_is_invalid() {
    let bytes = vec![9u8, 0, 0, 0, 0, 0, 0, 0, 1];
    assert_eq!(AscPullAck::deserialize(&bytes), Err(DeserializationError::InvalidData));
    assert_eq!(AscPullAck::deserialize(&[2u8, 0, 0]), Err(DeserializationError::EndOfInput));
}

#[test]
fn largest_payloads_fit_the_header_extensions() {
    let blocks: VecDeque<Block> = (0..128).map(|i| state_block(i as u8)).collect();
    let mut bytes = Vec::new();
    BlocksAckPayload::new(blocks).serialize(&mut bytes);
    assert!(bytes.len() <= u16::MAX as usize);
    let frontiers: Vec<Frontier> = (1..=1000u64)
        .map(|i| Frontier::new(Bytes32::from_u64(i), Bytes32::from_u64(i)))
        .collect();
    let ack = AscPullAck { id: 1, pull_type: AscPullAckType::Frontiers(frontiers) };
    let mut bytes = Vec::new();
    ack.serialize(&mut bytes);
    assert_eq!(bytes.len() - 9, 1001 * 64);
    assert!(bytes.len() - 9 <= u16::MAX as usize);
    assert_eq!(AscPullAck::deserialize(&bytes), Ok(ack));
}

#[test]
fn account_info_description() {
    let info = AccountInfoAckPayload::new_test_instance();
    let hex = |v: u64| format!("{}{:X}", "0".repeat(63), v);
    assert_eq!(
        info.to_display_string("nano_1"),
        format!(
            "\naccount public key:nano_1 account open:{} account head:{} block count:4 confirmation frontier:{} confirmation height:3",
            hex(2),
            hex(3),
            hex(5)
        )
    );
}

#[test]
fn blocks_test_instance_is_one_zero_state_block() {
    let p = BlocksAckPayload::new_test_instance();
    assert_eq!(p.blocks()[0].body(), &[0u8; 216][..]);
    assert_eq!(p.blocks()[0].block_type(), BlockType::State);
}

#[test]
fn reply_descriptions_by_type() {
    let blocks = AscPullAck::new_test_instance_blocks();
    let texts = vec!["{a}".to_string(), "{b}".to_string()];
    assert_eq!(blocks.to_display_string("unused", &texts), "{a}{b}");
    let info = AscPullAck::new_test_instance_account();
    match &info.pull_type {
        AscPullAckType::AccountInfo(p) => {
            assert_eq!(info.to_display_string("nano_x", &vec![]), p.to_display_string("nano_x"))
        }
        _ => panic!("expected account info"),
    }
    let frontiers = AscPullAck { id: 1, pull_type: AscPullAckType::Frontiers(vec![]) };
    assert_eq!(frontiers.to_display_string("nano_x", &texts), "");
}

#[test]
fn more_than_1000_frontiers_are_written_but_1000_read() {
    let frontiers: Vec<Frontier> = (1..=1001u64)
        .map(|i| Frontier::new(Bytes32::from_u64(i), Bytes32::from_u64(i)))
        .collect();
    let ack = AscPullAck { id: 1, pull_type: AscPullAckType::Frontiers(frontiers) };
    let mut bytes = Vec::new();
    ack.serialize(&mut bytes);
    assert_eq!(bytes.len(), 9 + 1002 * 64);
    match AscPullAck::deserialize(&bytes).unwrap().pull_type {
        AscPullAckType::Frontiers(fs) => assert_eq!(fs.len(), 1000),
        _ => panic!("expected frontiers"),
    }
}
