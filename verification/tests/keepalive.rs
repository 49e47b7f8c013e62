use nano_snapshots::codec::DeserializationError;
use nano_snapshots::keepalive::{Keepalive, PeerAddress};

fn assert_deserializable(original: &Keepalive) {
    let mut bytes = Vec::new();
    original.serialize(&mut bytes);
    assert_eq!(bytes.len(), Keepalive::SERIALIZED_SIZE);
    assert_eq!(Keepalive::deserialize(&bytes), Ok(*original));
}

#[test]
fn serialize_no_peers() {
    let keepalive = Keepalive::default();
    assert_deserializable(&keepalive);
}

#[test]
fn serialize_peers() {
    let mut keepalive = Keepalive::default();
    keepalive.peers[0] = PeerAddress { ip: 1, port: 10000 };
    assert_deserializable(&keepalive);
}

#[test]
fn peer_wire_bytes() {
    let mut keepalive = Keepalive::default();
    keepalive.peers[0] = PeerAddress { ip: 0x0102, port: 0x0304 };
    let mut bytes = Vec::new();
    keepalive.serialize(&mut bytes);
    let mut expected = vec![0u8; 14];
    expected.extend_from_slice(&[1, 2, 4, 3]);
    assert_eq!(&bytes[..18], &expected[..]);
    assert!(bytes[18..].iter().all(|b| *b == 0));
}

#[test]
fn keepalive_test_instance() {
    let k = Keepalive::new_test_instance();
    assert_eq!(k.peers[0].port, 1111);
    assert_eq!(k.peers[7].port, 8888);
    assert_eq!(
        k.peers[0].ip,
        u128::from_be_bytes([0, 0, 0, 0, 0, 0, 0xff, 0xff, 0, 1, 0, 2, 0, 3, 0, 4])
    );
    assert_eq!(k.peers[6].ip & 0xffff, 0x10);
    assert_deserializable(&k);
}

#[test]
fn short_keepalive_ends_too_early() {
    let bytes = vec![0u8; 143];
    assert_eq!(Keepalive::deserialize(&bytes), Err(DeserializationError::EndOfInput));
    let bytes = vec![0u8; 150];
    assert_eq!(Keepalive::deserialize(&bytes), Ok(Keepalive::default()));
}
