use nano_snapshots::primitives::{Bytes32, Frontier};

#[test]
fn hex_of_256_bit_values() {
    assert_eq!(Bytes32::from_u64(0).encode_hex(), "0".repeat(64));
    let v = Bytes32 { w0: 0x0123456789ABCDEF, w1: 0, w2: 0xFF, w3: 10 };
    assert_eq!(
        v.encode_hex(),
        "0123456789ABCDEF000000000000000000000000000000FF000000000000000A"
    );
}

#[test]
fn order_of_256_bit_values() {
    let small = Bytes32 { w0: 0, w1: u64::MAX, w2: u64::MAX, w3: u64::MAX };
    let big = Bytes32 { w0: 1, w1: 0, w2: 0, w3: 0 };
    assert!(small.le(&big));
    assert!(!big.le(&small));
    assert!(big.le(&big));
}

#[test]
fn terminator_frontier_is_all_zero() {
    assert!(Frontier::terminator().is_terminator());
    assert_eq!(Frontier::terminator(), Frontier::default());
    assert!(!Frontier::new(Bytes32::from_u64(1), Bytes32::zero()).is_terminator());
}
