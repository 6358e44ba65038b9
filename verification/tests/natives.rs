use staking::natives::ristretto255::{
    native_ristretto255_scalar_is_canonical, Ristretto255ScalarIsCanonicalGasParameters,
};
use staking::natives::util::{native_from_bytes_outcome, FromBytesGasParameters, EFROM_BYTES};

fn gas() -> Ristretto255ScalarIsCanonicalGasParameters {
    Ristretto255ScalarIsCanonicalGasParameters {
        base_cost: 10,
        per_point_deserialize_cost: 5,
    }
}

// The group order, little endian.
fn order_bytes() -> Vec<u8> {
    let mut b = vec![
        0xed, 0xd3, 0xf5, 0x5c, 0x1a, 0x63, 0x12, 0x58, 0xd6, 0x9c, 0xf7, 0xa2, 0xde, 0xf9, 0xde,
        0x14,
    ];
    b.extend_from_slice(&[0u8; 15]);
    b.push(0x10);
    b
}

#[test]
fn test_scalar_is_canonical_rejects_bad_length() {
    let (ok, cost) = native_ristretto255_scalar_is_canonical(&gas(), &vec![0u8; 31]);
    assert!(!ok);
    assert_eq!(cost, 10);
    let (ok, cost) = native_ristretto255_scalar_is_canonical(&gas(), &vec![0u8; 33]);
    assert!(!ok);
    assert_eq!(cost, 10);
}

#[test]
fn test_scalar_is_canonical_small_values() {
    // Zero and one are below the group order.
    let (ok, cost) = native_ristretto255_scalar_is_canonical(&gas(), &vec![0u8; 32]);
    assert!(ok);
    assert_eq!(cost, 15);
    let mut one = vec![0u8; 32];
    one[0] = 1;
    let (ok, _) = native_ristretto255_scalar_is_canonical(&gas(), &one);
    assert!(ok);
}

#[test]
fn test_scalar_is_canonical_at_group_order() {
    // The group order itself is not canonical; the value one below it
    // is the largest canonical scalar.
    let order = order_bytes();
    let (ok, cost) = native_ristretto255_scalar_is_canonical(&gas(), &order);
    assert!(!ok);
    assert_eq!(cost, 15);

    let mut below = order_bytes();
    below[0] = 0xec;
    let (ok, _) = native_ristretto255_scalar_is_canonical(&gas(), &below);
    assert!(ok);

    // A high bit forces the value far above the order.
    let mut high = vec![0u8; 32];
    high[31] = 0x80;
    let (ok, _) = native_ristretto255_scalar_is_canonical(&gas(), &high);
    assert!(!ok);
}

#[test]
fn test_from_bytes_outcome() {
    let gas = FromBytesGasParameters {
        base_cost: 7,
        unit_cost: 3,
    };
    assert_eq!(native_from_bytes_outcome(&gas, 5, true), (22, None));
    assert_eq!(
        native_from_bytes_outcome(&gas, 5, false),
        (22, Some(EFROM_BYTES))
    );
    assert_eq!(EFROM_BYTES, 0x01_0001);
}
