//! The scalar-canonicity check native.
//!
//! A byte string canonically encodes a Ristretto scalar exactly when
//! it is 32 bytes long and its little-endian value lies below the
//! group order.  The gas charged is the base cost, plus the
//! deserialization cost once the length check passes.

use vstd::prelude::*;

verus! {

/// Gas constants of the scalar-canonicity native.
#[derive(Debug, Clone, Copy, PartialEq, Eq, Structural)]
pub struct Ristretto255ScalarIsCanonicalGasParameters {
    pub base_cost: u64,
    pub per_point_deserialize_cost: u64,
}

/// Gas constants of every native in this module.
#[derive(Debug, Clone, Copy, PartialEq, Eq, Structural)]
pub struct GasParameters {
    pub is_canonical: Ristretto255ScalarIsCanonicalGasParameters,
}

/// The value of a byte string read as a little-endian integer.
pub open spec fn le_bytes_value(b: Seq<u8>) -> int
    decreases b.len(),
{
    if b.len() == 0 {
        0
    } else {
        b[0] + 256 * le_bytes_value(b.drop_first())
    }
}

/// The order of the Ristretto group's scalar field.
pub open spec fn scalar_field_order() -> int {
    7237005577332262213973186563042994240857116359379907606001950938285454250989int
}

/// Relies on curve25519_dalek::scalar::Scalar::from_canonical_bytes:
/// for 32 bytes it returns Some exactly when the high bit is clear and
/// the little-endian value is below the group order — together, when
/// the value is below the group order.
#[verifier::external_body]
fn scalar_from_canonical_bytes_is_some(bytes: &Vec<u8>) -> (r: bool)
    requires
        bytes@.len() == 32,
    ensures
        r == (le_bytes_value(bytes@) < scalar_field_order()),
{
    let arr: [u8; 32] = bytes.as_slice().try_into().unwrap();
    curve25519_dalek::scalar::Scalar::from_canonical_bytes(arr).is_some()
}

/// The computational core of the canonicity native: charges the base
/// cost, and for a 32-byte argument also the deserialization cost,
/// answering whether the bytes canonically encode a scalar.  Any other
/// length is rejected without the deserialization charge.
pub fn native_ristretto255_scalar_is_canonical(
    gas_params: &Ristretto255ScalarIsCanonicalGasParameters,
    bytes: &Vec<u8>,
) -> (res: (bool, u64))
    requires
        gas_params.base_cost + gas_params.per_point_deserialize_cost <= u64::MAX,
    ensures
        bytes@.len() != 32 ==> res == (false, gas_params.base_cost),
        bytes@.len() == 32 ==> res.1 == gas_params.base_cost
            + gas_params.per_point_deserialize_cost,
        bytes@.len() == 32 ==> res.0 == (le_bytes_value(bytes@) < scalar_field_order()),
{
    let cost = gas_params.base_cost;
    if bytes.len() != 32 {
        return (false, cost);
    }
    let cost = cost + gas_params.per_point_deserialize_cost;
    (scalar_from_canonical_bytes_is_some(bytes), cost)
}

} // verus!
