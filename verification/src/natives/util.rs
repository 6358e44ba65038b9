//! The from-bytes deserialization native: gas charging and outcome
//! selection.  Deserialization itself is the machine's own work; this
//! core fixes what is charged and which abort code a failed attempt
//! reports.

use vstd::prelude::*;

verus! {

/// Abort code reported when deserialization fails.
pub const EFROM_BYTES: u64 = 0x01_0001;

/// Gas constants of the from-bytes native: a flat base charge plus a
/// per-byte charge.
#[derive(Debug, Clone, Copy, PartialEq, Eq, Structural)]
pub struct FromBytesGasParameters {
    pub base_cost: u64,
    pub unit_cost: u64,
}

/// Gas constants of every native in this module.
#[derive(Debug, Clone, Copy, PartialEq, Eq, Structural)]
pub struct GasParameters {
    pub from_bytes: FromBytesGasParameters,
}

/// The gas charged and the abort code owed for one from-bytes call on
/// `num_bytes` bytes whose deserialization succeeded or not: the
/// charge is `base_cost + unit_cost * num_bytes` either way, and a
/// failed deserialization aborts with `EFROM_BYTES`.
pub fn native_from_bytes_outcome(
    gas_params: &FromBytesGasParameters,
    num_bytes: u64,
    deserialized: bool,
) -> (res: (u64, Option<u64>))
    requires
        gas_params.base_cost + gas_params.unit_cost * num_bytes <= u64::MAX,
    ensures
        res.0 == gas_params.base_cost + gas_params.unit_cost * num_bytes,
        res.1 == if deserialized {
            None::<u64>
        } else {
            Some(EFROM_BYTES)
        },
{
    let cost = gas_params.base_cost + gas_params.unit_cost * num_bytes;
    if deserialized {
        (cost, None)
    } else {
        (cost, Some(EFROM_BYTES))
    }
}

} // verus!
