//! Validator staking and rewards engine.
//!
//! Per validator owner the engine keeps a balance state machine
//! (active / inactive / pending stake), a lockup timer that enforces a
//! minimum commitment window, and an epoch-boundary procedure that pays
//! proposer-performance-weighted rewards and commits validator-set
//! membership changes.  Every node must reproduce the epoch boundary
//! bit for bit, so each transition is specified exactly.

use vstd::prelude::*;

pub mod engine;
pub mod natives;
pub mod pool;
pub mod reward;
pub mod telemetry;
pub mod tracker;
pub mod validator_set;

verus! {

/// Typed failures surfaced by the stake operation entry points.
/// Every failing operation is all-or-nothing: no state mutation is
/// committed when one of these is returned.
#[derive(Clone, Copy, Debug, PartialEq, Eq, Structural)]
pub enum StakeError {
    /// A stake pool already exists for the owner.
    AlreadyExists,
    /// The owner is already queued to join the validator set, or queued
    /// to leave it.
    AlreadyPending,
    /// The owner is already an active validator.
    AlreadyActive,
    /// The owner is not an active validator.
    NotActive,
    /// The caller is not the operator of the pool.
    NotOperator,
    /// The requested amount exceeds the pool's active stake.
    InsufficientActiveBalance,
    /// A zero amount was supplied where a positive one is needed.
    InvalidAmount,
    /// The pool's active stake is below the configured join threshold.
    StakeBelowMinimum,
}

} // verus!
