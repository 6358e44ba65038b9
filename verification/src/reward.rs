//! Proposer-performance-weighted reward calculator.
//!
//! A validator that made at least one successful block proposal in the
//! epoch earns the fixed per-epoch budget scaled by its success rate,
//! with floor division; a validator that proposed nothing earns zero.

use vstd::prelude::*;

verus! {

use vstd::arithmetic::div_mod::{
    lemma_div_is_ordered,
    lemma_div_multiples_vanish,
    lemma_div_pos_is_pos,
    lemma_fundamental_div_mod,
};

/// Per-epoch proposal counters for one validator slot, keyed by the
/// validator's proposer index.  Reset to empty at every epoch boundary.
#[derive(Clone, Copy, Debug, PartialEq, Eq, Structural)]
pub struct ProposalRecord {
    pub successful_proposals: u32,
    pub failed_proposals: u32,
}

impl ProposalRecord {
    /// The record of a validator that never proposed.
    pub fn zero() -> (r: ProposalRecord)
        ensures
            r == (ProposalRecord { successful_proposals: 0, failed_proposals: 0 }),
    {
        ProposalRecord { successful_proposals: 0, failed_proposals: 0 }
    }
}

/// The coin amount owed for one record out of a per-epoch budget:
/// zero without a successful proposal, otherwise
/// `budget * successful / (successful + failed)`, floored.
pub open spec fn reward_spec(successful: u32, failed: u32, budget: u64) -> int {
    if successful == 0 {
        0
    } else {
        (budget * successful) / (successful + failed)
    }
}

/// Computes the reward owed for `record` out of `rewards_per_epoch`.
/// The intermediate product is carried in 128 bits, so no overflow is
/// possible for any inputs.
pub fn reward(record: &ProposalRecord, rewards_per_epoch: u64) -> (r: u64)
    ensures
        r == reward_spec(
            record.successful_proposals,
            record.failed_proposals,
            rewards_per_epoch,
        ),
        r <= rewards_per_epoch,
{
    if record.successful_proposals == 0 {
        0
    } else {
        let s = record.successful_proposals as u128;
        let f = record.failed_proposals as u128;
        let b = rewards_per_epoch as u128;
        proof {
            assert(b * s <= 0xffff_ffff_ffff_ffffu128 * 0xffff_ffffu128) by (nonlinear_arith)
                requires
                    b <= 0xffff_ffff_ffff_ffffu128,
                    s <= 0xffff_ffffu128,
            ;
        }
        let num = b * s;
        let q = num / (s + f);
        proof {
            lemma_reward_quotient_le_budget(b as int, s as int, f as int);
        }
        q as u64
    }
}

/// The success-rate quotient never exceeds the whole budget.
proof fn lemma_reward_quotient_le_budget(b: int, s: int, f: int)
    requires
        b >= 0,
        s >= 1,
        f >= 0,
    ensures
        (b * s) / (s + f) <= b,
{
    assert(b * s <= b * (s + f)) by (nonlinear_arith)
        requires
            b >= 0,
            s >= 1,
            f >= 0,
    ;
    lemma_div_is_ordered(b * s, b * (s + f), s + f);
    lemma_div_multiples_vanish(b, s + f);
}

/// The reward is zero exactly when nothing was proposed successfully,
/// and for a fixed failure count it is non-decreasing in the number of
/// successful proposals.
pub proof fn lemma_reward_monotonic(s1: u32, s2: u32, f: u32, budget: u64)
    requires
        s1 <= s2,
    ensures
        reward_spec(s1, f, budget) <= reward_spec(s2, f, budget),
        reward_spec(0, f, budget) == 0,
{
    if s1 == 0 {
        if s2 != 0 {
            let a2 = (budget as int) * (s2 as int);
            let d2 = (s2 as int) + (f as int);
            assert(a2 >= 0) by (nonlinear_arith)
                requires
                    a2 == (budget as int) * (s2 as int),
                    budget >= 0,
                    s2 >= 0,
            ;
            lemma_div_pos_is_pos(a2, d2);
        }
    } else {
        let a1 = (budget as int) * (s1 as int);
        let d1 = (s1 as int) + (f as int);
        let a2 = (budget as int) * (s2 as int);
        let d2 = (s2 as int) + (f as int);
        let q1 = a1 / d1;
        assert(a1 >= 0) by (nonlinear_arith)
            requires
                a1 == (budget as int) * (s1 as int),
                budget >= 0,
                s1 >= 0,
        ;
        lemma_fundamental_div_mod(a1, d1);
        lemma_div_pos_is_pos(a1, d1);
        assert(q1 * d1 <= a1);
        // Cross-multiplied comparison of the two success rates.
        assert(a1 * d2 <= a2 * d1) by (nonlinear_arith)
            requires
                a1 == (budget as int) * (s1 as int),
                a2 == (budget as int) * (s2 as int),
                d1 == (s1 as int) + (f as int),
                d2 == (s2 as int) + (f as int),
                budget >= 0,
                f >= 0,
                0 < s1 <= s2,
        ;
        assert(q1 * d2 <= a2) by (nonlinear_arith)
            requires
                q1 * d1 <= a1,
                a1 * d2 <= a2 * d1,
                d1 >= 1,
                d2 >= 1,
                q1 >= 0,
        ;
        lemma_div_multiples_vanish(q1, d2);
        lemma_div_is_ordered(q1 * d2, a2, d2);
    }
}

} // verus!
