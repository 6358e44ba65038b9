//! The staking engine: per-owner stake pools, the validator set
//! registry, the per-epoch proposal tracker and the epoch transition
//! orchestrator, behind the mutating stake operation entry points.
//!
//! All state is explicit: the engine is a value that the surrounding
//! transaction layer threads through every call, so epoch transitions
//! are replayable and every node computes the identical result.

use vstd::prelude::*;
use vstd::std_specs::vec::vec_index_mut;
use crate::StakeError;
use crate::pool::{pool_after_epoch, StakePool};
use crate::reward::{reward, reward_spec};
use crate::tracker::{
    failure_headroom, has_key, index_of_key, keys_distinct, lemma_index_of_key,
    record_proposal_spec, success_headroom, ProposalTracker, TrackerEntry,
};
use crate::validator_set::{
    addrs_disjoint, addrs_distinct, contains_addr, contains_addr_exec, index_of_addr,
    lemma_index_of_addr, position_of_addr, ValidatorInfo, ValidatorSet,
};

verus! {

/// Protocol constants consumed, not owned, by the engine.
#[derive(Clone, Copy, PartialEq, Eq, Structural)]
pub struct StakingConfig {
    /// Fixed reward budget paid out per epoch and proposer slot.
    pub rewards_per_epoch: u64,
    /// Length of the lockup window granted at each renewal.
    pub lockup_duration_secs: u64,
    /// Least active stake with which a pool may join the validator set.
    pub minimum_stake: u64,
}

/// One owner's persisted record: the pool and the consensus key that
/// takes effect at the next epoch boundary.
pub struct PoolEntry {
    /// The owner address the record is keyed by.
    pub owner: u64,
    /// The owner's balance state machine.
    pub pool: StakePool,
    /// Key snapshotted into the validator set at each epoch boundary;
    /// rotations change it here first.
    pub consensus_public_key: Vec<u8>,
}

/// No two pool records share an owner.
pub open spec fn owners_distinct(s: Seq<PoolEntry>) -> bool {
    forall|i: int, j: int|
        #![trigger s[i], s[j]]
        0 <= i < j < s.len() ==> s[i].owner != s[j].owner
}

/// Whether some record is keyed by this owner.
pub open spec fn has_owner(s: Seq<PoolEntry>, owner: u64) -> bool {
    exists|i: int| 0 <= i < s.len() && (#[trigger] s[i]).owner == owner
}

/// The position of the record keyed by this owner; meaningful only
/// when `has_owner` holds and owners are distinct.
pub open spec fn index_of_owner(s: Seq<PoolEntry>, owner: u64) -> int {
    choose|i: int| 0 <= i < s.len() && (#[trigger] s[i]).owner == owner
}

/// With distinct owners, any position holding `owner` is the position
/// `index_of_owner` picks.
pub proof fn lemma_index_of_owner(s: Seq<PoolEntry>, owner: u64, i: int)
    requires
        owners_distinct(s),
        0 <= i < s.len(),
        s[i].owner == owner,
    ensures
        has_owner(s, owner),
        index_of_owner(s, owner) == i,
{
    assert(has_owner(s, owner));
    let j = index_of_owner(s, owner);
    assert(0 <= j < s.len() && s[j].owner == owner);
    if i != j {
        assert(s[i].owner != s[j].owner);
    }
}

/// The whole engine state.
pub struct StakingState {
    /// Protocol constants.
    pub config: StakingConfig,
    /// One record per owner that ever initialized a pool.
    pub pools: Vec<PoolEntry>,
    /// The singleton validator set registry.
    pub validator_set: ValidatorSet,
    /// The current epoch's proposal performance tracker.
    pub tracker: ProposalTracker,
}

impl StakingState {
    /// Whether a pool exists for this owner.
    pub open spec fn has_pool_spec(self, owner: u64) -> bool {
        has_owner(self.pools@, owner)
    }

    /// The pool record keyed by this owner.
    pub open spec fn pool_entry_spec(self, owner: u64) -> PoolEntry {
        self.pools@[index_of_owner(self.pools@, owner)]
    }

    /// The pool keyed by this owner.
    pub open spec fn pool_spec(self, owner: u64) -> StakePool {
        self.pool_entry_spec(owner).pool
    }

    /// Every member of a registry collection has a pool record.
    pub open spec fn members_have_pools(self) -> bool {
        &&& forall|i: int|
            0 <= i < self.validator_set.active_validators@.len() ==> self.has_pool_spec(
                (#[trigger] self.validator_set.active_validators@[i]).account_address,
            )
        &&& forall|i: int|
            0 <= i < self.validator_set.pending_active@.len() ==> self.has_pool_spec(
                (#[trigger] self.validator_set.pending_active@[i]).account_address,
            )
        &&& forall|i: int|
            0 <= i < self.validator_set.pending_inactive@.len() ==> self.has_pool_spec(
                (#[trigger] self.validator_set.pending_inactive@[i]).account_address,
            )
    }

    /// The engine invariant: pool records are uniquely keyed and hold
    /// `u64`-bounded totals, membership is exclusive, every member has
    /// a pool, and tracker keys are unique.
    pub open spec fn wf(self) -> bool {
        &&& owners_distinct(self.pools@)
        &&& (forall|i: int| 0 <= i < self.pools@.len() ==> (#[trigger] self.pools@[i]).pool.wf())
        &&& self.validator_set.membership_exclusive()
        &&& self.members_have_pools()
        &&& self.tracker.wf()
    }

    /// A fresh engine with no pools, an empty registry and an empty
    /// tracker.
    pub fn new(config: StakingConfig) -> (s: StakingState)
        ensures
            s.config == config,
            s.pools@ == Seq::<PoolEntry>::empty(),
            s.validator_set.active_validators@ == Seq::<ValidatorInfo>::empty(),
            s.validator_set.pending_active@ == Seq::<ValidatorInfo>::empty(),
            s.validator_set.pending_inactive@ == Seq::<ValidatorInfo>::empty(),
            s.tracker.records@ == Seq::<TrackerEntry>::empty(),
            s.wf(),
    {
        StakingState {
            config,
            pools: Vec::new(),
            validator_set: ValidatorSet::new(),
            tracker: ProposalTracker::new(),
        }
    }

    /// The position of the pool record for `owner`, if there is one.
    fn find_pool(&self, owner: u64) -> (r: Option<usize>)
        requires
            owners_distinct(self.pools@),
        ensures
            match r {
                Some(i) => i < self.pools@.len() && self.pools@[i as int].owner == owner
                    && index_of_owner(self.pools@, owner) == i && self.has_pool_spec(owner),
                None => !self.has_pool_spec(owner),
            },
    {
        let n = self.pools.len();
        let mut i: usize = 0;
        while i < n
            invariant
                owners_distinct(self.pools@),
                n == self.pools@.len(),
                i <= n,
                forall|j: int| 0 <= j < i ==> (#[trigger] self.pools@[j]).owner != owner,
            decreases n - i,
        {
            if self.pools[i].owner == owner {
                proof {
                    lemma_index_of_owner(self.pools@, owner, i as int);
                }
                return Some(i);
            }
            i = i + 1;
        }
        None
    }

    /// Whether a pool exists for this owner.
    pub fn has_pool(&self, owner: u64) -> (r: bool)
        requires
            self.wf(),
        ensures
            r == self.has_pool_spec(owner),
    {
        self.find_pool(owner).is_some()
    }

    /// Read-only snapshot of the owner's pool, if one exists.
    pub fn get_stake_pool(&self, owner: u64) -> (r: Option<StakePool>)
        requires
            self.wf(),
        ensures
            r == if self.has_pool_spec(owner) {
                Some(self.pool_spec(owner))
            } else {
                None::<StakePool>
            },
    {
        match self.find_pool(owner) {
            Some(i) => Some(self.pools[i].pool),
            None => None,
        }
    }

    /// Read-only view of the validator set registry.
    pub fn get_validator_set(&self) -> (r: &ValidatorSet)
        ensures
            r == &self.validator_set,
    {
        &self.validator_set
    }

    /// Creates the owner's stake pool.  Fails when one already exists;
    /// the new pool starts empty with an expired lockup and an empty
    /// consensus key.
    pub fn initialize_stake(&mut self, owner: u64, operator: u64, delegated_voter: u64) -> (r:
        Result<(), StakeError>)
        requires
            old(self).wf(),
        ensures
            final(self).wf(),
            final(self).config == old(self).config,
            final(self).validator_set == old(self).validator_set,
            final(self).tracker == old(self).tracker,
            r == Ok::<(), StakeError>(()) <==> !old(self).has_pool_spec(owner),
            r != Ok::<(), StakeError>(()) ==> r == Err::<(), StakeError>(
                StakeError::AlreadyExists,
            ) && *final(self) == *old(self),
            r == Ok::<(), StakeError>(()) ==> {
                &&& final(self).pools@.len() == old(self).pools@.len() + 1
                &&& (forall|i: int|
                    0 <= i < old(self).pools@.len() ==> final(self).pools@[i] == old(
                        self,
                    ).pools@[i])
                &&& final(self).pools@.last().owner == owner
                &&& final(self).pools@.last().pool == (StakePool {
                    operator_address: operator,
                    delegated_voter,
                    active: 0,
                    inactive: 0,
                    pending_active: 0,
                    pending_inactive: 0,
                    locked_until_secs: 0,
                })
                &&& final(self).pools@.last().consensus_public_key@ == Seq::<u8>::empty()
                &&& final(self).has_pool_spec(owner)
                &&& final(self).pool_spec(owner) == final(self).pools@.last().pool
            },
    {
        if self.find_pool(owner).is_some() {
            return Err(StakeError::AlreadyExists);
        }
        let ghost pre = *self;
        let entry = PoolEntry {
            owner,
            pool: StakePool::new(operator, delegated_voter),
            consensus_public_key: Vec::new(),
        };
        self.pools.push(entry);
        proof {
            assert forall|i: int, j: int|
                #![trigger self.pools@[i], self.pools@[j]]
                0 <= i < j < self.pools@.len() implies self.pools@[i].owner
                != self.pools@[j].owner by {
                if j < pre.pools@.len() {
                    assert(pre.pools@[i].owner != pre.pools@[j].owner);
                } else {
                    assert(self.pools@[j].owner == owner);
                    assert(pre.pools@[i].owner != owner);
                }
            }
            lemma_members_have_pools_grown(pre, *self);
            lemma_index_of_owner(self.pools@, owner, self.pools@.len() - 1);
        }
        Ok(())
    }

    /// Adds coins to the owner's pool: to `pending_active` when the
    /// owner is an active validator this epoch, directly to `active`
    /// otherwise.  A zero amount is rejected.
    pub fn add_stake(&mut self, owner: u64, amount: u64) -> (r: Result<(), StakeError>)
        requires
            old(self).wf(),
            old(self).has_pool_spec(owner),
            old(self).pool_spec(owner).total() + amount <= u64::MAX,
        ensures
            final(self).wf(),
            final(self).config == old(self).config,
            final(self).validator_set == old(self).validator_set,
            final(self).tracker == old(self).tracker,
            r == Ok::<(), StakeError>(()) <==> amount != 0,
            amount == 0 ==> r == Err::<(), StakeError>(StakeError::InvalidAmount) && *final(self)
                == *old(self),
            amount != 0 ==> final(self).pool_spec(owner).total() == old(self).pool_spec(
                owner,
            ).total() + amount,
            amount != 0 ==> final(self).has_pool_spec(owner) && final(self).pool_spec(owner)
                == (if contains_addr(old(self).validator_set.active_validators@, owner) {
                StakePool {
                    pending_active: (old(self).pool_spec(owner).pending_active + amount) as u64,
                    ..old(self).pool_spec(owner)
                }
            } else {
                StakePool {
                    active: (old(self).pool_spec(owner).active + amount) as u64,
                    ..old(self).pool_spec(owner)
                }
            }),
            amount != 0 ==> final(self).pools@ == old(self).pools@.update(
                index_of_owner(old(self).pools@, owner),
                PoolEntry {
                    pool: if contains_addr(
                        old(self).validator_set.active_validators@,
                        owner,
                    ) {
                        StakePool {
                            pending_active: (old(self).pool_spec(owner).pending_active
                                + amount) as u64,
                            ..old(self).pool_spec(owner)
                        }
                    } else {
                        StakePool {
                            active: (old(self).pool_spec(owner).active + amount) as u64,
                            ..old(self).pool_spec(owner)
                        }
                    },
                    ..old(self).pool_entry_spec(owner)
                },
            ),
    {
        if amount == 0 {
            return Err(StakeError::InvalidAmount);
        }
        let ghost pre = *self;
        let to_pending = contains_addr_exec(&self.validator_set.active_validators, owner);
        let i = match self.find_pool(owner) {
            Some(i) => i,
            None => {
                proof {
                    assert(false);
                }
                0
            },
        };
        let entry = vec_index_mut(&mut self.pools, i);
        let mut p = entry.pool;
        p.deposit(amount, to_pending);
        entry.pool = p;
        proof {
            lemma_wf_after_pool_update(pre, *self);
            lemma_index_of_owner(self.pools@, owner, i as int);
        }
        Ok(())
    }

    /// Moves `amount` coins of the owner's pool from `active` to
    /// `pending_inactive`; they complete their unlock at the first
    /// epoch boundary past `locked_until_secs`.  Fails when `amount`
    /// exceeds the active balance.
    pub fn unlock_stake(&mut self, owner: u64, amount: u64) -> (r: Result<(), StakeError>)
        requires
            old(self).wf(),
            old(self).has_pool_spec(owner),
        ensures
            final(self).wf(),
            final(self).config == old(self).config,
            final(self).validator_set == old(self).validator_set,
            final(self).tracker == old(self).tracker,
            r == Ok::<(), StakeError>(()) <==> amount <= old(self).pool_spec(owner).active,
            amount > old(self).pool_spec(owner).active ==> r == Err::<(), StakeError>(
                StakeError::InsufficientActiveBalance,
            ) && *final(self) == *old(self),
            final(self).pool_spec(owner).total() == old(self).pool_spec(owner).total(),
            amount <= old(self).pool_spec(owner).active ==> final(self).has_pool_spec(owner)
                && final(self).pool_spec(owner) == (StakePool {
                active: (old(self).pool_spec(owner).active - amount) as u64,
                pending_inactive: (old(self).pool_spec(owner).pending_inactive + amount) as u64,
                ..old(self).pool_spec(owner)
            }),
            amount <= old(self).pool_spec(owner).active ==> final(self).pools@ == old(
                self,
            ).pools@.update(
                index_of_owner(old(self).pools@, owner),
                PoolEntry {
                    pool: StakePool {
                        active: (old(self).pool_spec(owner).active - amount) as u64,
                        pending_inactive: (old(self).pool_spec(owner).pending_inactive
                            + amount) as u64,
                        ..old(self).pool_spec(owner)
                    },
                    ..old(self).pool_entry_spec(owner)
                },
            ),
    {
        let ghost pre = *self;
        let i = match self.find_pool(owner) {
            Some(i) => i,
            None => {
                proof {
                    assert(false);
                }
                0
            },
        };
        if amount > self.pools[i].pool.active {
            return Err(StakeError::InsufficientActiveBalance);
        }
        let entry = vec_index_mut(&mut self.pools, i);
        let mut p = entry.pool;
        p.unlock_coins(amount);
        entry.pool = p;
        proof {
            lemma_wf_after_pool_update(pre, *self);
            lemma_index_of_owner(self.pools@, owner, i as int);
        }
        Ok(())
    }

    /// Withdraws up to `requested` coins from the owner's `inactive`
    /// balance and returns the amount actually transferred out.  An
    /// over-request is capped at the available balance and never
    /// fails.
    pub fn withdraw_stake(&mut self, owner: u64, requested: u64) -> (transferred: u64)
        requires
            old(self).wf(),
            old(self).has_pool_spec(owner),
        ensures
            final(self).wf(),
            final(self).config == old(self).config,
            final(self).validator_set == old(self).validator_set,
            final(self).tracker == old(self).tracker,
            transferred == if requested <= old(self).pool_spec(owner).inactive {
                requested as int
            } else {
                old(self).pool_spec(owner).inactive as int
            },
            requested > old(self).pool_spec(owner).inactive ==> final(self).pool_spec(
                owner,
            ).inactive == 0,
            final(self).pool_spec(owner).total() == old(self).pool_spec(owner).total()
                - transferred,
            final(self).has_pool_spec(owner) && final(self).pool_spec(owner) == (StakePool {
                inactive: (old(self).pool_spec(owner).inactive - transferred) as u64,
                ..old(self).pool_spec(owner)
            }),
            final(self).pools@ == old(self).pools@.update(
                index_of_owner(old(self).pools@, owner),
                PoolEntry {
                    pool: StakePool {
                        inactive: (old(self).pool_spec(owner).inactive - transferred) as u64,
                        ..old(self).pool_spec(owner)
                    },
                    ..old(self).pool_entry_spec(owner)
                },
            ),
    {
        let ghost pre = *self;
        let i = match self.find_pool(owner) {
            Some(i) => i,
            None => {
                proof {
                    assert(false);
                }
                0
            },
        };
        let entry = vec_index_mut(&mut self.pools, i);
        let mut p = entry.pool;
        let transferred = p.withdraw_coins(requested);
        entry.pool = p;
        proof {
            lemma_wf_after_pool_update(pre, *self);
            lemma_index_of_owner(self.pools@, owner, i as int);
        }
        transferred
    }

    /// Replaces the owner's consensus key; the new key is snapshotted
    /// into the validator set at the next epoch boundary.  Only the
    /// pool's operator may rotate the key.
    pub fn rotate_consensus_key(&mut self, caller: u64, owner: u64, new_key: Vec<u8>) -> (r:
        Result<(), StakeError>)
        requires
            old(self).wf(),
            old(self).has_pool_spec(owner),
        ensures
            final(self).wf(),
            final(self).config == old(self).config,
            final(self).validator_set == old(self).validator_set,
            final(self).tracker == old(self).tracker,
            r == Ok::<(), StakeError>(()) <==> caller == old(self).pool_spec(
                owner,
            ).operator_address,
            r != Ok::<(), StakeError>(()) ==> r == Err::<(), StakeError>(StakeError::NotOperator)
                && *final(self) == *old(self),
            r == Ok::<(), StakeError>(()) ==> final(self).pools@ == old(self).pools@.update(
                index_of_owner(old(self).pools@, owner),
                PoolEntry { consensus_public_key: new_key, ..old(self).pool_entry_spec(owner) },
            ),
            r == Ok::<(), StakeError>(()) ==> final(self).has_pool_spec(owner) && final(self).pool_entry_spec(owner).consensus_public_key == new_key && final(self).pool_spec(
                owner,
            ) == old(self).pool_spec(owner),
    {
        let ghost pre = *self;
        let i = match self.find_pool(owner) {
            Some(i) => i,
            None => {
                proof {
                    assert(false);
                }
                0
            },
        };
        if caller != self.pools[i].pool.operator_address {
            return Err(StakeError::NotOperator);
        }
        let entry = vec_index_mut(&mut self.pools, i);
        entry.consensus_public_key = new_key;
        proof {
            lemma_wf_after_pool_update(pre, *self);
            lemma_index_of_owner(self.pools@, owner, i as int);
        }
        Ok(())
    }
}

/// Pools that keep their length, keys and per-pool bounds, while the
/// registry and tracker stand, keep the whole invariant.
proof fn lemma_wf_after_pool_update(pre: StakingState, post: StakingState)
    requires
        pre.wf(),
        post.pools@.len() == pre.pools@.len(),
        forall|i: int|
            0 <= i < post.pools@.len() ==> (#[trigger] post.pools@[i]).owner
                == pre.pools@[i].owner,
        forall|i: int| 0 <= i < post.pools@.len() ==> (#[trigger] post.pools@[i]).pool.wf(),
        post.validator_set == pre.validator_set,
        post.tracker == pre.tracker,
    ensures
        post.wf(),
{
    assert forall|owner: u64| pre.has_pool_spec(owner) implies post.has_pool_spec(owner) by {
        let i = choose|i: int|
            0 <= i < pre.pools@.len() && (#[trigger] pre.pools@[i]).owner == owner;
        assert(post.pools@[i].owner == owner);
    }
}

/// A pool record added for a fresh owner keeps every member's pool in
/// place.
proof fn lemma_members_have_pools_grown(pre: StakingState, post: StakingState)
    requires
        pre.wf(),
        post.pools@.len() == pre.pools@.len() + 1,
        forall|i: int| 0 <= i < pre.pools@.len() ==> post.pools@[i] == pre.pools@[i],
        post.validator_set == pre.validator_set,
        post.tracker == pre.tracker,
        owners_distinct(post.pools@),
        post.pools@.last().pool.wf(),
    ensures
        post.wf(),
{
    assert forall|owner: u64| pre.has_pool_spec(owner) implies post.has_pool_spec(owner) by {
        let i = choose|i: int|
            0 <= i < pre.pools@.len() && (#[trigger] pre.pools@[i]).owner == owner;
        assert(post.pools@[i].owner == owner);
    }
    assert forall|i: int| 0 <= i < post.pools@.len() implies (
    #[trigger] post.pools@[i]).pool.wf() by {
        if i < pre.pools@.len() {
            assert(pre.pools@[i].pool.wf());
        }
    }
}

impl StakingState {
    /// Queues the owner's pool to join the validator set at the next
    /// epoch boundary.  The owner must not already be active or queued
    /// in either direction, and the pool's active stake must reach the
    /// configured minimum.  New joiners are queued in request order.
    pub fn join_validator_set(&mut self, owner: u64) -> (r: Result<(), StakeError>)
        requires
            old(self).wf(),
            old(self).has_pool_spec(owner),
        ensures
            final(self).wf(),
            final(self).config == old(self).config,
            final(self).pools == old(self).pools,
            final(self).tracker == old(self).tracker,
            final(self).validator_set.active_validators == old(
                self,
            ).validator_set.active_validators,
            final(self).validator_set.pending_inactive == old(self).validator_set.pending_inactive,
            r == Ok::<(), StakeError>(()) <==> {
                &&& !contains_addr(old(self).validator_set.active_validators@, owner)
                &&& !contains_addr(old(self).validator_set.pending_active@, owner)
                &&& !contains_addr(old(self).validator_set.pending_inactive@, owner)
                &&& old(self).pool_spec(owner).active >= old(self).config.minimum_stake
            },
            contains_addr(old(self).validator_set.active_validators@, owner) ==> r == Err::<
                (),
                StakeError,
            >(StakeError::AlreadyActive),
            !contains_addr(old(self).validator_set.active_validators@, owner) && (contains_addr(
                old(self).validator_set.pending_active@,
                owner,
            ) || contains_addr(old(self).validator_set.pending_inactive@, owner)) ==> r == Err::<
                (),
                StakeError,
            >(StakeError::AlreadyPending),
            !old(self).validator_set.is_member(owner) && old(self).pool_spec(owner).active < old(
                self,
            ).config.minimum_stake ==> r == Err::<(), StakeError>(StakeError::StakeBelowMinimum),
            r != Ok::<(), StakeError>(()) ==> *final(self) == *old(self),
            r == Ok::<(), StakeError>(()) ==> {
                &&& final(self).validator_set.pending_active@.len() == old(
                    self,
                ).validator_set.pending_active@.len() + 1
                &&& (forall|i: int|
                    0 <= i < old(self).validator_set.pending_active@.len() ==> final(self).validator_set.pending_active@[i] == old(self).validator_set.pending_active@[i])
                &&& final(self).validator_set.pending_active@.last().account_address == owner
                &&& final(self).validator_set.pending_active@.last().voting_power == old(
                    self,
                ).pool_spec(owner).active
                &&& final(self).validator_set.pending_active@.last().proposer_index == 0
                &&& final(self).validator_set.pending_active@.last().consensus_public_key@ == old(
                    self,
                ).pool_entry_spec(owner).consensus_public_key@
            },
    {
        if contains_addr_exec(&self.validator_set.active_validators, owner) {
            return Err(StakeError::AlreadyActive);
        }
        if contains_addr_exec(&self.validator_set.pending_active, owner) || contains_addr_exec(
            &self.validator_set.pending_inactive,
            owner,
        ) {
            return Err(StakeError::AlreadyPending);
        }
        let ghost pre = *self;
        let i = match self.find_pool(owner) {
            Some(i) => i,
            None => {
                proof {
                    assert(false);
                }
                0
            },
        };
        if self.pools[i].pool.active < self.config.minimum_stake {
            return Err(StakeError::StakeBelowMinimum);
        }
        let info = ValidatorInfo {
            account_address: owner,
            consensus_public_key: clone_bytes(&self.pools[i].consensus_public_key),
            voting_power: self.pools[i].pool.active,
            proposer_index: 0,
        };
        self.validator_set.pending_active.push(info);
        proof {
            let post_pa = self.validator_set.pending_active@;
            let pre_pa = pre.validator_set.pending_active@;
            assert forall|a: int, b: int|
                #![trigger post_pa[a], post_pa[b]]
                0 <= a < b < post_pa.len() implies post_pa[a].account_address
                != post_pa[b].account_address by {
                if b < pre_pa.len() {
                    assert(pre_pa[a].account_address != pre_pa[b].account_address);
                } else {
                    assert(post_pa[b].account_address == owner);
                }
            }
            assert(addrs_disjoint(self.validator_set.active_validators@, post_pa));
            assert(addrs_disjoint(post_pa, self.validator_set.pending_inactive@));
            assert forall|k: int|
                0 <= k < post_pa.len() implies self.has_pool_spec(
                (#[trigger] post_pa[k]).account_address,
            ) by {
                if k < pre_pa.len() {
                    assert(pre.has_pool_spec(pre_pa[k].account_address));
                }
            }
        }
        Ok(())
    }

    /// Queues an active validator to leave the set at the next epoch
    /// boundary.  The entry moves to `pending_inactive` at once, so it
    /// keeps earning proposal credit for the rest of the epoch, but its
    /// voting power is removed only by the boundary commit.
    pub fn leave_validator_set(&mut self, owner: u64) -> (r: Result<(), StakeError>)
        requires
            old(self).wf(),
        ensures
            final(self).wf(),
            final(self).config == old(self).config,
            final(self).pools == old(self).pools,
            final(self).tracker == old(self).tracker,
            final(self).validator_set.pending_active == old(self).validator_set.pending_active,
            r == Ok::<(), StakeError>(()) <==> contains_addr(
                old(self).validator_set.active_validators@,
                owner,
            ),
            r != Ok::<(), StakeError>(()) ==> r == Err::<(), StakeError>(StakeError::NotActive)
                && *final(self) == *old(self),
            r == Ok::<(), StakeError>(()) ==> {
                &&& final(self).validator_set.active_validators@ == old(
                    self,
                ).validator_set.active_validators@.remove(
                    index_of_addr(old(self).validator_set.active_validators@, owner),
                )
                &&& final(self).validator_set.pending_inactive@ == old(
                    self,
                ).validator_set.pending_inactive@.push(
                    old(self).validator_set.active_validators@[index_of_addr(
                        old(self).validator_set.active_validators@,
                        owner,
                    )],
                )
            },
    {
        let ghost pre = *self;
        let i = match position_of_addr(&self.validator_set.active_validators, owner) {
            Some(i) => i,
            None => {
                return Err(StakeError::NotActive);
            },
        };
        proof {
            lemma_index_of_addr(pre.validator_set.active_validators@, owner, i as int);
        }
        let info = self.validator_set.active_validators.remove(i);
        self.validator_set.pending_inactive.push(info);
        proof {
            let pre_act = pre.validator_set.active_validators@;
            let post_act = self.validator_set.active_validators@;
            let pre_pi = pre.validator_set.pending_inactive@;
            let post_pi = self.validator_set.pending_inactive@;
            assert forall|a: int, b: int|
                #![trigger post_act[a], post_act[b]]
                0 <= a < b < post_act.len() implies post_act[a].account_address
                != post_act[b].account_address by {
                let a0 = if a < i { a } else { a + 1 };
                let b0 = if b < i { b } else { b + 1 };
                assert(post_act[a] == pre_act[a0]);
                assert(post_act[b] == pre_act[b0]);
            }
            assert forall|a: int, b: int|
                #![trigger post_pi[a], post_pi[b]]
                0 <= a < b < post_pi.len() implies post_pi[a].account_address
                != post_pi[b].account_address by {
                if b < pre_pi.len() {
                    assert(pre_pi[a].account_address != pre_pi[b].account_address);
                } else {
                    assert(post_pi[b] == pre_act[i as int]);
                    assert(pre_pi[a].account_address != pre_act[i as int].account_address);
                }
            }
            assert forall|a: int, b: int|
                #![trigger post_act[a], post_pi[b]]
                0 <= a < post_act.len() && 0 <= b < post_pi.len() implies post_act[
                a
            ].account_address != post_pi[b].account_address by {
                let a0 = if a < i { a } else { a + 1 };
                assert(post_act[a] == pre_act[a0]);
                if b < pre_pi.len() {
                    assert(pre_act[a0].account_address != pre_pi[b].account_address);
                } else {
                    assert(post_pi[b] == pre_act[i as int]);
                }
            }
            assert forall|a: int, b: int|
                #![trigger self.validator_set.pending_active@[a], post_pi[b]]
                0 <= a < self.validator_set.pending_active@.len() && 0 <= b < post_pi.len() implies
                self.validator_set.pending_active@[a].account_address != post_pi[
                b
            ].account_address by {
                if b < pre_pi.len() {
                } else {
                    assert(post_pi[b] == pre_act[i as int]);
                }
            }
            assert forall|k: int|
                0 <= k < post_act.len() implies self.has_pool_spec(
                (#[trigger] post_act[k]).account_address,
            ) by {
                let k0 = if k < i { k } else { k + 1 };
                assert(post_act[k] == pre_act[k0]);
                assert(pre.has_pool_spec(pre_act[k0].account_address));
            }
            assert forall|k: int|
                0 <= k < post_pi.len() implies self.has_pool_spec(
                (#[trigger] post_pi[k]).account_address,
            ) by {
                if k < pre_pi.len() {
                    assert(pre.has_pool_spec(pre_pi[k].account_address));
                } else {
                    assert(post_pi[k] == pre_act[i as int]);
                    assert(pre.has_pool_spec(pre_act[i as int].account_address));
                }
            }
        }
        Ok(())
    }

    /// Records one observed block in the current epoch's tracker: one
    /// success for the block's proposer and one failure for every index
    /// that had a proposal turn but did not propose.
    pub fn record_proposal(&mut self, proposer_index: u64, failed_proposer_indices: &Vec<u64>)
        requires
            old(self).wf(),
            success_headroom(old(self).tracker.records@),
            failed_proposer_indices@.len() <= u32::MAX,
            failure_headroom(
                old(self).tracker.records@,
                failed_proposer_indices@.len() as int,
            ),
        ensures
            final(self).wf(),
            final(self).config == old(self).config,
            final(self).pools == old(self).pools,
            final(self).validator_set == old(self).validator_set,
            final(self).tracker.records@ == record_proposal_spec(
                old(self).tracker.records@,
                proposer_index,
                failed_proposer_indices@,
            ),
    {
        self.tracker.record_proposal(proposer_index, failed_proposer_indices);
    }
}

/// A byte-for-byte copy of a key.
fn clone_bytes(v: &Vec<u8>) -> (r: Vec<u8>)
    ensures
        r@ == v@,
{
    let mut r: Vec<u8> = Vec::new();
    let n = v.len();
    let mut i: usize = 0;
    while i < n
        invariant
            n == v@.len(),
            i <= n,
            r@ == v@.take(i as int),
        decreases n - i,
    {
        r.push(v[i]);
        proof {
            assert(v@.take(i + 1) =~= v@.take(i as int).push(v@[i as int]));
        }
        i = i + 1;
    }
    proof {
        assert(v@.take(n as int) =~= v@);
    }
    r
}

/// The reward owed to the validator slot `idx` out of the drained
/// records: zero when the slot never appeared.
pub open spec fn reward_for_index(records: Seq<TrackerEntry>, idx: u64, budget: u64) -> int {
    if has_key(records, idx) {
        reward_spec(
            records[index_of_key(records, idx)].1.successful_proposals,
            records[index_of_key(records, idx)].1.failed_proposals,
            budget,
        )
    } else {
        0
    }
}

/// The reward owed to `addr` at an epoch boundary: active validators
/// and leaving (pending-inactive) validators collect the credit earned
/// under their proposer index; everyone else gets nothing.
pub open spec fn epoch_reward_of(
    vs: ValidatorSet,
    records: Seq<TrackerEntry>,
    budget: u64,
    addr: u64,
) -> int {
    if contains_addr(vs.active_validators@, addr) {
        reward_for_index(
            records,
            vs.active_validators@[index_of_addr(vs.active_validators@, addr)].proposer_index,
            budget,
        )
    } else if contains_addr(vs.pending_inactive@, addr) {
        reward_for_index(
            records,
            vs.pending_inactive@[index_of_addr(vs.pending_inactive@, addr)].proposer_index,
            budget,
        )
    } else {
        0
    }
}

/// With no records left — as right after a boundary drained them — no
/// address is owed anything.
pub proof fn lemma_no_records_no_reward(vs: ValidatorSet, budget: u64, addr: u64)
    ensures
        epoch_reward_of(vs, Seq::<TrackerEntry>::empty(), budget, addr) == 0,
{
}

/// Lockup renewal is idempotent across a repeated boundary: a pool
/// that just went through the boundary at `now` goes through a second
/// boundary at the same `now` unchanged — the drained tracker leaves
/// no records, so the second run credits `epoch_reward_of` over the
/// empty record sequence, completes no further unlock, and recomputes
/// the same `locked_until_secs`.
pub proof fn lemma_epoch_rerun_changes_no_pool(
    vs: ValidatorSet,
    p: StakePool,
    r: int,
    now: u64,
    lockup_duration_secs: u64,
    budget: u64,
    addr: u64,
)
    requires
        0 <= r,
        p.total() + r <= u64::MAX,
        now + lockup_duration_secs <= u64::MAX,
    ensures
        pool_after_epoch(
            pool_after_epoch(p, r, now, lockup_duration_secs),
            epoch_reward_of(vs, Seq::<TrackerEntry>::empty(), budget, addr),
            now,
            lockup_duration_secs,
        ) == pool_after_epoch(p, r, now, lockup_duration_secs),
{
    lemma_no_records_no_reward(vs, budget, addr);
    crate::pool::lemma_epoch_update_idempotent(p, r, now, lockup_duration_secs);
}

/// The active validators that survive the boundary: those not queued
/// to leave, in their current order.
pub open spec fn kept_validators(
    active: Seq<ValidatorInfo>,
    leaving: Seq<ValidatorInfo>,
) -> Seq<ValidatorInfo>
    decreases active.len(),
{
    if active.len() == 0 {
        Seq::empty()
    } else {
        let prefix = kept_validators(active.drop_last(), leaving);
        if contains_addr(leaving, active.last().account_address) {
            prefix
        } else {
            prefix.push(active.last())
        }
    }
}

/// Peeling one validator off the front of the survivors' prefix.
proof fn lemma_kept_step(active: Seq<ValidatorInfo>, leaving: Seq<ValidatorInfo>, i: int)
    requires
        0 <= i < active.len(),
    ensures
        kept_validators(active.take(i + 1), leaving) == if contains_addr(
            leaving,
            active[i].account_address,
        ) {
            kept_validators(active.take(i), leaving)
        } else {
            kept_validators(active.take(i), leaving).push(active[i])
        },
{
    assert(active.take(i + 1).drop_last() =~= active.take(i));
    assert(active.take(i + 1).last() == active[i]);
    assert(active.take(i + 1).len() == i + 1);
}

/// Survivors keep distinct addresses, and each of them sits in the
/// original active collection.
proof fn lemma_kept_props(active: Seq<ValidatorInfo>, leaving: Seq<ValidatorInfo>)
    requires
        addrs_distinct(active),
    ensures
        addrs_distinct(kept_validators(active, leaving)),
        forall|k: int|
            0 <= k < kept_validators(active, leaving).len() ==> contains_addr(
                active,
                (#[trigger] kept_validators(active, leaving)[k]).account_address,
            ),
    decreases active.len(),
{
    if active.len() > 0 {
        let n = active.len() as int;
        let prefix = active.drop_last();
        let last = active.last();
        assert forall|i: int, j: int|
            #![trigger prefix[i], prefix[j]]
            0 <= i < j < prefix.len() implies prefix[i].account_address
            != prefix[j].account_address by {
            assert(active[i] == prefix[i]);
            assert(active[j] == prefix[j]);
        }
        lemma_kept_props(prefix, leaving);
        let kp = kept_validators(prefix, leaving);
        assert forall|k: int|
            0 <= k < kp.len() implies contains_addr(
            active,
            (#[trigger] kp[k]).account_address,
        ) by {
            assert(contains_addr(prefix, kp[k].account_address));
            let w = choose|w: int|
                0 <= w < prefix.len() && (#[trigger] prefix[w]).account_address
                    == kp[k].account_address;
            assert(active[w].account_address == kp[k].account_address);
        }
        if !contains_addr(leaving, last.account_address) {
            assert forall|k: int|
                0 <= k < kp.len() implies (#[trigger] kp[k]).account_address
                != last.account_address by {
                assert(contains_addr(prefix, kp[k].account_address));
                let w = choose|w: int|
                    0 <= w < prefix.len() && (#[trigger] prefix[w]).account_address
                        == kp[k].account_address;
                assert(active[w].account_address != active[n - 1].account_address);
            }
            let kept = kp.push(last);
            assert forall|i: int, j: int|
                #![trigger kept[i], kept[j]]
                0 <= i < j < kept.len() implies kept[i].account_address
                != kept[j].account_address by {
                if j < kp.len() {
                    assert(kept[i] == kp[i]);
                    assert(kept[j] == kp[j]);
                } else {
                    assert(kept[j] == last);
                    assert(kept[i] == kp[i]);
                }
            }
            assert(contains_addr(active, last.account_address)) by {
                assert(active[n - 1].account_address == last.account_address);
            }
        }
    }
}

/// An owner key present in one pool sequence is present in any other
/// with the same keys in the same order.
proof fn lemma_has_owner_same(a: Seq<PoolEntry>, b: Seq<PoolEntry>, owner: u64)
    requires
        a.len() == b.len(),
        forall|i: int| 0 <= i < b.len() ==> (#[trigger] b[i]).owner == a[i].owner,
        has_owner(a, owner),
    ensures
        has_owner(b, owner),
{
    let w = choose|w: int| 0 <= w < a.len() && (#[trigger] a[w]).owner == owner;
    assert(b[w].owner == owner);
}

impl StakingState {
    /// The epoch transition orchestrator, run once per epoch boundary
    /// at time `now`, as one indivisible sequence: drain the tracker;
    /// credit each active or leaving validator its performance reward;
    /// complete the unlock of pending-inactive coins whose window has
    /// elapsed; renew elapsed lockups of pools that keep active stake;
    /// then commit membership: survivors (in their current order)
    /// followed by the queued joiners (in request order) become the
    /// active set, with fresh consecutive proposer indices and voting
    /// power snapshotted from the just-rewarded active balances.
    pub fn run_epoch_transition(&mut self, now: u64)
        requires
            old(self).wf(),
            now + old(self).config.lockup_duration_secs <= u64::MAX,
            forall|i: int|
                0 <= i < old(self).pools@.len() ==> (#[trigger] old(self).pools@[i]).pool.total()
                    + old(self).config.rewards_per_epoch <= u64::MAX,
        ensures
            final(self).wf(),
            final(self).config == old(self).config,
            final(self).tracker.records@ == Seq::<TrackerEntry>::empty(),
            final(self).pools@.len() == old(self).pools@.len(),
            forall|i: int|
                0 <= i < old(self).pools@.len() ==> final(self).pools@[i] == (PoolEntry {
                    pool: pool_after_epoch(
                        old(self).pools@[i].pool,
                        epoch_reward_of(
                            old(self).validator_set,
                            old(self).tracker.records@,
                            old(self).config.rewards_per_epoch,
                            (#[trigger] old(self).pools@[i]).owner,
                        ),
                        now,
                        old(self).config.lockup_duration_secs,
                    ),
                    ..old(self).pools@[i]
                }),
            final(self).validator_set.pending_active@.len() == 0,
            final(self).validator_set.pending_inactive@.len() == 0,
            ({
                let base = kept_validators(
                    old(self).validator_set.active_validators@,
                    old(self).validator_set.pending_inactive@,
                ) + old(self).validator_set.pending_active@;
                &&& final(self).validator_set.active_validators@.len() == base.len()
                &&& forall|i: int|
                    0 <= i < base.len() ==> {
                        let v = #[trigger] final(self).validator_set.active_validators@[i];
                        &&& v.account_address == base[i].account_address
                        &&& v.proposer_index == i
                        &&& v.voting_power == final(self).pool_spec(base[i].account_address).active
                        &&& v.consensus_public_key@ == final(self).pool_entry_spec(
                            base[i].account_address,
                        ).consensus_public_key@
                    }
            }),
    {
        let ghost pre = *self;
        let budget = self.config.rewards_per_epoch;
        let lockup = self.config.lockup_duration_secs;
        let records = self.tracker.drain();
        let n = self.pools.len();
        let mut i: usize = 0;
        while i < n
            invariant
                n == self.pools@.len(),
                n == pre.pools@.len(),
                i <= n,
                pre.wf(),
                self.config == pre.config,
                budget == pre.config.rewards_per_epoch,
                lockup == pre.config.lockup_duration_secs,
                now + lockup <= u64::MAX,
                self.validator_set == pre.validator_set,
                self.tracker.records@ == Seq::<TrackerEntry>::empty(),
                records@ == pre.tracker.records@,
                keys_distinct(records@),
                forall|j: int| i <= j < n ==> self.pools@[j] == pre.pools@[j],
                forall|j: int|
                    0 <= j < i ==> self.pools@[j] == (PoolEntry {
                        pool: pool_after_epoch(
                            pre.pools@[j].pool,
                            epoch_reward_of(
                                pre.validator_set,
                                pre.tracker.records@,
                                budget,
                                (#[trigger] pre.pools@[j]).owner,
                            ),
                            now,
                            lockup,
                        ),
                        ..pre.pools@[j]
                    }),
                forall|j: int| 0 <= j < i ==> (#[trigger] self.pools@[j]).pool.wf(),
                forall|j: int|
                    0 <= j < n ==> (#[trigger] pre.pools@[j]).pool.total() + budget <= u64::MAX,
            decreases n - i,
        {
            let owner = self.pools[i].owner;
            let r = reward_for_validator(&self.validator_set, &records, budget, owner);
            proof {
                assert(self.pools@[i as int] == pre.pools@[i as int]);
                assert(pre.pools@[i as int].pool.wf());
                assert(pre.pools@[i as int].pool.total() + budget <= u64::MAX);
            }
            let entry = vec_index_mut(&mut self.pools, i);
            let mut p = entry.pool;
            p.epoch_update(r, now, lockup);
            entry.pool = p;
            i = i + 1;
        }
        let ghost act = pre.validator_set.active_validators@;
        let ghost leaving = pre.validator_set.pending_inactive@;
        let ghost pa = pre.validator_set.pending_active@;
        proof {
            assert(act.take(0) =~= Seq::<ValidatorInfo>::empty());
            assert forall|j: int|
                0 <= j < self.pools@.len() implies (#[trigger] self.pools@[j]).owner
                == pre.pools@[j].owner by {}
            assert forall|x: int, y: int|
                #![trigger self.pools@[x], self.pools@[y]]
                0 <= x < y < self.pools@.len() implies self.pools@[x].owner
                != self.pools@[y].owner by {
                assert(pre.pools@[x].owner != pre.pools@[y].owner);
            }
        }
        let mut new_active: Vec<ValidatorInfo> = Vec::new();
        let na = self.validator_set.active_validators.len();
        let mut a: usize = 0;
        while a < na
            invariant
                pre.wf(),
                self.validator_set == pre.validator_set,
                act == pre.validator_set.active_validators@,
                leaving == pre.validator_set.pending_inactive@,
                na == act.len(),
                a <= na,
                self.pools@.len() == pre.pools@.len(),
                forall|j: int|
                    0 <= j < self.pools@.len() ==> (#[trigger] self.pools@[j]).owner
                        == pre.pools@[j].owner,
                owners_distinct(self.pools@),
                new_active@.len() == kept_validators(act.take(a as int), leaving).len(),
                forall|k: int|
                    0 <= k < new_active@.len() ==> {
                        let v = #[trigger] new_active@[k];
                        let b = kept_validators(act.take(a as int), leaving)[k];
                        &&& v.account_address == b.account_address
                        &&& v.proposer_index == k
                        &&& v.voting_power == self.pool_spec(b.account_address).active
                        &&& v.consensus_public_key@ == self.pool_entry_spec(
                            b.account_address,
                        ).consensus_public_key@
                    },
            decreases na - a,
        {
            let v_addr = self.validator_set.active_validators[a].account_address;
            let is_leaving = contains_addr_exec(&self.validator_set.pending_inactive, v_addr);
            proof {
                assert(v_addr == pre.validator_set.active_validators@[a as int].account_address);
                lemma_kept_step(act, leaving, a as int);
            }
            if !is_leaving {
                let k = match self.find_pool(v_addr) {
                    Some(k) => k,
                    None => {
                        proof {
                            assert(pre.has_pool_spec(v_addr));
                            lemma_has_owner_same(pre.pools@, self.pools@, v_addr);
                            assert(false);
                        }
                        0
                    },
                };
                let info = ValidatorInfo {
                    account_address: v_addr,
                    consensus_public_key: clone_bytes(&self.pools[k].consensus_public_key),
                    voting_power: self.pools[k].pool.active,
                    proposer_index: new_active.len() as u64,
                };
                new_active.push(info);
            }
            a = a + 1;
        }
        let ghost kept_all = kept_validators(act, leaving);
        proof {
            assert(act.take(na as int) =~= act);
        }
        let np = self.validator_set.pending_active.len();
        let mut m: usize = 0;
        while m < np
            invariant
                pre.wf(),
                self.validator_set == pre.validator_set,
                act == pre.validator_set.active_validators@,
                leaving == pre.validator_set.pending_inactive@,
                pa == pre.validator_set.pending_active@,
                kept_all == kept_validators(act, leaving),
                np == pa.len(),
                m <= np,
                self.pools@.len() == pre.pools@.len(),
                forall|j: int|
                    0 <= j < self.pools@.len() ==> (#[trigger] self.pools@[j]).owner
                        == pre.pools@[j].owner,
                owners_distinct(self.pools@),
                new_active@.len() == kept_all.len() + m,
                forall|k: int|
                    0 <= k < kept_all.len() ==> {
                        let v = #[trigger] new_active@[k];
                        &&& v.account_address == kept_all[k].account_address
                        &&& v.proposer_index == k
                        &&& v.voting_power == self.pool_spec(kept_all[k].account_address).active
                        &&& v.consensus_public_key@ == self.pool_entry_spec(
                            kept_all[k].account_address,
                        ).consensus_public_key@
                    },
                forall|k: int|
                    kept_all.len() <= k < new_active@.len() ==> {
                        let v = #[trigger] new_active@[k];
                        let b = pa[k - kept_all.len()];
                        &&& v.account_address == b.account_address
                        &&& v.proposer_index == k
                        &&& v.voting_power == self.pool_spec(b.account_address).active
                        &&& v.consensus_public_key@ == self.pool_entry_spec(
                            b.account_address,
                        ).consensus_public_key@
                    },
            decreases np - m,
        {
            let v_addr = self.validator_set.pending_active[m].account_address;
            proof {
                assert(v_addr == pre.validator_set.pending_active@[m as int].account_address);
            }
            let k = match self.find_pool(v_addr) {
                Some(k) => k,
                None => {
                    proof {
                        assert(pre.has_pool_spec(v_addr));
                        lemma_has_owner_same(pre.pools@, self.pools@, v_addr);
                        assert(false);
                    }
                    0
                },
            };
            let info = ValidatorInfo {
                account_address: v_addr,
                consensus_public_key: clone_bytes(&self.pools[k].consensus_public_key),
                voting_power: self.pools[k].pool.active,
                proposer_index: new_active.len() as u64,
            };
            new_active.push(info);
            m = m + 1;
        }
        self.validator_set.active_validators = new_active;
        self.validator_set.pending_active = Vec::new();
        self.validator_set.pending_inactive = Vec::new();
        proof {
            let base = kept_all + pa;
            let post_act = self.validator_set.active_validators@;
            lemma_kept_props(act, leaving);
            assert(base.len() == kept_all.len() + pa.len());
            assert forall|k: int| 0 <= k < base.len() implies #[trigger] base[k] == (if k
                < kept_all.len() {
                kept_all[k]
            } else {
                pa[k - kept_all.len()]
            }) by {}
            assert forall|x: int, y: int|
                #![trigger post_act[x], post_act[y]]
                0 <= x < y < post_act.len() implies post_act[x].account_address
                != post_act[y].account_address by {
                assert(post_act[x].account_address == base[x].account_address);
                assert(post_act[y].account_address == base[y].account_address);
                if x < kept_all.len() && y >= kept_all.len() {
                    let wx = choose|w: int|
                        0 <= w < act.len() && (#[trigger] act[w]).account_address
                            == kept_all[x].account_address;
                    assert(act[wx].account_address != pa[y - kept_all.len()].account_address);
                }
            }
            assert forall|k: int|
                0 <= k < post_act.len() implies self.has_pool_spec(
                (#[trigger] post_act[k]).account_address,
            ) by {
                assert(post_act[k].account_address == base[k].account_address);
                if k < kept_all.len() {
                    let w = choose|w: int|
                        0 <= w < act.len() && (#[trigger] act[w]).account_address
                            == kept_all[k].account_address;
                    assert(pre.has_pool_spec(act[w].account_address));
                } else {
                    assert(pre.has_pool_spec(pa[k - kept_all.len()].account_address));
                }
                lemma_has_owner_same(pre.pools@, self.pools@, post_act[k].account_address);
            }
        }
    }
}

/// The position of the drained record for `key`, if any.
fn position_of_key(records: &Vec<TrackerEntry>, key: u64) -> (r: Option<usize>)
    requires
        keys_distinct(records@),
    ensures
        match r {
            Some(i) => i < records@.len() && records@[i as int].0 == key && index_of_key(
                records@,
                key,
            ) == i,
            None => !has_key(records@, key),
        },
{
    let n = records.len();
    let mut i: usize = 0;
    while i < n
        invariant
            keys_distinct(records@),
            n == records@.len(),
            i <= n,
            forall|j: int| 0 <= j < i ==> (#[trigger] records@[j]).0 != key,
        decreases n - i,
    {
        if records[i].0 == key {
            proof {
                lemma_index_of_key(records@, key, i as int);
            }
            return Some(i);
        }
        i = i + 1;
    }
    None
}

/// Looks up the reward owed to `addr` from the drained records.
fn reward_for_validator(
    vs: &ValidatorSet,
    records: &Vec<TrackerEntry>,
    budget: u64,
    addr: u64,
) -> (r: u64)
    requires
        keys_distinct(records@),
        vs.membership_exclusive(),
    ensures
        r == epoch_reward_of(*vs, records@, budget, addr),
        r <= budget,
{
    let idx_opt = match position_of_addr(&vs.active_validators, addr) {
        Some(i) => {
            proof {
                lemma_index_of_addr(vs.active_validators@, addr, i as int);
            }
            Some(vs.active_validators[i].proposer_index)
        },
        None => {
            match position_of_addr(&vs.pending_inactive, addr) {
                Some(i) => {
                    proof {
                        lemma_index_of_addr(vs.pending_inactive@, addr, i as int);
                    }
                    Some(vs.pending_inactive[i].proposer_index)
                },
                None => None,
            }
        },
    };
    match idx_opt {
        None => 0,
        Some(idx) => {
            match position_of_key(records, idx) {
                None => 0,
                Some(k) => {
                    let rec = records[k].1;
                    reward(&rec, budget)
                },
            }
        },
    }
}

} // verus!
