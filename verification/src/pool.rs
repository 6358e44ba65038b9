//! Per-owner stake pool: the balance state machine and lockup timer.
//!
//! A pool splits its coins into four buckets.  `active` counts toward
//! voting power and rewards; `inactive` is fully unlocked and
//! withdrawable; `pending_active` is queued to become active at the
//! next epoch boundary; `pending_inactive` has been requested for
//! unlock but has not completed its lockup window yet.

use vstd::prelude::*;

verus! {

/// One validator owner's stake pool.  All balances are unsigned coin
/// amounts; the sum of the four buckets always fits in a `u64`.
#[derive(Clone, Copy, Debug, PartialEq, Eq, Structural)]
pub struct StakePool {
    /// Account that runs the validator node; may differ from the owner.
    pub operator_address: u64,
    /// Account that holds the governance voting rights of this stake.
    pub delegated_voter: u64,
    /// Stake counted toward voting power and rewards.
    pub active: u64,
    /// Stake fully unlocked and withdrawable.
    pub inactive: u64,
    /// Stake queued to become active at the next epoch boundary.
    pub pending_active: u64,
    /// Stake whose unlock has been requested but whose lockup window
    /// has not elapsed yet.
    pub pending_inactive: u64,
    /// Timestamp before which pending-inactive stake cannot complete
    /// its move to `inactive`.
    pub locked_until_secs: u64,
}

impl StakePool {
    /// The sum of all four balance buckets.  It changes only through
    /// deposits, withdrawals and reward credits; unlock requests and
    /// lockup completions merely move coins between buckets.
    pub open spec fn total(self) -> int {
        self.active + self.inactive + self.pending_active + self.pending_inactive
    }

    /// The pool's coins always fit in one `u64` amount.
    pub open spec fn wf(self) -> bool {
        self.total() <= u64::MAX
    }

    /// A fresh pool with no coins and an expired lockup.
    pub fn new(operator_address: u64, delegated_voter: u64) -> (p: StakePool)
        ensures
            p == (StakePool {
                operator_address,
                delegated_voter,
                active: 0,
                inactive: 0,
                pending_active: 0,
                pending_inactive: 0,
                locked_until_secs: 0,
            }),
            p.total() == 0,
            p.wf(),
    {
        StakePool {
            operator_address,
            delegated_voter,
            active: 0,
            inactive: 0,
            pending_active: 0,
            pending_inactive: 0,
            locked_until_secs: 0,
        }
    }

    /// Credits a deposit: to `pending_active` when the owner is already
    /// an active validator (the coins start earning only next epoch),
    /// directly to `active` otherwise.  The total grows by exactly
    /// `amount`.
    pub fn deposit(&mut self, amount: u64, to_pending: bool)
        requires
            old(self).total() + amount <= u64::MAX,
        ensures
            final(self).total() == old(self).total() + amount,
            final(self).wf(),
            to_pending ==> *final(self) == (StakePool {
                pending_active: (old(self).pending_active + amount) as u64,
                ..*old(self)
            }),
            !to_pending ==> *final(self) == (StakePool {
                active: (old(self).active + amount) as u64,
                ..*old(self)
            }),
    {
        if to_pending {
            self.pending_active = self.pending_active + amount;
        } else {
            self.active = self.active + amount;
        }
    }

    /// Moves `amount` coins from `active` to `pending_inactive`; the
    /// caller has already checked that `amount` does not exceed the
    /// active balance.  The total is conserved.
    pub fn unlock_coins(&mut self, amount: u64)
        requires
            old(self).wf(),
            amount <= old(self).active,
        ensures
            *final(self) == (StakePool {
                active: (old(self).active - amount) as u64,
                pending_inactive: (old(self).pending_inactive + amount) as u64,
                ..*old(self)
            }),
            final(self).total() == old(self).total(),
            final(self).wf(),
    {
        self.active = self.active - amount;
        self.pending_inactive = self.pending_inactive + amount;
    }

    /// Withdraws up to `requested` coins from `inactive` and reports
    /// how many actually left the pool.  An over-request is silently
    /// capped at the available inactive balance, so this never fails:
    /// `requested > inactive` empties the bucket and transfers exactly
    /// the old `inactive`; otherwise exactly `requested` is
    /// transferred.
    pub fn withdraw_coins(&mut self, requested: u64) -> (transferred: u64)
        ensures
            transferred == if requested <= old(self).inactive {
                requested as int
            } else {
                old(self).inactive as int
            },
            *final(self) == (StakePool {
                inactive: (old(self).inactive - transferred) as u64,
                ..*old(self)
            }),
            final(self).total() == old(self).total() - transferred,
            requested > old(self).inactive ==> final(self).inactive == 0,
            old(self).wf() ==> final(self).wf(),
    {
        let transferred = if requested <= self.inactive {
            requested
        } else {
            self.inactive
        };
        self.inactive = self.inactive - transferred;
        transferred
    }
}

/// The balance and lockup part of one epoch boundary for a single pool,
/// in the order the orchestrator applies it: first the epoch's reward
/// is credited to `active`; then, if the lockup window has elapsed,
/// pending-inactive coins complete their unlock; finally, a pool that
/// still has active stake and whose window has elapsed gets a fresh
/// window of `lockup_duration_secs` starting at `now`.
pub open spec fn pool_after_epoch(
    p: StakePool,
    reward: int,
    now: u64,
    lockup_duration_secs: u64,
) -> StakePool
    recommends
        0 <= reward,
        p.total() + reward <= u64::MAX,
        now + lockup_duration_secs <= u64::MAX,
{
    let credited = StakePool { active: (p.active + reward) as u64, ..p };
    let unlocked = if credited.pending_inactive > 0 && now >= credited.locked_until_secs {
        StakePool {
            inactive: (credited.inactive + credited.pending_inactive) as u64,
            pending_inactive: 0,
            ..credited
        }
    } else {
        credited
    };
    if unlocked.active > 0 && unlocked.locked_until_secs <= now {
        StakePool { locked_until_secs: (now + lockup_duration_secs) as u64, ..unlocked }
    } else {
        unlocked
    }
}

impl StakePool {
    /// Applies one epoch boundary to this pool.
    pub fn epoch_update(&mut self, reward: u64, now: u64, lockup_duration_secs: u64)
        requires
            old(self).wf(),
            old(self).total() + reward <= u64::MAX,
            now + lockup_duration_secs <= u64::MAX,
        ensures
            *final(self) == pool_after_epoch(*old(self), reward as int, now, lockup_duration_secs),
            final(self).total() == old(self).total() + reward,
            final(self).wf(),
    {
        self.active = self.active + reward;
        if self.pending_inactive > 0 && now >= self.locked_until_secs {
            self.inactive = self.inactive + self.pending_inactive;
            self.pending_inactive = 0;
        }
        if self.active > 0 && self.locked_until_secs <= now {
            self.locked_until_secs = now + lockup_duration_secs;
        }
    }
}

/// The epoch boundary conserves coins up to the credited reward: the
/// unlock completion and the lockup renewal never change the total.
pub proof fn lemma_pool_after_epoch_conserves(
    p: StakePool,
    reward: int,
    now: u64,
    lockup_duration_secs: u64,
)
    requires
        0 <= reward,
        p.total() + reward <= u64::MAX,
        now + lockup_duration_secs <= u64::MAX,
    ensures
        pool_after_epoch(p, reward, now, lockup_duration_secs).total() == p.total() + reward,
{
}

/// Running the epoch boundary twice in immediate succession with an
/// unchanged clock changes nothing the second time: the proposal
/// tracker was drained by the first run, so the second credits no
/// reward, completes no further unlock, and recomputes the same
/// `locked_until_secs`.
pub proof fn lemma_epoch_update_idempotent(
    p: StakePool,
    reward: int,
    now: u64,
    lockup_duration_secs: u64,
)
    requires
        0 <= reward,
        p.total() + reward <= u64::MAX,
        now + lockup_duration_secs <= u64::MAX,
    ensures
        pool_after_epoch(
            pool_after_epoch(p, reward, now, lockup_duration_secs),
            0,
            now,
            lockup_duration_secs,
        ) == pool_after_epoch(p, reward, now, lockup_duration_secs),
{
}

} // verus!
