use staking::engine::{StakingConfig, StakingState};
use staking::StakeError;

fn new_engine(rewards_per_epoch: u64, minimum_stake: u64) -> StakingState {
    StakingState::new(StakingConfig {
        rewards_per_epoch,
        lockup_duration_secs: 7200,
        minimum_stake,
    })
}

#[test]
fn test_initialize_twice_already_exists() {
    let mut h = new_engine(0, 0);
    assert_eq!(h.initialize_stake(0x123, 0x234, 0x123), Ok(()));
    assert_eq!(
        h.initialize_stake(0x123, 0x123, 0x123),
        Err(StakeError::AlreadyExists)
    );
}

#[test]
fn test_add_zero_invalid_amount() {
    let mut h = new_engine(0, 0);
    assert_eq!(h.initialize_stake(0x123, 0x123, 0x123), Ok(()));
    assert_eq!(h.add_stake(0x123, 0), Err(StakeError::InvalidAmount));
    assert_eq!(h.get_stake_pool(0x123).unwrap().active, 0);
}

#[test]
fn test_unlock_more_than_active_fails() {
    let mut h = new_engine(0, 0);
    assert_eq!(h.initialize_stake(0x123, 0x123, 0x123), Ok(()));
    assert_eq!(h.add_stake(0x123, 500), Ok(()));
    assert_eq!(
        h.unlock_stake(0x123, 501),
        Err(StakeError::InsufficientActiveBalance)
    );
    let pool = h.get_stake_pool(0x123).unwrap();
    assert_eq!(pool.active, 500);
    assert_eq!(pool.pending_inactive, 0);
}

#[test]
fn test_rotate_key_not_operator() {
    let mut h = new_engine(0, 0);
    assert_eq!(h.initialize_stake(0x123, 0x234, 0x123), Ok(()));
    assert_eq!(
        h.rotate_consensus_key(0x123, 0x123, vec![1, 2, 3]),
        Err(StakeError::NotOperator)
    );
    assert_eq!(h.rotate_consensus_key(0x234, 0x123, vec![1, 2, 3]), Ok(()));
}

#[test]
fn test_join_memberships() {
    let mut h = new_engine(0, 0);
    assert_eq!(h.initialize_stake(0x123, 0x123, 0x123), Ok(()));
    assert_eq!(h.add_stake(0x123, 1_000), Ok(()));
    assert_eq!(h.join_validator_set(0x123), Ok(()));
    assert_eq!(h.join_validator_set(0x123), Err(StakeError::AlreadyPending));
    h.run_epoch_transition(100);
    assert_eq!(h.join_validator_set(0x123), Err(StakeError::AlreadyActive));
    assert_eq!(h.leave_validator_set(0x123), Ok(()));
    assert_eq!(h.join_validator_set(0x123), Err(StakeError::AlreadyPending));
}

#[test]
fn test_join_below_minimum() {
    let mut h = new_engine(0, 1_000);
    assert_eq!(h.initialize_stake(0x123, 0x123, 0x123), Ok(()));
    assert_eq!(h.add_stake(0x123, 999), Ok(()));
    assert_eq!(
        h.join_validator_set(0x123),
        Err(StakeError::StakeBelowMinimum)
    );
    assert_eq!(h.add_stake(0x123, 1), Ok(()));
    assert_eq!(h.join_validator_set(0x123), Ok(()));
}

#[test]
fn test_leave_not_active() {
    let mut h = new_engine(0, 0);
    assert_eq!(h.initialize_stake(0x123, 0x123, 0x123), Ok(()));
    assert_eq!(h.leave_validator_set(0x123), Err(StakeError::NotActive));
}

#[test]
fn test_withdraw_capping() {
    let mut h = new_engine(0, 0);
    assert_eq!(h.initialize_stake(0x123, 0x123, 0x123), Ok(()));
    assert_eq!(h.add_stake(0x123, 1_000), Ok(()));
    assert_eq!(h.unlock_stake(0x123, 600), Ok(()));
    h.run_epoch_transition(10_000);
    assert_eq!(h.get_stake_pool(0x123).unwrap().inactive, 600);

    // Requesting no more than the inactive balance transfers exactly
    // the request.
    assert_eq!(h.withdraw_stake(0x123, 200), 200);
    assert_eq!(h.get_stake_pool(0x123).unwrap().inactive, 400);

    // An over-request transfers exactly the remaining inactive balance
    // and empties it.
    assert_eq!(h.withdraw_stake(0x123, 9_999), 400);
    assert_eq!(h.get_stake_pool(0x123).unwrap().inactive, 0);
}

#[test]
fn test_balance_conservation() {
    let mut h = new_engine(0, 0);
    assert_eq!(h.initialize_stake(0x123, 0x123, 0x123), Ok(()));
    assert_eq!(h.add_stake(0x123, 5_000), Ok(()));
    let total = |h: &StakingState| {
        let p = h.get_stake_pool(0x123).unwrap();
        p.active + p.inactive + p.pending_active + p.pending_inactive
    };
    assert_eq!(total(&h), 5_000);

    // Unlock requests and lockup completions move coins between
    // buckets but never change the total.
    assert_eq!(h.unlock_stake(0x123, 2_000), Ok(()));
    assert_eq!(total(&h), 5_000);
    h.run_epoch_transition(50);
    assert_eq!(total(&h), 5_000);

    // Deposits and withdrawals change the total by exactly the moved
    // amount.
    assert_eq!(h.add_stake(0x123, 300), Ok(()));
    assert_eq!(total(&h), 5_300);
    assert_eq!(h.withdraw_stake(0x123, 1_500), 1_500);
    assert_eq!(total(&h), 3_800);
}

fn membership_count(h: &StakingState, addr: u64) -> usize {
    let vs = h.get_validator_set();
    let mut count: usize = 0;
    for v in vs.active_validators.iter() {
        if v.account_address == addr {
            count += 1;
        }
    }
    for v in vs.pending_active.iter() {
        if v.account_address == addr {
            count += 1;
        }
    }
    for v in vs.pending_inactive.iter() {
        if v.account_address == addr {
            count += 1;
        }
    }
    count
}

#[test]
fn test_membership_exclusivity() {
    let mut h = new_engine(0, 0);
    assert_eq!(h.initialize_stake(0x123, 0x123, 0x123), Ok(()));
    assert_eq!(h.add_stake(0x123, 1_000), Ok(()));
    assert_eq!(membership_count(&h, 0x123), 0);
    assert_eq!(h.join_validator_set(0x123), Ok(()));
    assert_eq!(membership_count(&h, 0x123), 1);
    h.run_epoch_transition(100);
    assert_eq!(membership_count(&h, 0x123), 1);
    assert_eq!(h.leave_validator_set(0x123), Ok(()));
    assert_eq!(membership_count(&h, 0x123), 1);
    h.run_epoch_transition(200);
    assert_eq!(membership_count(&h, 0x123), 0);
}

#[test]
fn test_epoch_transition_idempotent() {
    let mut h = new_engine(1141, 0);
    assert_eq!(h.initialize_stake(0x123, 0x123, 0x123), Ok(()));
    assert_eq!(h.add_stake(0x123, 10_000), Ok(()));
    assert_eq!(h.join_validator_set(0x123), Ok(()));
    h.run_epoch_transition(1_000);
    h.record_proposal(0, &vec![]);
    assert_eq!(h.unlock_stake(0x123, 4_000), Ok(()));

    let now: u64 = 10_000;
    h.run_epoch_transition(now);
    let first = h.get_stake_pool(0x123).unwrap();

    // Running the boundary again with an unchanged clock and no new
    // operations changes nothing: the tracker was drained, and the
    // renewed lockup window is recomputed to the same value.
    h.run_epoch_transition(now);
    let second = h.get_stake_pool(0x123).unwrap();
    assert_eq!(second, first);
    assert_eq!(second.locked_until_secs, first.locked_until_secs);
}
