use staking::engine::{StakingConfig, StakingState};

fn new_engine(rewards_per_epoch: u64, minimum_stake: u64) -> StakingState {
    StakingState::new(StakingConfig {
        rewards_per_epoch,
        lockup_duration_secs: 7200,
        minimum_stake,
    })
}

#[test]
fn test_staking_end_to_end() {
    let mut harness = new_engine(1141, 0);
    let owner_address: u64 = 0x123;
    let operator_address: u64 = 0x234;

    // Initialize and add stake.
    let stake_amount: u64 = 100_000_000;
    assert_eq!(
        harness.initialize_stake(owner_address, operator_address, owner_address),
        Ok(())
    );
    assert_eq!(harness.add_stake(owner_address, stake_amount), Ok(()));
    let stake_pool = harness.get_stake_pool(owner_address).unwrap();
    assert_eq!(stake_pool.active, stake_amount);
    assert_eq!(stake_pool.operator_address, operator_address);
    assert_eq!(stake_pool.delegated_voter, owner_address);

    // Join the validator set.
    assert_eq!(
        harness.rotate_consensus_key(operator_address, owner_address, vec![7u8; 32]),
        Ok(())
    );
    assert_eq!(harness.join_validator_set(owner_address), Ok(()));
    let mut now: u64 = 1_000;
    harness.run_epoch_transition(now);

    // Validator should now be locked up.
    let stake_pool = harness.get_stake_pool(owner_address).unwrap();
    assert_eq!(stake_pool.locked_until_secs, now + 7200);

    // Unlock 1/4 stake.
    let amount_to_withdraw = stake_amount / 4;
    let remaining_stake = stake_amount - amount_to_withdraw;
    assert_eq!(harness.unlock_stake(owner_address, amount_to_withdraw), Ok(()));
    let stake_pool = harness.get_stake_pool(owner_address).unwrap();
    assert_eq!(stake_pool.active, remaining_stake);
    assert_eq!(stake_pool.pending_inactive, amount_to_withdraw);

    // Wait until stake is unlocked.
    now += 7200;
    harness.run_epoch_transition(now);
    let stake_pool = harness.get_stake_pool(owner_address).unwrap();
    assert_eq!(stake_pool.pending_inactive, 0);
    assert_eq!(stake_pool.inactive, amount_to_withdraw);

    // Withdraw (over-request) and verify that coins are returned.
    assert_eq!(
        harness.withdraw_stake(owner_address, stake_amount / 2),
        amount_to_withdraw
    );
    let stake_pool = harness.get_stake_pool(owner_address).unwrap();
    assert_eq!(stake_pool.inactive, 0);

    // Verify that lockup has been renewed for remaining stake.
    assert_eq!(stake_pool.active, remaining_stake);
    assert_eq!(stake_pool.locked_until_secs, now + 7200);

    // Validator takes the rest of the stake out.
    assert_eq!(harness.unlock_stake(owner_address, remaining_stake), Ok(()));
    now += 7200;
    harness.run_epoch_transition(now);
    assert_eq!(
        harness.withdraw_stake(owner_address, remaining_stake),
        remaining_stake
    );
    let stake_pool = harness.get_stake_pool(owner_address).unwrap();
    assert_eq!(stake_pool.active, 0);
    assert_eq!(stake_pool.inactive, 0);
}

fn setup_staking(harness: &mut StakingState, owner: u64, amount: u64) {
    assert_eq!(harness.initialize_stake(owner, owner, owner), Ok(()));
    assert_eq!(harness.add_stake(owner, amount), Ok(()));
    assert_eq!(harness.join_validator_set(owner), Ok(()));
}

#[test]
fn test_staking_rewards() {
    let rewards_per_epoch: u64 = 1141;
    let mut harness = new_engine(rewards_per_epoch, 0);
    let validator_1_address: u64 = 0x123;
    let validator_2_address: u64 = 0x234;

    // Initialize the validators.
    let mut stake_amount_1: u64 = 100_000_000;
    setup_staking(&mut harness, validator_1_address, stake_amount_1);
    let mut stake_amount_2: u64 = 100_000_000;
    setup_staking(&mut harness, validator_2_address, stake_amount_2);
    let mut now: u64 = 1_000;
    harness.run_epoch_transition(now);

    // Both validators propose a block in the current epoch. Both should
    // receive rewards.
    harness.record_proposal(0, &vec![]);
    harness.record_proposal(1, &vec![]);
    now += 3600;
    harness.run_epoch_transition(now);
    stake_amount_1 += rewards_per_epoch;
    stake_amount_2 += rewards_per_epoch;
    assert_eq!(
        harness.get_stake_pool(validator_1_address).unwrap().active,
        stake_amount_1
    );
    assert_eq!(
        harness.get_stake_pool(validator_2_address).unwrap().active,
        stake_amount_2
    );

    // Each validator proposes in their own epoch. They receive the
    // rewards at the end of each epoch.
    harness.record_proposal(0, &vec![]);
    now += 3600;
    harness.run_epoch_transition(now);
    stake_amount_1 += rewards_per_epoch;
    assert_eq!(
        harness.get_stake_pool(validator_1_address).unwrap().active,
        stake_amount_1
    );
    assert_eq!(
        harness.get_stake_pool(validator_2_address).unwrap().active,
        stake_amount_2
    );
    harness.record_proposal(1, &vec![]);
    now += 3600;
    harness.run_epoch_transition(now);
    assert_eq!(
        harness.get_stake_pool(validator_1_address).unwrap().active,
        stake_amount_1
    );
    stake_amount_2 += rewards_per_epoch;
    assert_eq!(
        harness.get_stake_pool(validator_2_address).unwrap().active,
        stake_amount_2
    );

    // Validator 1 misses one proposal and thus receives no rewards while
    // validator 2 didn't miss any so they receive full rewards.
    harness.record_proposal(1, &vec![0]);
    now += 3600;
    harness.run_epoch_transition(now);
    assert_eq!(
        harness.get_stake_pool(validator_1_address).unwrap().active,
        stake_amount_1
    );
    stake_amount_2 += rewards_per_epoch;
    assert_eq!(
        harness.get_stake_pool(validator_2_address).unwrap().active,
        stake_amount_2
    );

    // Validator 1 misses one proposal but has one successful so they
    // receive half of the rewards.
    harness.record_proposal(0, &vec![0]);
    now += 3600;
    harness.run_epoch_transition(now);
    stake_amount_1 += rewards_per_epoch / 2;
    assert_eq!(
        harness.get_stake_pool(validator_1_address).unwrap().active,
        stake_amount_1
    );
}

#[test]
fn test_staking_rewards_pending_inactive() {
    let mut harness = new_engine(1141, 0);
    let validator_address: u64 = 0x123;

    // Initialize the validator.
    let stake_amount: u64 = 100_000_000;
    setup_staking(&mut harness, validator_address, stake_amount);
    let mut now: u64 = 1_000;
    harness.run_epoch_transition(now);

    // Validator requests to leave.
    assert_eq!(harness.leave_validator_set(validator_address), Ok(()));
    assert_eq!(
        harness.get_validator_set().pending_inactive[0].account_address,
        validator_address
    );

    // Validator proposes a block in the current epoch and should receive
    // rewards despite being pending_inactive.
    harness.record_proposal(0, &vec![]);
    now += 3600;
    harness.run_epoch_transition(now);
    assert_eq!(
        harness.get_stake_pool(validator_address).unwrap().active,
        stake_amount + 1141
    );
}
