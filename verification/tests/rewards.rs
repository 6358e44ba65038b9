use staking::reward::{reward, ProposalRecord};

fn record(successful_proposals: u32, failed_proposals: u32) -> ProposalRecord {
    ProposalRecord {
        successful_proposals,
        failed_proposals,
    }
}

#[test]
fn test_reward_exact_values() {
    // One success out of two turns halves the budget, floored.
    assert_eq!(reward(&record(1, 1), 1141), 570);
    // A perfect epoch earns the whole budget.
    assert_eq!(reward(&record(1, 0), 1141), 1141);
    assert_eq!(reward(&record(5, 0), 1141), 1141);
    // Floor division: 10 * 3 / 4.
    assert_eq!(reward(&record(3, 1), 10), 7);
    assert_eq!(reward(&record(2, 1), 900), 600);
}

#[test]
fn test_reward_zero_without_success() {
    assert_eq!(reward(&record(0, 0), 1141), 0);
    assert_eq!(reward(&record(0, 7), 1141), 0);
    assert_eq!(reward(&ProposalRecord::zero(), u64::MAX), 0);
}

#[test]
fn test_reward_monotone_in_successes() {
    for f in [0u32, 1, 5, 100] {
        let mut prev = 0u64;
        for s in 0u32..50 {
            let r = reward(&record(s, f), 1141);
            assert!(r >= prev);
            prev = r;
        }
    }
}

#[test]
fn test_reward_no_overflow_on_extremes() {
    // The 128-bit intermediate keeps the extreme case exact.
    assert_eq!(reward(&record(u32::MAX, 0), u64::MAX), u64::MAX);
    let r = reward(&record(u32::MAX - 1, 1), u64::MAX);
    assert!(r < u64::MAX);
}
