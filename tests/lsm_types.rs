use lsm_staking::lsm_types::{Staker, State};
use lsm_staking::math::Decimal;

#[test]
fn test_staker_calculate_rewards() {
    let mut staker = Staker::new();
    staker.staked_amount = 1000;

    // Global index increased by 0.1 (0.1 tokens of reward per share)
    let global_index = Decimal::from_ratio(1, 10);
    let rewards = staker.calculate_pending_rewards(global_index);

    // Expected: 1000 * 0.1 = 100
    assert_eq!(rewards, 100);

    // After updating the index, nothing is pending
    staker.update_index(global_index);
    let rewards_after = staker.calculate_pending_rewards(global_index);
    assert_eq!(rewards_after, 0);
}

#[test]
fn test_state_add_rewards() {
    let mut state = State::new();
    state.total_staked = 1000;

    // Add 100 tokens as rewards
    state.add_rewards(100);

    // Expected: 100 / 1000 = 0.1
    let expected = Decimal::from_ratio(1, 10);
    assert_eq!(state.global_reward_index, expected);
}

#[test]
fn add_rewards_without_shares_leaves_index() {
    let mut state = State::new();
    state.add_rewards(100);
    assert_eq!(state.global_reward_index, Decimal::zero());
}

#[test]
fn add_rewards_rounds_per_share_down() {
    let mut state = State::new();
    state.total_staked = 3;
    state.add_rewards(1);
    // 1/3 to 18 places
    assert_eq!(state.global_reward_index.atomics(), 333_333_333_333_333_333);
}

#[test]
fn add_rewards_saturates_at_largest_index() {
    let mut state = State::new();
    state.total_staked = 1;
    state.global_reward_index = Decimal { atomics: u128::MAX - 5 };
    state.add_rewards(1);
    assert_eq!(state.global_reward_index.atomics(), u128::MAX);
}

#[test]
fn pending_reward_is_zero_when_index_below_snapshot() {
    let staker = Staker { staked_amount: 1000, reward_index: Decimal::from_ratio(2, 10) };
    assert_eq!(staker.calculate_pending_rewards(Decimal::from_ratio(1, 10)), 0);
}

#[test]
fn pending_reward_floors() {
    // 7 shares at index 0.15: 1.05 rounds down to 1
    let staker = Staker { staked_amount: 7, reward_index: Decimal::zero() };
    assert_eq!(staker.calculate_pending_rewards(Decimal::from_ratio(15, 100)), 1);
}

#[test]
fn pending_reward_uses_wide_product() {
    // shares * index atomics exceeds 128 bits, the result does not
    let staker = Staker { staked_amount: 1u128 << 100, reward_index: Decimal::zero() };
    let index = Decimal::from_ratio(3, 1);
    assert_eq!(staker.calculate_pending_rewards(index), 3u128 << 100);
}

#[test]
fn pending_reward_overflow_is_refused() {
    let staker = Staker { staked_amount: u128::MAX, reward_index: Decimal::zero() };
    let index = Decimal::from_ratio(2, 1);
    assert_eq!(staker.checked_pending_rewards(index), None);
    assert_eq!(staker.checked_pending_rewards(Decimal::from_ratio(1, 2)), Some(u128::MAX / 2));
}
