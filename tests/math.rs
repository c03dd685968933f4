use lsm_staking::math::{apply_reward_index, pending_reward, shares_to_tokens, tokens_to_shares, Decimal};

#[test]
fn tokens_to_shares_rounds_up_after_slash() {
    // delegated 999 behind 1000 shares: ceil(100 * 1000 / 999) = 101
    assert_eq!(tokens_to_shares(100, 1000, 999, 1000), Some(101));
}

#[test]
fn tokens_to_shares_exact_division_does_not_round() {
    assert_eq!(tokens_to_shares(100, 1000, 1000, 1000), Some(100));
    assert_eq!(tokens_to_shares(50, 1000, 500, 1000), Some(100));
}

#[test]
fn tokens_to_shares_takes_all_without_delegation() {
    assert_eq!(tokens_to_shares(100, 1000, 0, 37), Some(37));
}

#[test]
fn tokens_to_shares_overflow_is_none() {
    assert_eq!(tokens_to_shares(u128::MAX, u128::MAX, 1, 0), None);
}

#[test]
fn shares_to_tokens_floors() {
    // 100 shares of 1000 with 999 delegated: floor(99.9) = 99
    assert_eq!(shares_to_tokens(100, 999, 1000), Some(99));
    assert_eq!(shares_to_tokens(1000, 999, 1000), Some(999));
}

#[test]
fn shares_to_tokens_without_shares_is_zero() {
    assert_eq!(shares_to_tokens(100, 999, 0), Some(0));
}

#[test]
fn shares_to_tokens_uses_wide_product() {
    assert_eq!(shares_to_tokens(u128::MAX, u128::MAX, u128::MAX), Some(u128::MAX));
}

#[test]
fn shares_to_tokens_overflow_is_none() {
    assert_eq!(shares_to_tokens(u128::MAX, u128::MAX, 1), None);
}

#[test]
fn apply_reward_index_adds_ratio() {
    let index = apply_reward_index(Decimal::zero(), 100, 1000);
    assert_eq!(index.atomics(), 100_000_000_000_000_000);
    let index = apply_reward_index(index, 50, 1000);
    assert_eq!(index.atomics(), 150_000_000_000_000_000);
}

#[test]
fn apply_reward_index_saturates_on_huge_ratio() {
    let index = apply_reward_index(Decimal::zero(), u128::MAX, 1);
    assert_eq!(index.atomics(), u128::MAX);
}

#[test]
fn pending_reward_on_thousand_shares() {
    let index = apply_reward_index(Decimal::zero(), 100, 1000);
    assert_eq!(pending_reward(1000, index, Decimal::zero()), Some(100));
    assert_eq!(pending_reward(1000, index, index), Some(0));
}

#[test]
fn decimal_from_ratio_tenth() {
    assert_eq!(Decimal::from_ratio(1, 10).atomics(), 100_000_000_000_000_000);
    assert_eq!(Decimal::from_ratio(100, 1000), Decimal::from_ratio(1, 10));
}

#[test]
fn pending_reward_overflow_is_none() {
    let index = Decimal::from_ratio(2, 1);
    assert_eq!(pending_reward(u128::MAX, index, Decimal::zero()), None);
}
