use vstd::arithmetic::div_mod::{
    lemma_div_is_ordered, lemma_div_multiples_vanish, lemma_div_multiples_vanish_fancy,
    lemma_fundamental_div_mod,
};
use vstd::arithmetic::mul::{lemma_mul_inequality, lemma_mul_is_commutative};
use vstd::prelude::*;

verus! {

/// Number of atomic units in one whole unit of a [`Decimal`].
pub const DECIMAL_FRACTIONAL: u128 = 1_000_000_000_000_000_000;

/// A non-negative fixed-point number with 18 decimal places, held as its
/// atomic units: the value is `atomics / 10^18`.
#[derive(Clone, Copy, Debug, PartialEq, Eq, Structural)]
pub struct Decimal {
    pub atomics: u128,
}

/// `a / d` rounded up.
pub open spec fn ceil_div(a: int, d: int) -> int
    recommends
        d > 0,
{
    (a + d - 1) / d
}

/// `value * num / den` rounded down, or nothing when `den` is zero or the
/// quotient does not fit in 128 bits.
pub open spec fn mul_div_floor(value: int, num: int, den: int) -> Option<u128> {
    if den != 0 && value * num / den <= u128::MAX {
        Some((value * num / den) as u128)
    } else {
        None
    }
}

/// `value * num / den` rounded up, or nothing when `den` is zero or the
/// quotient does not fit in 128 bits.
pub open spec fn mul_div_ceil(value: int, num: int, den: int) -> Option<u128> {
    if den != 0 && ceil_div(value * num, den) <= u128::MAX {
        Some(ceil_div(value * num, den) as u128)
    } else {
        None
    }
}

/// Relies on cosmwasm_std's `Uint128::checked_multiply_ratio`: the product is
/// taken in 256 bits and divided with the result floored; it fails on a zero
/// denominator and on a quotient beyond `u128`.
#[verifier::external_body]
fn multiply_ratio(value: u128, num: u128, den: u128) -> (r: Option<u128>)
    ensures
        r == mul_div_floor(value as int, num as int, den as int),
{
    cosmwasm_std::Uint128::new(value).checked_multiply_ratio(num, den).ok().map(|v| v.u128())
}

/// Relies on cosmwasm_std's `Uint128::checked_mul_ceil` with the fraction
/// `(num, den)`: the product is taken in 256 bits and divided with the result
/// rounded up; it fails on a zero denominator and on a result beyond `u128`.
#[verifier::external_body]
fn multiply_ratio_ceil(value: u128, num: u128, den: u128) -> (r: Option<u128>)
    ensures
        r == mul_div_ceil(value as int, num as int, den as int),
{
    let fraction = (cosmwasm_std::Uint128::new(num), cosmwasm_std::Uint128::new(den));
    cosmwasm_std::Uint128::new(value).checked_mul_ceil(fraction).ok().map(|v| v.u128())
}

impl Decimal {
    pub fn zero() -> (r: Decimal)
        ensures
            r.atomics == 0,
    {
        Decimal { atomics: 0 }
    }

    pub fn atomics(&self) -> (r: u128)
        ensures
            r == self.atomics,
    {
        self.atomics
    }

    /// The decimal `num / den`, rounded down to 18 places.
    pub fn from_ratio(num: u128, den: u128) -> (r: Decimal)
        requires
            den != 0,
            num * (DECIMAL_FRACTIONAL as int) / (den as int) <= u128::MAX,
        ensures
            r.atomics == num * (DECIMAL_FRACTIONAL as int) / (den as int),
    {
        let q = multiply_ratio(num, DECIMAL_FRACTIONAL, den);
        Decimal { atomics: q.unwrap() }
    }
}

/// Tokens that `shares` are worth when `total_shares` shares stand for
/// `delegated` tokens.
pub open spec fn shares_to_tokens_spec(shares: int, delegated: int, total_shares: int) -> int {
    if total_shares == 0 {
        0
    } else {
        shares * delegated / total_shares
    }
}

/// Converts shares into tokens, rounding down: `floor(shares * delegated /
/// total_shares)`, computed without intermediate overflow, and 0 when there
/// are no shares at all. Nothing is returned when the result exceeds `u128`.
pub fn shares_to_tokens(shares: u128, delegated: u128, total_shares: u128) -> (r: Option<u128>)
    ensures
        shares_to_tokens_spec(shares as int, delegated as int, total_shares as int) <= u128::MAX
            ==> r == Some(shares_to_tokens_spec(shares as int, delegated as int, total_shares as int) as u128),
        shares_to_tokens_spec(shares as int, delegated as int, total_shares as int) > u128::MAX
            ==> r is None,
{
    if total_shares == 0 {
        Some(0)
    } else {
        multiply_ratio(shares, delegated, total_shares)
    }
}

/// Shares to burn for `tokens` when `total_shares` shares stand for
/// `delegated` tokens: `ceil(tokens * total_shares / delegated)`, or all of
/// `held_shares` when nothing is delegated.
pub open spec fn tokens_to_shares_spec(tokens: int, total_shares: int, delegated: int, held_shares: int) -> int {
    if delegated == 0 {
        held_shares
    } else {
        ceil_div(tokens * total_shares, delegated)
    }
}

/// Converts tokens into the shares that must be burnt for them, rounding up
/// so that a withdrawer never gets more tokens than the shares given up are
/// worth. When nothing is delegated, all `held_shares` are taken. Nothing is
/// returned when the result exceeds `u128`.
pub fn tokens_to_shares(tokens: u128, total_shares: u128, delegated: u128, held_shares: u128) -> (r: Option<u128>)
    ensures
        tokens_to_shares_spec(tokens as int, total_shares as int, delegated as int, held_shares as int) <= u128::MAX
            ==> r == Some(tokens_to_shares_spec(tokens as int, total_shares as int, delegated as int, held_shares as int) as u128),
        tokens_to_shares_spec(tokens as int, total_shares as int, delegated as int, held_shares as int) > u128::MAX
            ==> r is None,
{
    if delegated == 0 {
        Some(held_shares)
    } else {
        multiply_ratio_ceil(tokens, total_shares, delegated)
    }
}

/// The reward index after `reward` tokens are spread over `total_shares`
/// shares: the old index plus `reward / total_shares` (rounded down to 18
/// places), held at the largest representable index instead of overflowing.
/// Without shares the index stays.
pub open spec fn indexed_reward(index: int, reward: int, total_shares: int) -> int {
    if total_shares == 0 {
        index
    } else if index + reward * (DECIMAL_FRACTIONAL as int) / total_shares > u128::MAX {
        u128::MAX as int
    } else {
        index + reward * (DECIMAL_FRACTIONAL as int) / total_shares
    }
}

/// Adds `reward` spread over `total_shares` to `index` (see [`indexed_reward`]).
pub fn apply_reward_index(index: Decimal, reward: u128, total_shares: u128) -> (r: Decimal)
    ensures
        r.atomics == indexed_reward(index.atomics as int, reward as int, total_shares as int),
        r.atomics >= index.atomics,
{
    if total_shares == 0 {
        return index;
    }
    match multiply_ratio(reward, DECIMAL_FRACTIONAL, total_shares) {
        Some(per_share) => {
            if per_share > u128::MAX - index.atomics {
                Decimal { atomics: u128::MAX }
            } else {
                Decimal { atomics: index.atomics + per_share }
            }
        },
        None => Decimal { atomics: u128::MAX },
    }
}

/// Reward owed on `shares` for the index growing from `snapshot` to `index`:
/// `floor(shares * (index - snapshot))`, with a negative difference counted as
/// zero.
pub open spec fn pending_reward_spec(shares: int, index: int, snapshot: int) -> int {
    let diff = if index > snapshot { index - snapshot } else { 0 };
    shares * diff / (DECIMAL_FRACTIONAL as int)
}

/// Computes [`pending_reward_spec`]; nothing when it does not fit in 128
/// bits.
pub fn pending_reward(shares: u128, index: Decimal, snapshot: Decimal) -> (r: Option<u128>)
    ensures
        pending_reward_spec(shares as int, index.atomics as int, snapshot.atomics as int) <= u128::MAX ==> r
            == Some(pending_reward_spec(shares as int, index.atomics as int, snapshot.atomics as int) as u128),
        pending_reward_spec(shares as int, index.atomics as int, snapshot.atomics as int) > u128::MAX ==> r is None,
{
    let diff: u128 = if index.atomics > snapshot.atomics {
        index.atomics - snapshot.atomics
    } else {
        0
    };
    multiply_ratio(shares, diff, DECIMAL_FRACTIONAL)
}

/// Part of the shares is worth at most the whole delegation.
pub proof fn lemma_share_value_bounded(shares: int, delegated: int, total_shares: int)
    requires
        0 <= shares <= total_shares,
        0 < total_shares,
        0 <= delegated,
    ensures
        shares * delegated / total_shares <= delegated,
{
    lemma_mul_inequality(shares, total_shares, delegated);
    lemma_div_is_ordered(shares * delegated, total_shares * delegated, total_shares);
    lemma_mul_is_commutative(total_shares, delegated);
    lemma_div_multiples_vanish(delegated, total_shares);
}

/// Burning shares, rounded up, for no more tokens than the shares are worth
/// takes no more than the shares held.
pub proof fn lemma_burn_within_holding(amount: int, shares: int, delegated: int, total_shares: int)
    requires
        0 <= shares,
        0 < total_shares,
        0 < delegated,
        0 <= amount <= shares * delegated / total_shares,
    ensures
        ceil_div(amount * total_shares, delegated) <= shares,
{
    let q = shares * delegated / total_shares;
    lemma_fundamental_div_mod(shares * delegated, total_shares);
    lemma_mul_inequality(amount, q, total_shares);
    lemma_mul_is_commutative(q, total_shares);
    assert(amount * total_shares <= shares * delegated);
    lemma_div_is_ordered(
        amount * total_shares + delegated - 1,
        shares * delegated + delegated - 1,
        delegated,
    );
    lemma_mul_is_commutative(shares, delegated);
    lemma_div_multiples_vanish_fancy(shares, delegated - 1, delegated);
}

} // verus!
