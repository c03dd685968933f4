use vstd::prelude::*;

use crate::math::{apply_reward_index, indexed_reward, pending_reward, pending_reward_spec, Decimal};

verus! {

/// Parameters a stake manager is created with.
#[derive(Clone, Debug, PartialEq, Eq)]
pub struct InstantiateMsg {
    /// The base staking denom (e.g. "uatom").
    pub staking_denom: String,
    /// Address of the owner.
    pub owner: String,
    /// The validator whose receipt tokens the pool accepts.
    pub validator: String,
    /// Optional bound on the total shares of the pool.
    pub max_cap: Option<u128>,
    /// Code id of the voting-locker program.
    pub locker_code_id: u64,
}

/// Operations of the stake manager.
#[derive(Clone, Debug, PartialEq, Eq)]
pub enum ExecuteMsg {
    /// Deposit receipt tokens; they are redeemed into the pool's delegation.
    DepositLsmShares {},
    /// Claim the caller's accumulated reward.
    ClaimRewards {},
    /// Add tokens to the reward pool.
    DepositRewards {},
    /// Withdraw staked tokens as a receipt token.
    Withdraw { amount: u128, validator: String },
    /// Change the owner or the cap (owner only).
    UpdateConfig { owner: Option<String>, max_cap: Option<u128> },
    /// Spawn the voting lockers of a proposal (owner only); pauses the pool.
    CreateVotingLockers { proposal_id: u64 },
    /// Dissolve the voting lockers of a proposal (owner only).
    DestroyVotingLockers { proposal_id: u64 },
    /// Receipt tokens handed back by a voting locker.
    ReturnLsmShares { proposal_id: u64, vote_option: i32 },
    /// Pay to add weight to one locker of a proposal.
    RentVotingPower { proposal_id: u64, vote_option: i32 },
}

/// Queries of the stake manager.
#[derive(Clone, Debug, PartialEq, Eq)]
pub enum QueryMsg {
    Config {},
    StakerInfo { address: String },
    TotalStaked {},
    RewardIndex {},
    Stakers { start_after: Option<String>, limit: Option<u32> },
}

#[derive(Clone, Debug, PartialEq, Eq)]
pub struct ConfigResponse {
    pub owner: String,
    pub staking_denom: String,
    pub validator: String,
    pub max_cap: Option<u128>,
    pub locker_code_id: u64,
    pub total_staked: u128,
    pub global_reward_index: Decimal,
    pub is_paused: bool,
}

/// The two parts of a receipt-token denom `{validator}/{record_id}`.
#[derive(Clone, Debug, PartialEq, Eq)]
pub struct LsmShareInfo {
    pub validator: String,
    pub record_id: String,
}

/// The lockers spawned for one governance proposal.
#[derive(Clone, Debug, PartialEq, Eq)]
pub struct VotingSession {
    pub proposal_id: u64,
    /// (vote option, locker address) pairs, fixed at creation.
    pub locker_addresses: Vec<(i32, String)>,
    pub is_active: bool,
}

#[derive(Clone, Debug, PartialEq, Eq)]
pub struct StakerInfoResponse {
    pub address: String,
    pub staked_amount: u128,
    pub reward_index: Decimal,
    pub pending_rewards: u128,
}

#[derive(Clone, Debug, PartialEq, Eq)]
pub struct TotalStakedResponse {
    pub total_staked: u128,
}

#[derive(Clone, Debug, PartialEq, Eq)]
pub struct RewardIndexResponse {
    pub global_reward_index: Decimal,
}

#[derive(Clone, Debug, PartialEq, Eq)]
pub struct StakersResponse {
    pub stakers: Vec<StakerInfoResponse>,
}

/// The record of one depositor.
#[derive(Clone, Copy, Debug, PartialEq, Eq, Structural)]
pub struct Staker {
    /// Shares held by this depositor.
    pub staked_amount: u128,
    /// Reward index at this depositor's last settlement.
    pub reward_index: Decimal,
}

impl Staker {
    pub fn new() -> (r: Staker)
        ensures
            r.staked_amount == 0,
            r.reward_index.atomics == 0,
    {
        Staker { staked_amount: 0, reward_index: Decimal::zero() }
    }

    /// Reward owed to this depositor at `global_index`:
    /// `floor(shares * (global_index - snapshot))`, zero when negative.
    pub open spec fn pending_at(&self, global_index: Decimal) -> int {
        pending_reward_spec(
            self.staked_amount as int,
            global_index.atomics as int,
            self.reward_index.atomics as int,
        )
    }

    /// The reward owed at `global_index`, which must fit in 128 bits.
    pub fn calculate_pending_rewards(&self, global_index: Decimal) -> (r: u128)
        requires
            self.pending_at(global_index) <= u128::MAX,
        ensures
            r == self.pending_at(global_index),
    {
        pending_reward(self.staked_amount, global_index, self.reward_index).unwrap()
    }

    /// The reward owed at `global_index`; nothing when it does not fit in 128
    /// bits.
    pub fn checked_pending_rewards(&self, global_index: Decimal) -> (r: Option<u128>)
        ensures
            self.pending_at(global_index) <= u128::MAX ==> r == Some(self.pending_at(global_index) as u128),
            self.pending_at(global_index) > u128::MAX ==> r is None,
    {
        pending_reward(self.staked_amount, global_index, self.reward_index)
    }

    /// Settles this record at `global_index`.
    pub fn update_index(&mut self, global_index: Decimal)
        ensures
            final(self).reward_index == global_index,
            final(self).staked_amount == old(self).staked_amount,
    {
        self.reward_index = global_index;
    }
}

/// Configuration of a stake manager.
#[derive(Clone, Debug, PartialEq, Eq)]
pub struct Config {
    pub owner: String,
    pub staking_denom: String,
    pub validator: String,
    pub max_cap: Option<u128>,
    pub locker_code_id: u64,
}

/// Pool aggregate.
#[derive(Clone, Copy, Debug, PartialEq, Eq, Structural)]
pub struct State {
    /// Total shares of all depositors.
    pub total_staked: u128,
    /// Cumulative reward per share.
    pub global_reward_index: Decimal,
}

impl State {
    pub fn new() -> (r: State)
        ensures
            r.total_staked == 0,
            r.global_reward_index.atomics == 0,
    {
        State { total_staked: 0, global_reward_index: Decimal::zero() }
    }

    /// Spreads `reward_amount` over the pool's shares: the index grows by
    /// `reward_amount / total_staked`, saturating; nothing happens without
    /// shares.
    pub fn add_rewards(&mut self, reward_amount: u128)
        ensures
            final(self).total_staked == old(self).total_staked,
            final(self).global_reward_index.atomics == indexed_reward(
                old(self).global_reward_index.atomics as int,
                reward_amount as int,
                old(self).total_staked as int,
            ),
            final(self).global_reward_index.atomics >= old(self).global_reward_index.atomics,
    {
        self.global_reward_index = apply_reward_index(
            self.global_reward_index,
            reward_amount,
            self.total_staked,
        );
    }
}

} // verus!
