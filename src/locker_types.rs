use vstd::prelude::*;

verus! {

/// Parameters a voting locker is created with.
#[derive(Clone, Debug, PartialEq, Eq)]
pub struct InstantiateMsg {
    /// The proposal to vote on.
    pub proposal_id: u64,
    /// The option this locker votes for (1 yes, 2 abstain, 3 no, 4 no with veto).
    pub vote_option: i32,
    /// The validator whose receipt tokens the locker accepts.
    pub validator: String,
    /// The only address allowed to deposit and to destroy.
    pub manager: String,
}

/// Operations of a voting locker.
#[derive(Clone, Debug, PartialEq, Eq)]
pub enum ExecuteMsg {
    /// Deposit receipt tokens to add voting weight (manager only).
    DepositLsmShares {},
    /// Hand everything back to the manager (manager only).
    Destroy {},
}

/// Queries of a voting locker.
#[derive(Clone, Debug, PartialEq, Eq)]
pub enum QueryMsg {
    Config {},
    TotalVotingPower {},
}

#[derive(Clone, Debug, PartialEq, Eq)]
pub struct ConfigResponse {
    pub proposal_id: u64,
    pub vote_option: i32,
    pub validator: String,
    pub manager: String,
    pub total_staked: u128,
    pub has_voted: bool,
}

#[derive(Clone, Debug, PartialEq, Eq)]
pub struct TotalVotingPowerResponse {
    pub total_staked: u128,
}

/// Configuration of a voting locker.
#[derive(Clone, Debug, PartialEq, Eq)]
pub struct Config {
    pub proposal_id: u64,
    pub vote_option: i32,
    pub validator: String,
    pub manager: String,
}

/// Mutable part of a voting locker.
#[derive(Clone, Copy, Debug, PartialEq, Eq, Structural)]
pub struct State {
    /// Shares accumulated (the locker's voting weight).
    pub total_staked: u128,
    /// Whether a vote has been recorded; no operation sets it (the vote cast
    /// at creation is not recorded here).
    pub has_voted: bool,
}

impl State {
    pub fn new() -> (r: State)
        ensures
            r.total_staked == 0,
            !r.has_voted,
    {
        State { total_staked: 0, has_voted: false }
    }
}

/// The two parts of a receipt-token denom `{validator}/{record_id}`.
#[derive(Clone, Debug, PartialEq, Eq)]
pub struct LsmShareInfo {
    pub validator: String,
    pub record_id: String,
}

} // verus!
