use vstd::prelude::*;

use crate::denom::{find_receipt, is_receipt_of, parse_denom_spec, parse_receipt_denom, DenomError};
use crate::gov::{status_name, ProposalLookup, STATUS_VOTING_PERIOD};
use crate::ledger::{Coin, Command, Env, MessageInfo, Response, SubMsg};
use crate::locker_types::{Config, InstantiateMsg, LsmShareInfo, State};
use crate::lsm_types;
use crate::staking::is_single_receipt;

verus! {

/// Continuation run after the locker's reward withdrawal.
pub const REPLY_CLAIM_REWARDS: u64 = 1;

/// Continuation run after the locker's tokenization.
pub const REPLY_TOKENIZE_SHARES: u64 = 2;

/// Denom the locker's reward is paid in and its delegation counted in.
pub const REWARD_DENOM: &'static str = "uatom";

/// Low-level failures.
#[derive(Clone, Copy, Debug, PartialEq, Eq, Structural)]
pub enum StdError {
    /// An amount left the range of its type.
    Overflow,
}

/// Errors of a voting locker.
#[derive(Clone, Debug, PartialEq, Eq)]
pub enum ContractError {
    Std(StdError),
    Unauthorized {},
    InvalidLsmShares { reason: String },
    ValidatorNotFound { validator: String },
    InvalidValidator { validator: String, expected: String },
    ZeroAmount {},
    ProposalNotFinished { proposal_id: u64 },
    NoDelegations {},
    ProposalNotInVoting { proposal_id: u64, status: String },
}

/// Everything a voting locker keeps.
#[derive(Clone, Debug, PartialEq, Eq)]
pub struct Locker {
    pub config: Config,
    pub state: State,
}

/// Fails unless the validator was found on the ledger.
pub fn verify_validator_exists(found: bool, validator: &String) -> (r: Result<(), ContractError>)
    ensures
        found ==> r is Ok,
        !found ==> r == Err::<(), ContractError>(ContractError::ValidatorNotFound { validator: *validator }),
{
    if found {
        Ok(())
    } else {
        Err(ContractError::ValidatorNotFound { validator: validator.clone() })
    }
}

/// The error for a proposal that cannot be voted on: `ProposalNotInVoting`
/// for a status other than voting period, `InvalidLsmShares` when the ledger
/// gave no usable answer.
pub open spec fn voting_error(proposal_id: u64, lookup: ProposalLookup, e: ContractError) -> bool {
    match lookup {
        ProposalLookup::Answered(Some(_)) => e matches ContractError::ProposalNotInVoting { proposal_id: id, .. }
            && id == proposal_id,
        _ => e is InvalidLsmShares,
    }
}

/// Fails unless the proposal is in its voting period.
pub fn verify_proposal_in_voting(proposal_id: u64, lookup: ProposalLookup) -> (r: Result<(), ContractError>)
    ensures
        r is Ok <==> lookup == ProposalLookup::Answered(Some(STATUS_VOTING_PERIOD)),
        r matches Err(e) ==> voting_error(proposal_id, lookup, e),
{
    match lookup {
        ProposalLookup::Unavailable => Err(
            ContractError::InvalidLsmShares { reason: String::from_str("Failed to query proposal") },
        ),
        ProposalLookup::Malformed => Err(
            ContractError::InvalidLsmShares {
                reason: String::from_str("Failed to decode proposal query response"),
            },
        ),
        ProposalLookup::Answered(None) => Err(
            ContractError::InvalidLsmShares { reason: String::from_str("Proposal not found") },
        ),
        ProposalLookup::Answered(Some(status)) => {
            if status == STATUS_VOTING_PERIOD {
                Ok(())
            } else {
                Err(ContractError::ProposalNotInVoting { proposal_id, status: status_name(status) })
            }
        },
    }
}

/// Creates a locker for one option of a proposal and casts its vote; the
/// vote's weight is tallied later from the live delegation.
/// `validator_found` tells whether the ledger knows the validator, `lookup`
/// what it answered for the proposal.
pub fn instantiate(env: &Env, msg: InstantiateMsg, validator_found: bool, lookup: ProposalLookup) -> (r: Result<
    (Locker, Response),
    ContractError,
>)
    ensures
        !validator_found ==> r == Err::<(Locker, Response), ContractError>(
            ContractError::ValidatorNotFound { validator: msg.validator },
        ),
        validator_found && lookup != ProposalLookup::Answered(Some(STATUS_VOTING_PERIOD)) ==> (r matches Err(e)
            && voting_error(msg.proposal_id, lookup, e)),
        r is Ok <==> validator_found && lookup == ProposalLookup::Answered(Some(STATUS_VOTING_PERIOD)),
        r matches Ok((l, resp)) ==> {
            &&& l.config == (Config {
                proposal_id: msg.proposal_id,
                vote_option: msg.vote_option,
                validator: msg.validator,
                manager: msg.manager,
            })
            &&& l.state.total_staked == 0
            &&& !l.state.has_voted
            &&& resp.messages@ == seq![
                SubMsg {
                    msg: Command::Vote {
                        voter: env.contract_address,
                        proposal_id: msg.proposal_id,
                        option: msg.vote_option,
                    },
                    reply_on_success: None,
                },
            ]
        },
{
    verify_validator_exists(validator_found, &msg.validator)?;
    verify_proposal_in_voting(msg.proposal_id, lookup)?;
    let proposal_id = msg.proposal_id;
    let vote_option = msg.vote_option;
    let l = Locker {
        config: Config {
            proposal_id,
            vote_option,
            validator: msg.validator,
            manager: msg.manager,
        },
        state: State::new(),
    };
    let mut resp = Response::new();
    resp.add_message(
        Command::Vote { voter: env.contract_address.clone(), proposal_id, option: vote_option },
    );
    proof {
        assert(resp.messages@ =~= seq![
            SubMsg {
                msg: Command::Vote {
                    voter: env.contract_address,
                    proposal_id: msg.proposal_id,
                    option: msg.vote_option,
                },
                reply_on_success: None,
            },
        ]);
    }
    Ok((l, resp))
}

/// Maps a refused receipt denom to the locker's error.
fn denom_error(e: DenomError) -> (r: ContractError)
    ensures
        r matches ContractError::InvalidLsmShares { .. },
{
    match e {
        DenomError::Format => ContractError::InvalidLsmShares {
            reason: String::from_str("Invalid LSM denom format. Expected 'validator/record_id'"),
        },
        DenomError::Validator => ContractError::InvalidLsmShares {
            reason: String::from_str("Invalid validator address format. Expected valoper address"),
        },
        DenomError::RecordId => ContractError::InvalidLsmShares {
            reason: String::from_str("Invalid record_id. Expected numeric value"),
        },
    }
}

/// Parses a receipt denom `{validator}/{record_id}`.
pub fn parse_lsm_denom(lsm_denom: &str) -> (r: Result<LsmShareInfo, ContractError>)
    ensures
        r matches Ok(info) ==> parse_denom_spec(lsm_denom@) == Ok::<(Seq<char>, Seq<char>), DenomError>(
            (info.validator@, info.record_id@),
        ),
        r is Err ==> parse_denom_spec(lsm_denom@) is Err,
        r matches Err(e) ==> e matches ContractError::InvalidLsmShares { .. },
{
    match parse_receipt_denom(lsm_denom) {
        Ok((validator, record_id)) => Ok(LsmShareInfo { validator, record_id }),
        Err(e) => Err(denom_error(e)),
    }
}

/// The locker's error for a refused receipt transfer, of the same kind as the
/// manager's.
pub open spec fn locker_receipt_error(info: MessageInfo, validator: Seq<char>, e: ContractError) -> bool {
    if info.funds@.len() != 1 {
        e is InvalidLsmShares
    } else if info.funds@[0].amount == 0 {
        e is ZeroAmount
    } else if parse_denom_spec(info.funds@[0].denom@) is Err {
        e is InvalidLsmShares
    } else {
        e is InvalidValidator
    }
}

/// Adds receipt tokens to the locker's weight (manager only) and redeems
/// them into the locker's delegation.
pub fn execute_deposit_lsm_shares(l: &mut Locker, env: &Env, info: &MessageInfo) -> (r: Result<
    Response,
    ContractError,
>)
    ensures
        info.sender@ != old(l).config.manager@ ==> r == Err::<Response, ContractError>(
            ContractError::Unauthorized {},
        ),
        info.sender@ == old(l).config.manager@ && !is_single_receipt(*info, old(l).config.validator@) ==> (r
            matches Err(e) && locker_receipt_error(*info, old(l).config.validator@, e)),
        info.sender@ == old(l).config.manager@ && is_single_receipt(*info, old(l).config.validator@)
            && old(l).state.total_staked + info.funds@[0].amount > u128::MAX ==> r == Err::<Response, ContractError>(
            ContractError::Std(StdError::Overflow),
        ),
        r is Ok <==> info.sender@ == old(l).config.manager@ && is_single_receipt(*info, old(l).config.validator@)
            && old(l).state.total_staked + info.funds@[0].amount <= u128::MAX,
        r is Err ==> *final(l) == *old(l),
        r matches Ok(resp) ==> {
            &&& final(l).config == old(l).config
            &&& final(l).state.total_staked == old(l).state.total_staked + info.funds@[0].amount
            &&& final(l).state.has_voted == old(l).state.has_voted
            &&& resp.messages@ == seq![
                SubMsg {
                    msg: Command::RedeemTokensForShares {
                        delegator: env.contract_address,
                        coin: info.funds@[0],
                    },
                    reply_on_success: None,
                },
            ]
        },
{
    if info.sender != l.config.manager {
        return Err(ContractError::Unauthorized {});
    }
    if info.funds.len() != 1 {
        return Err(ContractError::InvalidLsmShares {
            reason: String::from_str("Must send exactly one token"),
        });
    }
    let lsm_share = &info.funds[0];
    if lsm_share.amount == 0 {
        return Err(ContractError::ZeroAmount {});
    }
    let lsm_info = parse_lsm_denom(lsm_share.denom.as_str())?;
    if lsm_info.validator != l.config.validator {
        return Err(ContractError::InvalidValidator {
            expected: l.config.validator.clone(),
            validator: lsm_info.validator,
        });
    }
    if lsm_share.amount > u128::MAX - l.state.total_staked {
        return Err(ContractError::Std(StdError::Overflow));
    }
    l.state.total_staked = l.state.total_staked + lsm_share.amount;
    let mut resp = Response::new();
    resp.add_message(
        Command::RedeemTokensForShares {
            delegator: env.contract_address.clone(),
            coin: Coin { denom: lsm_share.denom.clone(), amount: lsm_share.amount },
        },
    );
    proof {
        assert(resp.messages@ =~= seq![
            SubMsg {
                msg: Command::RedeemTokensForShares {
                    delegator: env.contract_address,
                    coin: info.funds@[0],
                },
                reply_on_success: None,
            },
        ]);
    }
    Ok(resp)
}

/// Dissolves the locker (manager only): with shares held, the delegation
/// reward is withdrawn (its continuation forwards it to the manager's reward
/// pool) and the whole delegation is tokenized to this locker (its
/// continuation returns the receipt to the manager). Without shares nothing
/// is issued.
pub fn execute_destroy(l: &Locker, env: &Env, info: &MessageInfo) -> (r: Result<Response, ContractError>)
    ensures
        r is Ok <==> info.sender@ == l.config.manager@,
        r is Err ==> r == Err::<Response, ContractError>(ContractError::Unauthorized {}),
        r matches Ok(resp) ==> {
            &&& l.state.total_staked == 0 ==> resp.messages@.len() == 0
            &&& l.state.total_staked != 0 ==> resp.messages@.len() == 2 && resp.messages@[0] == (SubMsg {
                msg: Command::WithdrawDelegatorReward { validator: l.config.validator },
                reply_on_success: Some(REPLY_CLAIM_REWARDS),
            }) && resp.messages@[1].reply_on_success == Some(REPLY_TOKENIZE_SHARES) && (
            resp.messages@[1].msg matches Command::TokenizeShares { delegator, validator, amount, denom, owner }
                && delegator == env.contract_address && validator == l.config.validator && amount
                == l.state.total_staked && denom@ == REWARD_DENOM@ && owner == env.contract_address)
        },
{
    if info.sender != l.config.manager {
        return Err(ContractError::Unauthorized {});
    }
    let mut resp = Response::new();
    if l.state.total_staked != 0 {
        resp.add_submessage(
            Command::WithdrawDelegatorReward { validator: l.config.validator.clone() },
            REPLY_CLAIM_REWARDS,
        );
        resp.add_submessage(
            Command::TokenizeShares {
                delegator: env.contract_address.clone(),
                validator: l.config.validator.clone(),
                amount: l.state.total_staked,
                denom: String::from_str(REWARD_DENOM),
                owner: env.contract_address.clone(),
            },
            REPLY_TOKENIZE_SHARES,
        );
    }
    Ok(resp)
}

/// `sm` calls the manager at `manager` with `msg`, handing over `coin`.
pub open spec fn is_manager_call(sm: SubMsg, manager: String, msg: lsm_types::ExecuteMsg, coin: Coin) -> bool {
    &&& sm.reply_on_success is None
    &&& sm.msg matches Command::ExecuteManager { contract_addr, msg: m, funds } && contract_addr == manager
        && m == msg && funds@ == seq![coin]
}

/// `sm` pays `amount` of the reward denom into the reward pool of the manager
/// at `manager`.
pub open spec fn is_reward_deposit(sm: SubMsg, manager: String, amount: u128) -> bool {
    &&& sm.reply_on_success is None
    &&& sm.msg matches Command::ExecuteManager { contract_addr, msg, funds } && contract_addr == manager
        && msg is DepositRewards && funds@.len() == 1 && funds@[0].denom@ == REWARD_DENOM@
        && funds@[0].amount == amount
}

/// What [`reply_claim_rewards`] answers: nothing for a zero `balance`, else
/// one deposit of it into the manager's reward pool.
pub open spec fn reward_forwarded(l: Locker, balance: u128, r: Response) -> bool {
    &&& balance == 0 ==> r.messages@.len() == 0
    &&& balance != 0 ==> r.messages@.len() == 1 && is_reward_deposit(r.messages@[0], l.config.manager, balance)
}

/// Forwards the reward withdrawn at dissolution to the manager's reward
/// pool, with `balance` the locker's reward-denom balance now; nothing is
/// sent when it is zero.
pub fn reply_claim_rewards(l: &Locker, balance: u128) -> (r: Response)
    ensures
        reward_forwarded(*l, balance, r),
{
    let mut resp = Response::new();
    if balance != 0 {
        let mut coins: Vec<Coin> = Vec::new();
        coins.push(Coin { denom: String::from_str(REWARD_DENOM), amount: balance });
        resp.add_message(
            Command::ExecuteManager {
                contract_addr: l.config.manager.clone(),
                msg: lsm_types::ExecuteMsg::DepositRewards {  },
                funds: coins,
            },
        );
    }
    resp
}

/// What [`reply_tokenize_shares`] does with the locker's `balances`.
pub open spec fn receipt_returned(l: Locker, balances: Vec<Coin>, r: Result<Response, ContractError>) -> bool {
    &&& (forall|j: int|
        0 <= j < balances@.len() ==> !is_receipt_of(#[trigger] balances@[j].denom@, l.config.validator@))
        ==> (r matches Err(ContractError::InvalidLsmShares { .. }))
    &&& (exists|j: int|
        0 <= j < balances@.len() && is_receipt_of(#[trigger] balances@[j].denom@, l.config.validator@)) ==> r is Ok
    &&& r matches Ok(resp) ==> resp.messages@.len() == 1 && exists|j: int|
        0 <= j < balances@.len() && is_receipt_of(balances@[j].denom@, l.config.validator@) && (forall|k: int|
            0 <= k < j ==> !is_receipt_of(#[trigger] balances@[k].denom@, l.config.validator@)) && is_manager_call(
            resp.messages@[0],
            l.config.manager,
            lsm_types::ExecuteMsg::ReturnLsmShares {
                proposal_id: l.config.proposal_id,
                vote_option: l.config.vote_option,
            },
            balances@[j],
        )
}

/// Returns the receipt token made at dissolution to the manager's
/// `ReturnLsmShares` for this locker's proposal and option: the first coin
/// of `balances` (the locker's balances now) whose denom starts with
/// `{validator}/`.
pub fn reply_tokenize_shares(l: &Locker, balances: &Vec<Coin>) -> (r: Result<Response, ContractError>)
    ensures
        receipt_returned(*l, *balances, r),
{
    let j = match find_receipt(balances, &l.config.validator) {
        Some(j) => j,
        None => {
            return Err(
                ContractError::InvalidLsmShares {
                    reason: String::from_str("No LSM share found for validator after tokenization"),
                },
            );
        },
    };
    let mut coins: Vec<Coin> = Vec::new();
    coins.push(Coin { denom: balances[j].denom.clone(), amount: balances[j].amount });
    let mut resp = Response::new();
    resp.add_message(
        Command::ExecuteManager {
            contract_addr: l.config.manager.clone(),
            msg: lsm_types::ExecuteMsg::ReturnLsmShares {
                proposal_id: l.config.proposal_id,
                vote_option: l.config.vote_option,
            },
            funds: coins,
        },
    );
    proof {
        assert(is_receipt_of(balances@[j as int].denom@, l.config.validator@));
        assert(coins@ =~= seq![balances@[j as int]]);
    }
    Ok(resp)
}

/// The continuation handler: routes the outcome of command `id`, with
/// `balances` the locker's balances now. An unknown id is refused.
pub fn reply(l: &Locker, id: u64, balances: &Vec<Coin>) -> (r: Result<Response, ContractError>)
    ensures
        id == REPLY_CLAIM_REWARDS ==> (r matches Ok(resp) && reward_forwarded(
            *l,
            crate::staking::amount_in(balances@, REWARD_DENOM@),
            resp,
        )),
        id == REPLY_TOKENIZE_SHARES ==> receipt_returned(*l, *balances, r),
        id != REPLY_CLAIM_REWARDS && id != REPLY_TOKENIZE_SHARES ==> (r matches Err(
            ContractError::InvalidLsmShares { .. },
        )),
{
    if id == REPLY_CLAIM_REWARDS {
        let reward_denom = String::from_str(REWARD_DENOM);
        let balance = match crate::staking::find_first_amount(balances, &reward_denom) {
            Some(k) => balances[k].amount,
            None => 0,
        };
        Ok(reply_claim_rewards(l, balance))
    } else if id == REPLY_TOKENIZE_SHARES {
        reply_tokenize_shares(l, balances)
    } else {
        Err(ContractError::InvalidLsmShares { reason: String::from_str("Unknown reply ID") })
    }
}

/// The locker's configuration and weight.
pub fn query_config(l: &Locker) -> (r: crate::locker_types::ConfigResponse)
    ensures
        r == (crate::locker_types::ConfigResponse {
            proposal_id: l.config.proposal_id,
            vote_option: l.config.vote_option,
            validator: l.config.validator,
            manager: l.config.manager,
            total_staked: l.state.total_staked,
            has_voted: l.state.has_voted,
        }),
{
    crate::locker_types::ConfigResponse {
        proposal_id: l.config.proposal_id,
        vote_option: l.config.vote_option,
        validator: l.config.validator.clone(),
        manager: l.config.manager.clone(),
        total_staked: l.state.total_staked,
        has_voted: l.state.has_voted,
    }
}

/// The locker's voting weight.
pub fn query_total_voting_power(l: &Locker) -> (r: crate::locker_types::TotalVotingPowerResponse)
    ensures
        r.total_staked == l.state.total_staked,
{
    crate::locker_types::TotalVotingPowerResponse { total_staked: l.state.total_staked }
}

} // verus!
