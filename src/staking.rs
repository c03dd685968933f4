use vstd::prelude::*;

use crate::denom::{find_receipt, is_receipt_of, parse_denom_spec, parse_receipt_denom, DenomError};
use crate::gov::{shows_finished, status_name, ProposalLookup};
use crate::ledger::{Coin, Command, Env, MessageInfo, Response, SubMsg};
use crate::locker_types;
use crate::lsm_types::{Config, InstantiateMsg, LsmShareInfo, Staker, State, VotingSession};
use crate::math::{
    indexed_reward, lemma_burn_within_holding, lemma_share_value_bounded, shares_to_tokens,
    shares_to_tokens_spec, tokens_to_shares, tokens_to_shares_spec, Decimal,
};

verus! {

/// Continuation run after the reward withdrawal of a claim.
pub const REPLY_CLAIM_REWARDS: u64 = 1;

/// Continuation run after the tokenization of a rental.
pub const REPLY_TOKENIZE_SHARES_RENTAL: u64 = 2;

/// Continuation run after the tokenization of a withdrawal.
pub const REPLY_TOKENIZE_SHARES_WITHDRAW: u64 = 3;

/// Voting weight bought per token of rent.
pub const WEIGHT_PER_PAYMENT: u128 = 10;

/// Low-level failures.
#[derive(Clone, Copy, Debug, PartialEq, Eq, Structural)]
pub enum StdError {
    /// A record that should be there is not.
    NotFound,
    /// An amount left the range of its type.
    Overflow,
}

/// Errors of the stake manager.
#[derive(Clone, Debug, PartialEq, Eq)]
pub enum ContractError {
    Std(StdError),
    Unauthorized {},
    InvalidLsmShares { reason: String },
    ValidatorNotFound { validator: String },
    InvalidValidator { validator: String, expected: String },
    InvalidFunds { expected: String },
    InsufficientStakedAmount {},
    NoRewards {},
    ZeroAmount {},
    UnexpectedRewardsAmount { expected: String, actual: String },
    InsufficientBalance { available: u128, required: u128 },
    MaxCapReached { cap: u128, current: u128, attempting: u128 },
    ContractPaused {},
    VotingSessionExists { proposal_id: u64 },
    VotingSessionNotFound { proposal_id: u64 },
    CannotUnpause { active_count: u64 },
    InvalidLocker { sender: String, proposal_id: u64, vote_option: i32 },
    ProposalStillActive { proposal_id: u64, status: String },
    InsufficientStakedTokens { available: u128, required: u128 },
    NoVotingSession { proposal_id: u64 },
    LockerNotFound { proposal_id: u64, vote_option: i32 },
}

/// Hand-off record of a claim waiting for its reward withdrawal.
#[derive(Clone, Debug, PartialEq, Eq)]
pub struct ActiveClaim {
    /// Who claims.
    pub claimer: String,
    /// The pool's staking-denom balance before the withdrawal.
    pub balance_before: u128,
    /// The reward index when the claim began.
    pub global_index_before: Decimal,
}

/// Hand-off record of a rental waiting for its tokenization.
#[derive(Clone, Copy, Debug, PartialEq, Eq, Structural)]
pub struct ActiveRental {
    pub proposal_id: u64,
    pub vote_option: i32,
}

/// Hand-off record of a withdrawal waiting for its tokenization.
#[derive(Clone, Debug, PartialEq, Eq)]
pub struct ActiveWithdraw {
    pub withdrawer: String,
    pub amount: u128,
}

/// Hand-off record of a deposit.
#[derive(Clone, Debug, PartialEq, Eq)]
pub struct ActiveDeposit {
    pub depositor: String,
    pub lsm_denom: String,
    pub amount: u128,
}

/// Hand-off record of a voting session whose lockers are being created.
#[derive(Clone, Debug, PartialEq, Eq)]
pub struct ActiveVotingSessionCreation {
    pub proposal_id: u64,
    pub expected_lockers: u32,
    pub created_count: u32,
    pub locker_addresses: Vec<(i32, String)>,
}

/// One depositor's record, under its address.
#[derive(Clone, Debug, PartialEq, Eq)]
pub struct StakerEntry {
    pub address: String,
    pub staker: Staker,
}

/// Everything the stake manager keeps.
#[derive(Clone, Debug, PartialEq, Eq)]
pub struct StakeManager {
    pub config: Config,
    pub state: State,
    /// Depositor records, one per address; never removed.
    pub stakers: Vec<StakerEntry>,
    /// Voting sessions, one per proposal; never removed.
    pub voting_sessions: Vec<VotingSession>,
    /// Deposits and withdrawals are refused while set.
    pub is_paused: bool,
    pub active_claim: Option<ActiveClaim>,
    pub active_withdraw: Option<ActiveWithdraw>,
    pub active_rental: Option<ActiveRental>,
}

/// Sum of the shares of all records.
pub open spec fn sum_shares(s: Seq<StakerEntry>) -> int
    decreases s.len(),
{
    if s.len() == 0 {
        0
    } else {
        sum_shares(s.drop_last()) + s.last().staker.staked_amount
    }
}

pub open spec fn unique_addresses(s: Seq<StakerEntry>) -> bool {
    forall|i: int, j: int|
        0 <= i < s.len() && 0 <= j < s.len() && i != j ==> #[trigger] s[i].address@ != #[trigger] s[j].address@
}

pub open spec fn has_address(s: Seq<StakerEntry>, a: Seq<char>) -> bool {
    exists|i: int| 0 <= i < s.len() && #[trigger] s[i].address@ == a
}

/// The records as a map from address to record.
pub open spec fn staker_records(s: Seq<StakerEntry>) -> Map<Seq<char>, Staker> {
    Map::new(
        |a: Seq<char>| has_address(s, a),
        |a: Seq<char>| s[choose|i: int| 0 <= i < s.len() && #[trigger] s[i].address@ == a].staker,
    )
}

pub open spec fn unique_sessions(s: Seq<VotingSession>) -> bool {
    forall|i: int, j: int|
        0 <= i < s.len() && 0 <= j < s.len() && i != j ==> #[trigger] s[i].proposal_id != #[trigger] s[j].proposal_id
}

pub open spec fn has_session(s: Seq<VotingSession>, id: u64) -> bool {
    exists|i: int| 0 <= i < s.len() && #[trigger] s[i].proposal_id == id
}

/// The sessions as a map from proposal id to session.
pub open spec fn session_records(s: Seq<VotingSession>) -> Map<u64, VotingSession> {
    Map::new(
        |id: u64| has_session(s, id),
        |id: u64| s[choose|i: int| 0 <= i < s.len() && #[trigger] s[i].proposal_id == id],
    )
}

/// Number of active sessions.
pub open spec fn count_active(s: Seq<VotingSession>) -> nat
    decreases s.len(),
{
    if s.len() == 0 {
        0
    } else {
        count_active(s.drop_last()) + if s.last().is_active { 1nat } else { 0nat }
    }
}

proof fn lemma_sum_update(s: Seq<StakerEntry>, i: int, e: StakerEntry)
    requires
        0 <= i < s.len(),
    ensures
        sum_shares(s.update(i, e)) == sum_shares(s) - s[i].staker.staked_amount + e.staker.staked_amount,
    decreases s.len(),
{
    if i == s.len() - 1 {
        assert(s.update(i, e).drop_last() =~= s.drop_last());
    } else {
        assert(s.update(i, e).drop_last() =~= s.drop_last().update(i, e));
        lemma_sum_update(s.drop_last(), i, e);
    }
}

proof fn lemma_sum_push(s: Seq<StakerEntry>, e: StakerEntry)
    ensures
        sum_shares(s.push(e)) == sum_shares(s) + e.staker.staked_amount,
{
    assert(s.push(e).drop_last() =~= s);
}

proof fn lemma_sum_bounds_each(s: Seq<StakerEntry>, i: int)
    requires
        0 <= i < s.len(),
    ensures
        s[i].staker.staked_amount <= sum_shares(s),
    decreases s.len(),
{
    lemma_sum_nonneg(s.drop_last());
    if i < s.len() - 1 {
        lemma_sum_bounds_each(s.drop_last(), i);
    }
}

proof fn lemma_sum_nonneg(s: Seq<StakerEntry>)
    ensures
        sum_shares(s) >= 0,
    decreases s.len(),
{
    if s.len() > 0 {
        lemma_sum_nonneg(s.drop_last());
    }
}

proof fn lemma_records_update(s: Seq<StakerEntry>, i: int, e: StakerEntry)
    requires
        unique_addresses(s),
        0 <= i < s.len(),
        e.address@ == s[i].address@,
    ensures
        unique_addresses(s.update(i, e)),
        staker_records(s.update(i, e)) =~= staker_records(s).insert(e.address@, e.staker),
{
    let t = s.update(i, e);
    assert forall|a: Seq<char>| has_address(t, a) == (has_address(s, a) || a == e.address@) by {
        if has_address(s, a) {
            let j = choose|j: int| 0 <= j < s.len() && #[trigger] s[j].address@ == a;
            assert(t[j].address@ == a);
        }
        if has_address(t, a) {
            let j = choose|j: int| 0 <= j < t.len() && #[trigger] t[j].address@ == a;
            assert(s[j].address@ == a);
        }
        if a == e.address@ {
            assert(t[i].address@ == a);
        }
    }
    assert forall|a: Seq<char>| #[trigger] has_address(t, a) implies staker_records(t)[a]
        == staker_records(s).insert(e.address@, e.staker)[a] by {
        let j = choose|j: int| 0 <= j < t.len() && #[trigger] t[j].address@ == a;
        if a == e.address@ {
            assert(j == i);
        } else {
            let k = choose|k: int| 0 <= k < s.len() && #[trigger] s[k].address@ == a;
            assert(t[j].address@ == a);
            assert(s[j].address@ == a);
            assert(j == k);
        }
    }
}

proof fn lemma_records_push(s: Seq<StakerEntry>, e: StakerEntry)
    requires
        unique_addresses(s),
        !has_address(s, e.address@),
    ensures
        unique_addresses(s.push(e)),
        staker_records(s.push(e)) =~= staker_records(s).insert(e.address@, e.staker),
{
    let t = s.push(e);
    assert forall|i: int, j: int|
        0 <= i < t.len() && 0 <= j < t.len() && i != j implies #[trigger] t[i].address@ != #[trigger] t[j].address@ by {
        if i == s.len() {
            assert(s[j].address@ == t[j].address@);
        } else if j == s.len() {
            assert(s[i].address@ == t[i].address@);
        }
    }
    assert forall|a: Seq<char>| has_address(t, a) == (has_address(s, a) || a == e.address@) by {
        if has_address(s, a) {
            let j = choose|j: int| 0 <= j < s.len() && #[trigger] s[j].address@ == a;
            assert(t[j].address@ == a);
        }
        if has_address(t, a) {
            let j = choose|j: int| 0 <= j < t.len() && #[trigger] t[j].address@ == a;
            if j < s.len() {
                assert(s[j].address@ == a);
            }
        }
        if a == e.address@ {
            assert(t[s.len() as int].address@ == a);
        }
    }
    assert forall|a: Seq<char>| #[trigger] has_address(t, a) implies staker_records(t)[a]
        == staker_records(s).insert(e.address@, e.staker)[a] by {
        let j = choose|j: int| 0 <= j < t.len() && #[trigger] t[j].address@ == a;
        if a == e.address@ {
            if j < s.len() {
                assert(s[j].address@ == a);
            }
        } else {
            let k = choose|k: int| 0 <= k < s.len() && #[trigger] s[k].address@ == a;
            assert(t[k].address@ == a);
        }
    }
}

impl StakeManager {
    /// The invariant kept between calls: one record per address, the pool's
    /// total equal to the sum of all records' shares, one session per
    /// proposal, and the pause flag set exactly while a session is active.
    pub open spec fn wf(&self) -> bool {
        &&& unique_addresses(self.stakers@)
        &&& self.state.total_staked == sum_shares(self.stakers@)
        &&& unique_sessions(self.voting_sessions@)
        &&& self.is_paused == (count_active(self.voting_sessions@) > 0)
    }

    pub open spec fn records(&self) -> Map<Seq<char>, Staker> {
        staker_records(self.stakers@)
    }

    pub open spec fn sessions(&self) -> Map<u64, VotingSession> {
        session_records(self.voting_sessions@)
    }

    /// Position of `address`'s record.
    pub fn find_staker(&self, address: &String) -> (r: Option<usize>)
        ensures
            r matches Some(i) ==> i < self.stakers@.len() && self.stakers@[i as int].address@ == address@,
            r is None ==> !has_address(self.stakers@, address@),
    {
        let mut i: usize = 0;
        while i < self.stakers.len()
            invariant
                i <= self.stakers@.len(),
                forall|j: int| 0 <= j < i ==> #[trigger] self.stakers@[j].address@ != address@,
            decreases self.stakers@.len() - i,
        {
            if self.stakers[i].address == *address {
                return Some(i);
            }
            i += 1;
        }
        None
    }
}

/// Address-keyed record lookup: the record at position `i` is the one the
/// map view gives for its address.
pub(crate) proof fn lemma_record_at(s: Seq<StakerEntry>, i: int)
    requires
        unique_addresses(s),
        0 <= i < s.len(),
    ensures
        has_address(s, s[i].address@),
        staker_records(s)[s[i].address@] == s[i].staker,
{
    let a = s[i].address@;
    assert(s[i].address@ == a);
    let j = choose|j: int| 0 <= j < s.len() && #[trigger] s[j].address@ == a;
    assert(j == i);
}

proof fn lemma_sum_prefix(s: Seq<StakerEntry>, k: int)
    requires
        0 <= k <= s.len(),
    ensures
        sum_shares(s.subrange(0, k)) <= sum_shares(s),
    decreases s.len(),
{
    if k < s.len() {
        assert(s.drop_last().subrange(0, k) =~= s.subrange(0, k));
        lemma_sum_prefix(s.drop_last(), k);
    } else {
        assert(s.subrange(0, k) =~= s);
    }
}

impl StakeManager {
    /// Tests [`StakeManager::wf`] on a state that comes from elsewhere (from
    /// storage, say) before it is handed to the operations.
    pub fn is_well_formed(&self) -> (r: bool)
        ensures
            r == self.wf(),
    {
        let n = self.stakers.len();
        let mut i: usize = 0;
        while i < n
            invariant
                n == self.stakers@.len(),
                i <= n,
                forall|a: int, b: int|
                    0 <= a < i && 0 <= b < n && a != b ==> #[trigger] self.stakers@[a].address@
                        != #[trigger] self.stakers@[b].address@,
            decreases n - i,
        {
            let mut j: usize = 0;
            while j < n
                invariant
                    n == self.stakers@.len(),
                    i < n,
                    j <= n,
                    forall|a: int, b: int|
                        0 <= a < i && 0 <= b < n && a != b ==> #[trigger] self.stakers@[a].address@
                            != #[trigger] self.stakers@[b].address@,
                    forall|b: int| 0 <= b < j && b != i ==> self.stakers@[i as int].address@ != #[trigger] self.stakers@[b].address@,
                decreases n - j,
            {
                if j != i && self.stakers[i].address == self.stakers[j].address {
                    return false;
                }
                j += 1;
            }
            i += 1;
        }
        let mut sum: u128 = 0;
        let mut k: usize = 0;
        while k < n
            invariant
                n == self.stakers@.len(),
                k <= n,
                sum == sum_shares(self.stakers@.subrange(0, k as int)),
            decreases n - k,
        {
            proof {
                assert(self.stakers@.subrange(0, k + 1).drop_last() =~= self.stakers@.subrange(0, k as int));
            }
            let shares = self.stakers[k].staker.staked_amount;
            if shares > u128::MAX - sum {
                proof {
                    lemma_sum_prefix(self.stakers@, k + 1);
                }
                return false;
            }
            sum = sum + shares;
            k += 1;
        }
        proof {
            assert(self.stakers@.subrange(0, n as int) =~= self.stakers@);
        }
        if sum != self.state.total_staked {
            return false;
        }
        let v = self.voting_sessions.len();
        let mut i: usize = 0;
        while i < v
            invariant
                v == self.voting_sessions@.len(),
                i <= v,
                forall|a: int, b: int|
                    0 <= a < i && 0 <= b < v && a != b ==> #[trigger] self.voting_sessions@[a].proposal_id
                        != #[trigger] self.voting_sessions@[b].proposal_id,
            decreases v - i,
        {
            let mut j: usize = 0;
            while j < v
                invariant
                    v == self.voting_sessions@.len(),
                    i < v,
                    j <= v,
                    forall|a: int, b: int|
                        0 <= a < i && 0 <= b < v && a != b ==> #[trigger] self.voting_sessions@[a].proposal_id
                            != #[trigger] self.voting_sessions@[b].proposal_id,
                    forall|b: int|
                        0 <= b < j && b != i ==> self.voting_sessions@[i as int].proposal_id
                            != #[trigger] self.voting_sessions@[b].proposal_id,
                decreases v - j,
            {
                if j != i && self.voting_sessions[i].proposal_id == self.voting_sessions[j].proposal_id {
                    return false;
                }
                j += 1;
            }
            i += 1;
        }
        self.is_paused == (self.active_session_count() > 0)
    }
}

/// Fails unless the validator was found on the ledger.
pub fn verify_validator_exists(found: bool, validator: &String) -> (r: Result<(), ContractError>)
    ensures
        found ==> r is Ok,
        !found ==> r == Err::<(), ContractError>(ContractError::ValidatorNotFound { validator: *validator }),
{
    if found {
        Ok(())
    } else {
        Err(ContractError::ValidatorNotFound { validator: validator.clone() })
    }
}

/// Creates a stake manager; `validator_found` tells whether the ledger knows
/// the delegation target.
pub fn instantiate(msg: InstantiateMsg, validator_found: bool) -> (r: Result<(StakeManager, Response), ContractError>)
    ensures
        r is Ok <==> validator_found,
        r matches Ok((m, resp)) ==> {
            &&& m.wf()
            &&& m.config == (Config {
                owner: msg.owner,
                staking_denom: msg.staking_denom,
                validator: msg.validator,
                max_cap: msg.max_cap,
                locker_code_id: msg.locker_code_id,
            })
            &&& m.state.total_staked == 0
            &&& m.state.global_reward_index.atomics == 0
            &&& m.stakers@.len() == 0
            &&& m.voting_sessions@.len() == 0
            &&& !m.is_paused
            &&& m.active_claim is None && m.active_withdraw is None && m.active_rental is None
            &&& resp.messages@.len() == 0
        },
{
    verify_validator_exists(validator_found, &msg.validator)?;
    let config = Config {
        owner: msg.owner,
        staking_denom: msg.staking_denom,
        validator: msg.validator,
        max_cap: msg.max_cap,
        locker_code_id: msg.locker_code_id,
    };
    let m = StakeManager {
        config,
        state: State::new(),
        stakers: Vec::new(),
        voting_sessions: Vec::new(),
        is_paused: false,
        active_claim: None,
        active_withdraw: None,
        active_rental: None,
    };
    proof {
        assert(m.stakers@ =~= Seq::<StakerEntry>::empty());
        assert(m.voting_sessions@ =~= Seq::<VotingSession>::empty());
    }
    Ok((m, Response::new()))
}

/// Whether `info` carries exactly one non-zero receipt token of `validator`.
pub open spec fn is_single_receipt(info: MessageInfo, validator: Seq<char>) -> bool {
    &&& info.funds@.len() == 1
    &&& info.funds@[0].amount > 0
    &&& parse_denom_spec(info.funds@[0].denom@) matches Ok((v, _)) && v == validator
}

/// Maps a refused receipt denom to the manager's error.
fn denom_error(e: DenomError) -> (r: ContractError)
    ensures
        r matches ContractError::InvalidLsmShares { .. },
{
    match e {
        DenomError::Format => ContractError::InvalidLsmShares {
            reason: String::from_str("Invalid LSM denom format. Expected 'validator/record_id'"),
        },
        DenomError::Validator => ContractError::InvalidLsmShares {
            reason: String::from_str("Invalid validator address format. Expected valoper address"),
        },
        DenomError::RecordId => ContractError::InvalidLsmShares {
            reason: String::from_str("Invalid record_id. Expected numeric value"),
        },
    }
}

/// Parses a receipt denom `{validator}/{record_id}`.
pub fn parse_lsm_denom(lsm_denom: &str) -> (r: Result<LsmShareInfo, ContractError>)
    ensures
        r matches Ok(info) ==> parse_denom_spec(lsm_denom@) == Ok::<(Seq<char>, Seq<char>), DenomError>(
            (info.validator@, info.record_id@),
        ),
        r is Err ==> parse_denom_spec(lsm_denom@) is Err,
        r matches Err(e) ==> e matches ContractError::InvalidLsmShares { .. },
{
    match parse_receipt_denom(lsm_denom) {
        Ok((validator, record_id)) => Ok(LsmShareInfo { validator, record_id }),
        Err(e) => Err(denom_error(e)),
    }
}

/// Checks that `info` carries exactly one non-zero receipt token of the
/// configured validator.
fn check_single_receipt(info: &MessageInfo, validator: &String) -> (r: Result<LsmShareInfo, ContractError>)
    ensures
        r is Ok <==> is_single_receipt(*info, validator@),
        info.funds@.len() != 1 ==> r matches Err(ContractError::InvalidLsmShares { .. }),
        info.funds@.len() == 1 && info.funds@[0].amount == 0 ==> r matches Err(ContractError::ZeroAmount {}),
        info.funds@.len() == 1 && info.funds@[0].amount > 0 && parse_denom_spec(info.funds@[0].denom@) is Err
            ==> r matches Err(ContractError::InvalidLsmShares { .. }),
        info.funds@.len() == 1 && info.funds@[0].amount > 0 && (parse_denom_spec(info.funds@[0].denom@) matches Ok(
            (v, _),
        ) && v != validator@) ==> r matches Err(ContractError::InvalidValidator { .. }),
{
    if info.funds.len() != 1 {
        return Err(ContractError::InvalidLsmShares {
            reason: String::from_str("Must send exactly one token"),
        });
    }
    let lsm_share = &info.funds[0];
    if lsm_share.amount == 0 {
        return Err(ContractError::ZeroAmount {});
    }
    let lsm_info = parse_lsm_denom(lsm_share.denom.as_str())?;
    if lsm_info.validator != *validator {
        return Err(ContractError::InvalidValidator {
            validator: lsm_info.validator,
            expected: validator.clone(),
        });
    }
    Ok(lsm_info)
}


/// The error a refused receipt transfer gets: a wrong number of coins, a zero
/// amount or a malformed denom give `InvalidLsmShares` / `ZeroAmount`, a
/// receipt of another validator gives `InvalidValidator`.
pub open spec fn receipt_error(info: MessageInfo, validator: Seq<char>, e: ContractError) -> bool {
    if info.funds@.len() != 1 {
        e is InvalidLsmShares
    } else if info.funds@[0].amount == 0 {
        e is ZeroAmount
    } else if parse_denom_spec(info.funds@[0].denom@) is Err {
        e is InvalidLsmShares
    } else {
        e is InvalidValidator
    }
}

/// `sm` transfers exactly `coin` to `to`, with no continuation.
pub open spec fn is_send_of(sm: SubMsg, to: String, coin: Coin) -> bool {
    &&& sm.reply_on_success is None
    &&& sm.msg matches Command::BankSend { to_address, amount } && to_address == to && amount@ == seq![coin]
}

/// Copy of a coin.
fn copy_coin(c: &Coin) -> (r: Coin)
    ensures
        r == *c,
{
    Coin { denom: c.denom.clone(), amount: c.amount }
}

impl StakeManager {
    /// Configuration, sessions and pause flag are those of `other`.
    pub open spec fn same_setup(&self, other: StakeManager) -> bool {
        &&& self.config == other.config
        &&& self.voting_sessions == other.voting_sessions
        &&& self.is_paused == other.is_paused
    }

    /// The three continuation slots are those of `other`.
    pub open spec fn same_slots(&self, other: StakeManager) -> bool {
        &&& self.active_claim == other.active_claim
        &&& self.active_withdraw == other.active_withdraw
        &&& self.active_rental == other.active_rental
    }

    /// Shares `address` holds (zero without a record).
    pub open spec fn shares_of(&self, address: Seq<char>) -> int {
        if self.records().contains_key(address) {
            self.records()[address].staked_amount as int
        } else {
            0
        }
    }

    /// Whether a deposit of `info`'s funds is accepted.
    pub open spec fn deposit_accepted(&self, info: MessageInfo) -> bool {
        &&& !self.is_paused
        &&& is_single_receipt(info, self.config.validator@)
        &&& self.state.total_staked + info.funds@[0].amount <= u128::MAX
        &&& (self.config.max_cap matches Some(cap) ==> self.state.total_staked + info.funds@[0].amount <= cap)
    }

    /// Writes `staker` as `address`'s record, replacing or adding it, and
    /// moves the pool total by the change in shares.
    fn put_staker(&mut self, address: &String, staker: Staker)
        requires
            old(self).wf(),
            old(self).state.total_staked - old(self).shares_of(address@) + staker.staked_amount <= u128::MAX,
        ensures
            final(self).wf(),
            final(self).records() == old(self).records().insert(address@, staker),
            final(self).state.total_staked == old(self).state.total_staked - old(self).shares_of(address@)
                + staker.staked_amount,
            final(self).state.global_reward_index == old(self).state.global_reward_index,
            final(self).same_setup(*old(self)),
            final(self).same_slots(*old(self)),
    {
        let entry = StakerEntry { address: address.clone(), staker };
        match self.find_staker(address) {
            Some(i) => {
                proof {
                    lemma_record_at(self.stakers@, i as int);
                    lemma_sum_bounds_each(self.stakers@, i as int);
                    lemma_sum_update(self.stakers@, i as int, entry);
                    lemma_records_update(self.stakers@, i as int, entry);
                }
                let old_shares = self.stakers[i].staker.staked_amount;
                self.state.total_staked = self.state.total_staked - old_shares + staker.staked_amount;
                self.stakers[i] = entry;
            },
            None => {
                proof {
                    lemma_sum_push(self.stakers@, entry);
                    lemma_records_push(self.stakers@, entry);
                }
                self.state.total_staked = self.state.total_staked + staker.staked_amount;
                self.stakers.push(entry);
            },
        }
    }
}

/// Deposits receipt tokens: the sender's record is settled at the current
/// index before the shares are added (so reward already earned is not
/// diluted), pool and record grow by the amount, and the receipt is
/// redeemed into the pool's delegation.
pub fn execute_deposit_lsm_shares(m: &mut StakeManager, env: &Env, info: &MessageInfo) -> (r: Result<
    Response,
    ContractError,
>)
    requires
        old(m).wf(),
    ensures
        final(m).wf(),
        final(m).state.global_reward_index.atomics >= old(m).state.global_reward_index.atomics,
        r is Ok <==> old(m).deposit_accepted(*info),
        old(m).is_paused ==> r matches Err(ContractError::ContractPaused {}),
        !old(m).is_paused && !is_single_receipt(*info, old(m).config.validator@) ==> (r matches Err(e)
            && receipt_error(*info, old(m).config.validator@, e)),
        !old(m).is_paused && is_single_receipt(*info, old(m).config.validator@) ==> ((r matches Err(
            ContractError::MaxCapReached { .. },
        )) <==> (old(m).config.max_cap matches Some(cap) && old(m).state.total_staked + info.funds@[0].amount
            > cap)),
        !old(m).is_paused && is_single_receipt(*info, old(m).config.validator@) && (old(m).config.max_cap
            matches Some(cap) && old(m).state.total_staked + info.funds@[0].amount > cap) ==> r == Err::<
            Response,
            ContractError,
        >(
            ContractError::MaxCapReached {
                cap: old(m).config.max_cap->0,
                current: old(m).state.total_staked,
                attempting: info.funds@[0].amount,
            },
        ),
        !old(m).is_paused && is_single_receipt(*info, old(m).config.validator@) && old(m).config.max_cap is None
            && old(m).state.total_staked + info.funds@[0].amount > u128::MAX ==> r == Err::<Response, ContractError>(
            ContractError::Std(StdError::Overflow),
        ),
        old(m).config.max_cap matches Some(cap) ==> (r is Ok ==> final(m).state.total_staked <= cap),
        r is Err ==> *final(m) == *old(m),
        r matches Ok(resp) ==> {
            let amount = info.funds@[0].amount;
            &&& final(m).records() == old(m).records().insert(
                info.sender@,
                Staker {
                    staked_amount: (old(m).shares_of(info.sender@) + amount) as u128,
                    reward_index: old(m).state.global_reward_index,
                },
            )
            &&& final(m).state.total_staked == old(m).state.total_staked + amount
            &&& final(m).state.global_reward_index == old(m).state.global_reward_index
            &&& final(m).same_setup(*old(m))
            &&& final(m).same_slots(*old(m))
            &&& resp.messages@.len() == 1
            &&& resp.messages@[0].msg == Command::RedeemTokensForShares {
                delegator: env.contract_address,
                coin: info.funds@[0],
            }
            &&& resp.messages@[0].reply_on_success is None
        },
{
    if m.is_paused {
        return Err(ContractError::ContractPaused {});
    }
    check_single_receipt(info, &m.config.validator)?;
    let lsm_share = &info.funds[0];
    let amount = lsm_share.amount;
    if let Some(cap) = m.config.max_cap {
        if m.state.total_staked > cap || amount > cap - m.state.total_staked {
            return Err(ContractError::MaxCapReached {
                cap,
                current: m.state.total_staked,
                attempting: amount,
            });
        }
    }
    if amount > u128::MAX - m.state.total_staked {
        return Err(ContractError::Std(StdError::Overflow));
    }
    let mut staker = match m.find_staker(&info.sender) {
        Some(i) => {
            proof {
                lemma_record_at(m.stakers@, i as int);
                lemma_sum_bounds_each(m.stakers@, i as int);
            }
            m.stakers[i].staker
        },
        None => Staker::new(),
    };
    staker.update_index(m.state.global_reward_index);
    staker.staked_amount = staker.staked_amount + amount;
    m.put_staker(&info.sender, staker);
    let mut resp = Response::new();
    resp.add_message(
        Command::RedeemTokensForShares {
            delegator: env.contract_address.clone(),
            coin: copy_coin(lsm_share),
        },
    );
    Ok(resp)
}


/// Starts a claim: records the pool's current staking-denom `balance` and
/// index in the claim slot and asks for the delegation reward; the
/// continuation settles the claim. Only depositors may claim: an unknown
/// claimer is not found.
pub fn execute_claim_rewards(m: &mut StakeManager, info: &MessageInfo, balance: u128) -> (r: Result<
    Response,
    ContractError,
>)
    requires
        old(m).wf(),
    ensures
        final(m).wf(),
        final(m).state.global_reward_index.atomics >= old(m).state.global_reward_index.atomics,
        r is Ok <==> old(m).records().contains_key(info.sender@),
        r is Err ==> r == Err::<Response, ContractError>(ContractError::Std(StdError::NotFound)) && *final(m)
            == *old(m),
        r matches Ok(resp) ==> {
            &&& final(m).active_claim == Some(
                ActiveClaim {
                    claimer: info.sender,
                    balance_before: balance,
                    global_index_before: old(m).state.global_reward_index,
                },
            )
            &&& final(m).state == old(m).state
            &&& final(m).stakers == old(m).stakers
            &&& final(m).same_setup(*old(m))
            &&& final(m).active_withdraw == old(m).active_withdraw
            &&& final(m).active_rental == old(m).active_rental
            &&& resp.messages@ == seq![
                SubMsg {
                    msg: Command::WithdrawDelegatorReward { validator: old(m).config.validator },
                    reply_on_success: Some(REPLY_CLAIM_REWARDS),
                },
            ]
        },
{
    match m.find_staker(&info.sender) {
        Some(i) => {
            proof {
                lemma_record_at(m.stakers@, i as int);
            }
        },
        None => {
            return Err(ContractError::Std(StdError::NotFound));
        },
    }
    m.active_claim = Some(
        ActiveClaim {
            claimer: info.sender.clone(),
            balance_before: balance,
            global_index_before: m.state.global_reward_index,
        },
    );
    let mut resp = Response::new();
    resp.add_submessage(
        Command::WithdrawDelegatorReward { validator: m.config.validator.clone() },
        REPLY_CLAIM_REWARDS,
    );
    proof {
        assert(resp.messages@ =~= seq![
            SubMsg {
                msg: Command::WithdrawDelegatorReward { validator: m.config.validator },
                reply_on_success: Some(REPLY_CLAIM_REWARDS),
            },
        ]);
    }
    Ok(resp)
}

/// Position of the first coin of `denom` in `funds`.
pub fn find_denom(funds: &Vec<Coin>, denom: &String) -> (r: Option<usize>)
    ensures
        r matches Some(i) ==> i < funds@.len() && funds@[i as int].denom@ == denom@ && forall|j: int|
            0 <= j < i ==> #[trigger] funds@[j].denom@ != denom@,
        r is None ==> forall|j: int| 0 <= j < funds@.len() ==> #[trigger] funds@[j].denom@ != denom@,
{
    let mut i: usize = 0;
    while i < funds.len()
        invariant
            i <= funds@.len(),
            forall|j: int| 0 <= j < i ==> #[trigger] funds@[j].denom@ != denom@,
        decreases funds@.len() - i,
    {
        if funds[i].denom == *denom {
            return Some(i);
        }
        i += 1;
    }
    None
}

/// Amount of the first coin of `denom` in `funds`, if there is one.
pub open spec fn first_amount_of(funds: Seq<Coin>, denom: Seq<char>) -> Option<u128> {
    if exists|i: int| 0 <= i < funds.len() && #[trigger] funds[i].denom@ == denom {
        let i = choose|i: int|
            0 <= i < funds.len() && #[trigger] funds[i].denom@ == denom && forall|j: int|
                0 <= j < i ==> #[trigger] funds[j].denom@ != denom;
        Some(funds[i].amount)
    } else {
        None
    }
}

/// Amount of the first coin of `denom` among `funds`, zero when there is
/// none (a balance query answers zero for a denom not held).
pub open spec fn amount_in(funds: Seq<Coin>, denom: Seq<char>) -> u128 {
    match first_amount_of(funds, denom) {
        Some(a) => a,
        None => 0,
    }
}

/// Position of the first coin of `denom`, with what the spec view says of it.
pub(crate) fn find_first_amount(funds: &Vec<Coin>, denom: &String) -> (r: Option<usize>)
    ensures
        r matches Some(i) ==> i < funds@.len() && first_amount_of(funds@, denom@) == Some(funds@[i as int].amount),
        r is None ==> first_amount_of(funds@, denom@) is None,
{
    let r = find_denom(funds, denom);
    proof {
        if let Some(i) = r {
            let k = choose|k: int|
                0 <= k < funds@.len() && #[trigger] funds@[k].denom@ == denom@ && forall|j: int|
                    0 <= j < k ==> #[trigger] funds@[j].denom@ != denom@;
            assert(funds@[i as int].denom@ == denom@);
            if k < i {
                assert(funds@[k].denom@ != denom@);
            } else if k > i {
                assert(funds@[i as int].denom@ != denom@);
            }
        }
    }
    r
}

/// Adds the staking-denom funds of `info` to the reward pool: the index grows
/// by their amount divided by the pool's shares.
pub fn execute_deposit_rewards(m: &mut StakeManager, info: &MessageInfo) -> (r: Result<
    Response,
    ContractError,
>)
    requires
        old(m).wf(),
    ensures
        final(m).wf(),
        first_amount_of(info.funds@, old(m).config.staking_denom@) is None ==> r == Err::<
            Response,
            ContractError,
        >(ContractError::InvalidFunds { expected: old(m).config.staking_denom }),
        first_amount_of(info.funds@, old(m).config.staking_denom@) == Some(0u128) ==> r == Err::<
            Response,
            ContractError,
        >(ContractError::ZeroAmount {}),
        r is Ok <==> (first_amount_of(info.funds@, old(m).config.staking_denom@) matches Some(a) && a > 0),
        r is Err ==> *final(m) == *old(m),
        r matches Ok(resp) ==> {
            &&& final(m).state.global_reward_index.atomics == indexed_reward(
                old(m).state.global_reward_index.atomics as int,
                first_amount_of(info.funds@, old(m).config.staking_denom@)->0 as int,
                old(m).state.total_staked as int,
            )
            &&& final(m).state.total_staked == old(m).state.total_staked
            &&& final(m).stakers == old(m).stakers
            &&& final(m).same_setup(*old(m))
            &&& final(m).same_slots(*old(m))
            &&& resp.messages@.len() == 0
        },
        final(m).state.global_reward_index.atomics >= old(m).state.global_reward_index.atomics,
{
    let i = match find_first_amount(&info.funds, &m.config.staking_denom) {
        Some(i) => i,
        None => {
            return Err(ContractError::InvalidFunds { expected: m.config.staking_denom.clone() });
        },
    };
    let amount = info.funds[i].amount;
    if amount == 0 {
        return Err(ContractError::ZeroAmount {});
    }
    m.state.add_rewards(amount);
    Ok(Response::new())
}

impl StakeManager {
    /// Tokens the shares of `address` are worth with `delegated` tokens behind
    /// the pool.
    pub open spec fn available_tokens(&self, address: Seq<char>, delegated: u128) -> int {
        shares_to_tokens_spec(self.shares_of(address), delegated as int, self.state.total_staked as int)
    }

    /// Shares burnt by a withdrawal of `amount` tokens by `address`.
    pub open spec fn shares_to_burn(&self, address: Seq<char>, amount: u128, delegated: u128) -> int {
        tokens_to_shares_spec(
            amount as int,
            self.state.total_staked as int,
            delegated as int,
            self.shares_of(address),
        )
    }

    /// Whether the holding of `address` covers a withdrawal of `amount` tokens.
    pub open spec fn withdraw_covered(&self, address: Seq<char>, amount: u128, delegated: u128) -> bool {
        &&& !self.is_paused
        &&& amount > 0
        &&& self.records().contains_key(address)
        &&& amount <= self.available_tokens(address, delegated)
    }

    /// Whether a covered withdrawal also has its pending reward within 128
    /// bits, so that it can be paid.
    pub open spec fn withdraw_accepted(&self, address: Seq<char>, amount: u128, delegated: u128) -> bool {
        &&& self.withdraw_covered(address, amount, delegated)
        &&& self.records()[address].pending_at(self.state.global_reward_index) <= u128::MAX
    }
}

/// Withdraws `amount` tokens from the sender's holding, with `delegated` the
/// pool's real delegated balance. The holding must be worth at least
/// `amount`; the shares burnt are `ceil(amount * total / delegated)`. The
/// reward pending on the holding is paid out and the record settled at the
/// current index. The withdrawal is recorded in its slot and `amount` of the
/// delegation is tokenized to this program; the continuation forwards the
/// receipt. `_validator` is ignored: the pool has a single delegation target.
pub fn execute_withdraw(
    m: &mut StakeManager,
    env: &Env,
    info: &MessageInfo,
    amount: u128,
    _validator: String,
    delegated: u128,
) -> (r: Result<Response, ContractError>)
    requires
        old(m).wf(),
    ensures
        final(m).wf(),
        final(m).state.global_reward_index.atomics >= old(m).state.global_reward_index.atomics,
        r is Ok <==> old(m).withdraw_accepted(info.sender@, amount, delegated),
        old(m).is_paused ==> r == Err::<Response, ContractError>(ContractError::ContractPaused {}),
        !old(m).is_paused && amount == 0 ==> r == Err::<Response, ContractError>(ContractError::ZeroAmount {}),
        !old(m).is_paused && amount > 0 && !old(m).records().contains_key(info.sender@) ==> r == Err::<
            Response,
            ContractError,
        >(ContractError::Std(StdError::NotFound)),
        !old(m).is_paused && amount > 0 && old(m).records().contains_key(info.sender@) && !old(m).withdraw_covered(
            info.sender@,
            amount,
            delegated,
        ) ==> r == Err::<Response, ContractError>(ContractError::InsufficientStakedAmount {}),
        old(m).withdraw_covered(info.sender@, amount, delegated) && !old(m).withdraw_accepted(
            info.sender@,
            amount,
            delegated,
        ) ==> r == Err::<Response, ContractError>(ContractError::Std(StdError::Overflow)),
        r is Err ==> *final(m) == *old(m),
        r matches Ok(resp) ==> {
            let old_record = old(m).records()[info.sender@];
            let burnt = old(m).shares_to_burn(info.sender@, amount, delegated);
            let reward = old_record.pending_at(old(m).state.global_reward_index);
            let tokenize = SubMsg {
                msg: Command::TokenizeShares {
                    delegator: env.contract_address,
                    validator: old(m).config.validator,
                    amount,
                    denom: old(m).config.staking_denom,
                    owner: env.contract_address,
                },
                reply_on_success: Some(REPLY_TOKENIZE_SHARES_WITHDRAW),
            };
            &&& 0 <= burnt <= old_record.staked_amount
            &&& final(m).records() == old(m).records().insert(
                info.sender@,
                Staker {
                    staked_amount: (old_record.staked_amount - burnt) as u128,
                    reward_index: old(m).state.global_reward_index,
                },
            )
            &&& final(m).state.total_staked == old(m).state.total_staked - burnt
            &&& final(m).state.global_reward_index == old(m).state.global_reward_index
            &&& final(m).same_setup(*old(m))
            &&& final(m).active_withdraw == Some(ActiveWithdraw { withdrawer: info.sender, amount })
            &&& final(m).active_claim == old(m).active_claim
            &&& final(m).active_rental == old(m).active_rental
            &&& reward == 0 ==> resp.messages@ == seq![tokenize]
            &&& reward != 0 ==> resp.messages@.len() == 2 && resp.messages@[1] == tokenize && is_send_of(
                resp.messages@[0],
                info.sender,
                Coin { denom: old(m).config.staking_denom, amount: reward as u128 },
            )
        },
{
    if m.is_paused {
        return Err(ContractError::ContractPaused {});
    }
    if amount == 0 {
        return Err(ContractError::ZeroAmount {});
    }
    let i = match m.find_staker(&info.sender) {
        Some(i) => i,
        None => {
            return Err(ContractError::Std(StdError::NotFound));
        },
    };
    proof {
        lemma_record_at(m.stakers@, i as int);
        lemma_sum_bounds_each(m.stakers@, i as int);
    }
    let mut staker = m.stakers[i].staker;
    let total = m.state.total_staked;
    proof {
        if total > 0 {
            lemma_share_value_bounded(staker.staked_amount as int, delegated as int, total as int);
        }
    }
    let available = match shares_to_tokens(staker.staked_amount, delegated, total) {
        Some(a) => a,
        None => {
            return Err(ContractError::Std(StdError::Overflow));
        },
    };
    if available < amount {
        return Err(ContractError::InsufficientStakedAmount {});
    }
    proof {
        if delegated > 0 {
            lemma_burn_within_holding(
                amount as int,
                staker.staked_amount as int,
                delegated as int,
                total as int,
            );
        }
    }
    let burnt = match tokens_to_shares(amount, total, delegated, staker.staked_amount) {
        Some(b) => b,
        None => {
            return Err(ContractError::Std(StdError::Overflow));
        },
    };
    let reward = match staker.checked_pending_rewards(m.state.global_reward_index) {
        Some(v) => v,
        None => {
            return Err(ContractError::Std(StdError::Overflow));
        },
    };
    staker.staked_amount = staker.staked_amount - burnt;
    staker.update_index(m.state.global_reward_index);
    m.put_staker(&info.sender, staker);
    let mut resp = Response::new();
    if reward != 0 {
        let mut coins: Vec<Coin> = Vec::new();
        coins.push(Coin { denom: m.config.staking_denom.clone(), amount: reward });
        resp.add_message(Command::BankSend { to_address: info.sender.clone(), amount: coins });
    }
    m.active_withdraw = Some(ActiveWithdraw { withdrawer: info.sender.clone(), amount });
    resp.add_submessage(
        Command::TokenizeShares {
            delegator: env.contract_address.clone(),
            validator: m.config.validator.clone(),
            amount,
            denom: m.config.staking_denom.clone(),
            owner: env.contract_address.clone(),
        },
        REPLY_TOKENIZE_SHARES_WITHDRAW,
    );
    Ok(resp)
}

/// Changes the owner and/or the cap; only the owner may.
pub fn execute_update_config(
    m: &mut StakeManager,
    info: &MessageInfo,
    owner: Option<String>,
    max_cap: Option<u128>,
) -> (r: Result<Response, ContractError>)
    requires
        old(m).wf(),
    ensures
        final(m).wf(),
        final(m).state.global_reward_index.atomics >= old(m).state.global_reward_index.atomics,
        r is Ok <==> info.sender@ == old(m).config.owner@,
        r is Err ==> r == Err::<Response, ContractError>(ContractError::Unauthorized {}) && *final(m) == *old(m),
        r matches Ok(resp) ==> {
            &&& final(m).config.owner == (match owner {
                Some(o) => o,
                None => old(m).config.owner,
            })
            &&& final(m).config.max_cap == (match max_cap {
                Some(c) => Some(c),
                None => old(m).config.max_cap,
            })
            &&& final(m).config.staking_denom == old(m).config.staking_denom
            &&& final(m).config.validator == old(m).config.validator
            &&& final(m).config.locker_code_id == old(m).config.locker_code_id
            &&& final(m).state == old(m).state
            &&& final(m).stakers == old(m).stakers
            &&& final(m).voting_sessions == old(m).voting_sessions
            &&& final(m).is_paused == old(m).is_paused
            &&& final(m).same_slots(*old(m))
            &&& resp.messages@.len() == 0
        },
{
    if info.sender != m.config.owner {
        return Err(ContractError::Unauthorized {});
    }
    if let Some(o) = owner {
        m.config.owner = o;
    }
    if let Some(c) = max_cap {
        m.config.max_cap = Some(c);
    }
    Ok(Response::new())
}


/// Number of vote options a session spawns lockers for.
pub const NUM_VOTE_OPTIONS: i32 = 4;

/// The vote options of a session, in order: 1 yes, 2 abstain, 3 no, 4 no
/// with veto.
pub open spec fn vote_option_at(i: int) -> i32 {
    (i + 1) as i32
}

/// A new active session for `proposal_id`, with the locker of vote option
/// `i + 1` at `lockers[i]`, in option order.
pub open spec fn created_session(s: VotingSession, proposal_id: u64, lockers: Seq<String>) -> bool {
    &&& s.proposal_id == proposal_id
    &&& s.is_active
    &&& s.locker_addresses@.len() == NUM_VOTE_OPTIONS
    &&& forall|i: int|
        0 <= i < NUM_VOTE_OPTIONS ==> #[trigger] s.locker_addresses@[i] == (vote_option_at(i), lockers[i])
}

proof fn lemma_count_push(s: Seq<VotingSession>, e: VotingSession)
    ensures
        count_active(s.push(e)) == count_active(s) + if e.is_active { 1nat } else { 0nat },
{
    assert(s.push(e).drop_last() =~= s);
}

proof fn lemma_count_update(s: Seq<VotingSession>, i: int, e: VotingSession)
    requires
        0 <= i < s.len(),
    ensures
        count_active(s.update(i, e)) == count_active(s) - (if s[i].is_active { 1int } else { 0int }) + (
        if e.is_active { 1int } else { 0int }),
    decreases s.len(),
{
    if i == s.len() - 1 {
        assert(s.update(i, e).drop_last() =~= s.drop_last());
    } else {
        assert(s.update(i, e).drop_last() =~= s.drop_last().update(i, e));
        lemma_count_update(s.drop_last(), i, e);
    }
}

pub(crate) proof fn lemma_session_at(s: Seq<VotingSession>, i: int)
    requires
        unique_sessions(s),
        0 <= i < s.len(),
    ensures
        has_session(s, s[i].proposal_id),
        session_records(s)[s[i].proposal_id] == s[i],
{
    let id = s[i].proposal_id;
    assert(s[i].proposal_id == id);
    let j = choose|j: int| 0 <= j < s.len() && #[trigger] s[j].proposal_id == id;
    assert(j == i);
}

proof fn lemma_sessions_push(s: Seq<VotingSession>, e: VotingSession)
    requires
        unique_sessions(s),
        !has_session(s, e.proposal_id),
    ensures
        unique_sessions(s.push(e)),
        session_records(s.push(e)) =~= session_records(s).insert(e.proposal_id, e),
{
    let t = s.push(e);
    assert forall|i: int, j: int|
        0 <= i < t.len() && 0 <= j < t.len() && i != j implies #[trigger] t[i].proposal_id
        != #[trigger] t[j].proposal_id by {
        if i == s.len() {
            assert(s[j].proposal_id == t[j].proposal_id);
        } else if j == s.len() {
            assert(s[i].proposal_id == t[i].proposal_id);
        }
    }
    assert forall|id: u64| has_session(t, id) == (has_session(s, id) || id == e.proposal_id) by {
        if has_session(s, id) {
            let j = choose|j: int| 0 <= j < s.len() && #[trigger] s[j].proposal_id == id;
            assert(t[j].proposal_id == id);
        }
        if has_session(t, id) {
            let j = choose|j: int| 0 <= j < t.len() && #[trigger] t[j].proposal_id == id;
            if j < s.len() {
                assert(s[j].proposal_id == id);
            }
        }
        if id == e.proposal_id {
            assert(t[s.len() as int].proposal_id == id);
        }
    }
    assert forall|id: u64| #[trigger] has_session(t, id) implies session_records(t)[id]
        == session_records(s).insert(e.proposal_id, e)[id] by {
        let j = choose|j: int| 0 <= j < t.len() && #[trigger] t[j].proposal_id == id;
        if id == e.proposal_id {
            if j < s.len() {
                assert(s[j].proposal_id == id);
            }
        } else {
            let k = choose|k: int| 0 <= k < s.len() && #[trigger] s[k].proposal_id == id;
            assert(t[k].proposal_id == id);
        }
    }
}

proof fn lemma_sessions_update(s: Seq<VotingSession>, i: int, e: VotingSession)
    requires
        unique_sessions(s),
        0 <= i < s.len(),
        e.proposal_id == s[i].proposal_id,
    ensures
        unique_sessions(s.update(i, e)),
        session_records(s.update(i, e)) =~= session_records(s).insert(e.proposal_id, e),
{
    let t = s.update(i, e);
    assert forall|id: u64| has_session(t, id) == has_session(s, id) by {
        if has_session(s, id) {
            let j = choose|j: int| 0 <= j < s.len() && #[trigger] s[j].proposal_id == id;
            assert(t[j].proposal_id == id);
        }
        if has_session(t, id) {
            let j = choose|j: int| 0 <= j < t.len() && #[trigger] t[j].proposal_id == id;
            assert(s[j].proposal_id == id);
        }
    }
    assert(has_session(s, e.proposal_id)) by {
        assert(s[i].proposal_id == e.proposal_id);
    }
    assert forall|id: u64| #[trigger] has_session(t, id) implies session_records(t)[id]
        == session_records(s).insert(e.proposal_id, e)[id] by {
        let j = choose|j: int| 0 <= j < t.len() && #[trigger] t[j].proposal_id == id;
        if id == e.proposal_id {
            assert(j == i);
        } else {
            let k = choose|k: int| 0 <= k < s.len() && #[trigger] s[k].proposal_id == id;
            assert(t[j].proposal_id == id);
            assert(s[j].proposal_id == id);
            assert(j == k);
        }
    }
}

/// The first locker address recorded for `vote_option`.
pub open spec fn locker_of(pairs: Seq<(i32, String)>, vote_option: i32) -> Option<String> {
    if exists|i: int| 0 <= i < pairs.len() && (#[trigger] pairs[i]).0 == vote_option {
        let i = choose|i: int|
            0 <= i < pairs.len() && (#[trigger] pairs[i]).0 == vote_option && forall|j: int|
                0 <= j < i ==> (#[trigger] pairs[j]).0 != vote_option;
        Some(pairs[i].1)
    } else {
        None
    }
}

/// The locker address recorded for `vote_option` in `session`.
pub fn find_locker(session: &VotingSession, vote_option: i32) -> (r: Option<String>)
    ensures
        r == locker_of(session.locker_addresses@, vote_option),
{
    let mut i: usize = 0;
    while i < session.locker_addresses.len()
        invariant
            i <= session.locker_addresses@.len(),
            forall|j: int| 0 <= j < i ==> (#[trigger] session.locker_addresses@[j]).0 != vote_option,
        decreases session.locker_addresses@.len() - i,
    {
        if session.locker_addresses[i].0 == vote_option {
            proof {
                assert((session.locker_addresses@[i as int]).0 == vote_option);
                let k = choose|k: int|
                    0 <= k < session.locker_addresses@.len() && (#[trigger] session.locker_addresses@[k]).0 == vote_option && forall|j: int|
                        0 <= j < k ==> (#[trigger] session.locker_addresses@[j]).0 != vote_option;
                if k < i {
                    assert(session.locker_addresses@[k].0 != vote_option);
                } else if k > i {
                    assert(session.locker_addresses@[i as int].0 != vote_option);
                }
            }
            return Some(session.locker_addresses[i].1.clone());
        }
        i += 1;
    }
    None
}

impl StakeManager {
    /// Position of the session of `proposal_id`.
    pub fn find_session(&self, proposal_id: u64) -> (r: Option<usize>)
        requires
            self.wf(),
        ensures
            r matches Some(i) ==> i < self.voting_sessions@.len() && self.voting_sessions@[i as int].proposal_id
                == proposal_id && self.sessions().contains_key(proposal_id) && self.sessions()[proposal_id]
                == self.voting_sessions@[i as int],
            r is None ==> !self.sessions().contains_key(proposal_id),
    {
        let mut i: usize = 0;
        while i < self.voting_sessions.len()
            invariant
                self.wf(),
                i <= self.voting_sessions@.len(),
                forall|j: int| 0 <= j < i ==> #[trigger] self.voting_sessions@[j].proposal_id != proposal_id,
            decreases self.voting_sessions@.len() - i,
        {
            if self.voting_sessions[i].proposal_id == proposal_id {
                proof {
                    lemma_session_at(self.voting_sessions@, i as int);
                }
                return Some(i);
            }
            i += 1;
        }
        None
    }

    /// Number of active sessions.
    pub fn active_session_count(&self) -> (r: u64)
        ensures
            r == count_active(self.voting_sessions@),
    {
        let mut count: u64 = 0;
        let mut i: usize = 0;
        while i < self.voting_sessions.len()
            invariant
                i <= self.voting_sessions@.len(),
                count == count_active(self.voting_sessions@.subrange(0, i as int)),
                count <= i,
            decreases self.voting_sessions@.len() - i,
        {
            proof {
                assert(self.voting_sessions@.subrange(0, i + 1).drop_last() =~= self.voting_sessions@.subrange(
                    0,
                    i as int,
                ));
            }
            if self.voting_sessions[i].is_active {
                count = count + 1;
            }
            i += 1;
        }
        proof {
            assert(self.voting_sessions@.subrange(0, i as int) =~= self.voting_sessions@);
        }
        count
    }
}

/// Spawns one voting locker per vote option for `proposal_id` (owner only,
/// once per proposal) and records the session as active, which pauses
/// deposits and withdrawals. `lockers[i]` is the address the locker of vote
/// option `i + 1` is created at; each locker votes for its option on
/// creation.
pub fn execute_create_voting_lockers(
    m: &mut StakeManager,
    env: &Env,
    info: &MessageInfo,
    proposal_id: u64,
    lockers: &[String; 4],
) -> (r: Result<Response, ContractError>)
    requires
        old(m).wf(),
    ensures
        final(m).wf(),
        final(m).state.global_reward_index.atomics >= old(m).state.global_reward_index.atomics,
        info.sender@ != old(m).config.owner@ ==> r == Err::<Response, ContractError>(ContractError::Unauthorized {}),
        info.sender@ == old(m).config.owner@ && old(m).sessions().contains_key(proposal_id) ==> r == Err::<
            Response,
            ContractError,
        >(ContractError::VotingSessionExists { proposal_id }),
        r is Ok <==> info.sender@ == old(m).config.owner@ && !old(m).sessions().contains_key(proposal_id),
        r is Err ==> *final(m) == *old(m),
        r matches Ok(resp) ==> {
            &&& final(m).voting_sessions@.len() == old(m).voting_sessions@.len() + 1
            &&& final(m).voting_sessions@.drop_last() == old(m).voting_sessions@
            &&& created_session(final(m).voting_sessions@.last(), proposal_id, lockers@)
            &&& final(m).sessions() == old(m).sessions().insert(proposal_id, final(m).voting_sessions@.last())
            &&& final(m).is_paused
            &&& final(m).config == old(m).config
            &&& final(m).state == old(m).state
            &&& final(m).stakers == old(m).stakers
            &&& final(m).same_slots(*old(m))
            &&& resp.messages@.len() == NUM_VOTE_OPTIONS
            &&& forall|i: int|
                0 <= i < NUM_VOTE_OPTIONS ==> #[trigger] resp.messages@[i] == (SubMsg {
                    msg: Command::InstantiateLocker {
                        admin: env.contract_address,
                        code_id: old(m).config.locker_code_id,
                        msg: locker_types::InstantiateMsg {
                            proposal_id,
                            vote_option: vote_option_at(i),
                            validator: old(m).config.validator,
                            manager: env.contract_address,
                        },
                    },
                    reply_on_success: None,
                })
        },
{
    if info.sender != m.config.owner {
        return Err(ContractError::Unauthorized {});
    }
    if m.find_session(proposal_id).is_some() {
        return Err(ContractError::VotingSessionExists { proposal_id });
    }
    let mut resp = Response::new();
    let mut pairs: Vec<(i32, String)> = Vec::new();
    let mut option: i32 = 1;
    while option <= NUM_VOTE_OPTIONS
        invariant
            1 <= option <= NUM_VOTE_OPTIONS + 1,
            resp.messages@.len() == option - 1,
            pairs@.len() == option - 1,
            forall|i: int| 0 <= i < option - 1 ==> #[trigger] pairs@[i] == (vote_option_at(i), lockers@[i]),
            forall|i: int|
                0 <= i < option - 1 ==> #[trigger] resp.messages@[i] == (SubMsg {
                    msg: Command::InstantiateLocker {
                        admin: env.contract_address,
                        code_id: m.config.locker_code_id,
                        msg: locker_types::InstantiateMsg {
                            proposal_id,
                            vote_option: vote_option_at(i),
                            validator: m.config.validator,
                            manager: env.contract_address,
                        },
                    },
                    reply_on_success: None,
                }),
        decreases NUM_VOTE_OPTIONS + 1 - option,
    {
        resp.add_message(
            Command::InstantiateLocker {
                admin: env.contract_address.clone(),
                code_id: m.config.locker_code_id,
                msg: locker_types::InstantiateMsg {
                    proposal_id,
                    vote_option: option,
                    validator: m.config.validator.clone(),
                    manager: env.contract_address.clone(),
                },
            },
        );
        let index = (option - 1) as usize;
        pairs.push((option, lockers[index].clone()));
        option = option + 1;
    }
    let session = VotingSession { proposal_id, locker_addresses: pairs, is_active: true };
    proof {
        lemma_sessions_push(m.voting_sessions@, session);
        lemma_count_push(m.voting_sessions@, session);
    }
    m.voting_sessions.push(session);
    m.is_paused = true;
    proof {
        assert(m.voting_sessions@.drop_last() =~= old(m).voting_sessions@);
    }
    Ok(resp)
}

/// The error for a proposal not shown over: `InvalidLsmShares` for an answer
/// that could not be decoded, `ProposalStillActive` for a live status.
pub open spec fn proposal_error(proposal_id: u64, lookup: ProposalLookup, e: ContractError) -> bool {
    match lookup {
        ProposalLookup::Malformed => e is InvalidLsmShares,
        _ => e matches ContractError::ProposalStillActive { proposal_id: id, .. } && id == proposal_id,
    }
}

/// Fails unless the proposal is over: its status is passed, rejected or
/// failed, or the ledger no longer has it (a purged proposal counts as over).
pub fn verify_proposal_finished(proposal_id: u64, lookup: ProposalLookup) -> (r: Result<(), ContractError>)
    ensures
        r is Ok <==> shows_finished(lookup),
        r matches Err(e) ==> proposal_error(proposal_id, lookup, e),
{
    match lookup {
        ProposalLookup::Unavailable => Ok(()),
        ProposalLookup::Malformed => Err(
            ContractError::InvalidLsmShares {
                reason: String::from_str("Failed to decode proposal query response"),
            },
        ),
        ProposalLookup::Answered(None) => Ok(()),
        ProposalLookup::Answered(Some(status)) => {
            if 3 <= status && status <= 5 {
                Ok(())
            } else {
                Err(ContractError::ProposalStillActive { proposal_id, status: status_name(status) })
            }
        },
    }
}

/// `sm` tells the locker at `locker` to dissolve.
pub open spec fn is_destroy_of(sm: SubMsg, locker: String) -> bool {
    &&& sm.reply_on_success is None
    &&& sm.msg matches Command::ExecuteLocker { contract_addr, msg, funds } && contract_addr == locker
        && msg is Destroy && funds@.len() == 0
}

/// Ends the session of `proposal_id` (owner only, once the proposal is over):
/// every locker is told to dissolve and the session becomes inactive. The
/// pause is lifted when no session is left active; otherwise the call fails
/// with the number still active, and the session stays inactive.
pub fn execute_destroy_voting_lockers(
    m: &mut StakeManager,
    info: &MessageInfo,
    proposal_id: u64,
    lookup: ProposalLookup,
) -> (r: Result<Response, ContractError>)
    requires
        old(m).wf(),
    ensures
        final(m).wf(),
        final(m).state.global_reward_index.atomics >= old(m).state.global_reward_index.atomics,
        info.sender@ != old(m).config.owner@ ==> r == Err::<Response, ContractError>(ContractError::Unauthorized {})
            && *final(m) == *old(m),
        info.sender@ == old(m).config.owner@ && !shows_finished(lookup) ==> (r matches Err(e) && proposal_error(
            proposal_id,
            lookup,
            e,
        )) && *final(m) == *old(m),
        info.sender@ == old(m).config.owner@ && shows_finished(lookup) && !old(m).sessions().contains_key(proposal_id) ==> r == Err::<Response, ContractError>(
            ContractError::VotingSessionNotFound { proposal_id },
        ) && *final(m) == *old(m),
        info.sender@ == old(m).config.owner@ && shows_finished(lookup) && old(m).sessions().contains_key(proposal_id) ==> {
            let old_session = old(m).sessions()[proposal_id];
            let still_active = count_active(final(m).voting_sessions@);
            &&& final(m).sessions() == old(m).sessions().insert(
                proposal_id,
                VotingSession { is_active: false, ..old_session },
            )
            &&& final(m).voting_sessions@.len() == old(m).voting_sessions@.len()
            &&& final(m).config == old(m).config
            &&& final(m).state == old(m).state
            &&& final(m).stakers == old(m).stakers
            &&& final(m).same_slots(*old(m))
            &&& still_active == 0 ==> (r matches Ok(resp) && !final(m).is_paused
                && resp.messages@.len() == old_session.locker_addresses@.len() && forall|i: int|
                0 <= i < resp.messages@.len() ==> is_destroy_of(
                    #[trigger] resp.messages@[i],
                    old_session.locker_addresses@[i].1,
                ))
            &&& still_active > 0 ==> r == Err::<Response, ContractError>(
                ContractError::CannotUnpause { active_count: still_active as u64 },
            ) && final(m).is_paused
        },
{
    if info.sender != m.config.owner {
        return Err(ContractError::Unauthorized {});
    }
    verify_proposal_finished(proposal_id, lookup)?;
    let i = match m.find_session(proposal_id) {
        Some(i) => i,
        None => {
            return Err(ContractError::VotingSessionNotFound { proposal_id });
        },
    };
    let mut resp = Response::new();
    let n = m.voting_sessions[i].locker_addresses.len();
    let mut k: usize = 0;
    while k < n
        invariant
            i < m.voting_sessions@.len(),
            n == m.voting_sessions@[i as int].locker_addresses@.len(),
            k <= n,
            resp.messages@.len() == k,
            forall|j: int|
                0 <= j < k ==> is_destroy_of(
                    #[trigger] resp.messages@[j],
                    m.voting_sessions@[i as int].locker_addresses@[j].1,
                ),
        decreases n - k,
    {
        let addr = m.voting_sessions[i].locker_addresses[k].1.clone();
        resp.add_message(
            Command::ExecuteLocker {
                contract_addr: addr,
                msg: locker_types::ExecuteMsg::Destroy {  },
                funds: Vec::new(),
            },
        );
        k += 1;
    }
    let ghost before = m.voting_sessions@;
    let mut session = VotingSession { proposal_id: 0, locker_addresses: Vec::new(), is_active: false };
    std::mem::swap(&mut m.voting_sessions[i], &mut session);
    session.is_active = false;
    std::mem::swap(&mut m.voting_sessions[i], &mut session);
    proof {
        let updated = VotingSession { is_active: false, ..before[i as int] };
        assert(m.voting_sessions@ =~= before.update(i as int, updated));
        lemma_sessions_update(before, i as int, updated);
        lemma_count_update(before, i as int, updated);
    }
    let active_count = m.active_session_count();
    if active_count == 0 {
        m.is_paused = false;
        Ok(resp)
    } else {
        Err(ContractError::CannotUnpause { active_count })
    }
}


/// Whether `who` is the locker recorded for `vote_option`.
pub open spec fn is_locker_for(pairs: Seq<(i32, String)>, vote_option: i32, who: Seq<char>) -> bool {
    locker_of(pairs, vote_option) matches Some(a) && a@ == who
}

/// Takes back receipt tokens from the locker registered for `vote_option` of
/// `proposal_id` and redeems them into the pool's delegation. The shares were
/// counted when the locker got them, so neither the total nor the index
/// moves: nothing of the stored state changes.
pub fn execute_return_lsm_shares(
    m: &StakeManager,
    env: &Env,
    info: &MessageInfo,
    proposal_id: u64,
    vote_option: i32,
) -> (r: Result<Response, ContractError>)
    requires
        m.wf(),
    ensures
        !m.sessions().contains_key(proposal_id) ==> r == Err::<Response, ContractError>(
            ContractError::VotingSessionNotFound { proposal_id },
        ),
        m.sessions().contains_key(proposal_id) && !is_locker_for(
            m.sessions()[proposal_id].locker_addresses@,
            vote_option,
            info.sender@,
        ) ==> r == Err::<Response, ContractError>(
            ContractError::InvalidLocker { sender: info.sender, proposal_id, vote_option },
        ),
        m.sessions().contains_key(proposal_id) && is_locker_for(
            m.sessions()[proposal_id].locker_addresses@,
            vote_option,
            info.sender@,
        ) && !is_single_receipt(*info, m.config.validator@) ==> (r matches Err(e)
            && receipt_error(*info, m.config.validator@, e)),
        r is Ok <==> m.sessions().contains_key(proposal_id) && is_locker_for(
            m.sessions()[proposal_id].locker_addresses@,
            vote_option,
            info.sender@,
        ) && is_single_receipt(*info, m.config.validator@),
        r matches Ok(resp) ==> resp.messages@ == seq![
            SubMsg {
                msg: Command::RedeemTokensForShares {
                    delegator: env.contract_address,
                    coin: info.funds@[0],
                },
                reply_on_success: None,
            },
        ],
{
    let i = match m.find_session(proposal_id) {
        Some(i) => i,
        None => {
            return Err(ContractError::VotingSessionNotFound { proposal_id });
        },
    };
    let expected = find_locker(&m.voting_sessions[i], vote_option);
    let matches_sender = match &expected {
        Some(addr) => *addr == info.sender,
        None => false,
    };
    if !matches_sender {
        return Err(
            ContractError::InvalidLocker { sender: info.sender.clone(), proposal_id, vote_option },
        );
    }
    check_single_receipt(info, &m.config.validator)?;
    let mut resp = Response::new();
    resp.add_message(
        Command::RedeemTokensForShares {
            delegator: env.contract_address.clone(),
            coin: copy_coin(&info.funds[0]),
        },
    );
    proof {
        assert(resp.messages@ =~= seq![
            SubMsg {
                msg: Command::RedeemTokensForShares {
                    delegator: env.contract_address,
                    coin: info.funds@[0],
                },
                reply_on_success: None,
            },
        ]);
    }
    Ok(resp)
}

impl StakeManager {
    /// The session of `proposal_id`, if it is active.
    pub open spec fn active_session(&self, proposal_id: u64) -> Option<VotingSession> {
        if self.sessions().contains_key(proposal_id) && self.sessions()[proposal_id].is_active {
            Some(self.sessions()[proposal_id])
        } else {
            None
        }
    }

    /// Whether a rental paid with `info`'s funds is accepted, with `delegated`
    /// the pool's real delegated balance.
    pub open spec fn rental_accepted(
        &self,
        info: MessageInfo,
        proposal_id: u64,
        vote_option: i32,
        delegated: u128,
    ) -> bool {
        &&& self.active_session(proposal_id) matches Some(s) && locker_of(s.locker_addresses@, vote_option) is Some
        &&& info.funds@.len() == 1
        &&& info.funds@[0].denom@ == self.config.staking_denom@
        &&& info.funds@[0].amount > 0
        &&& info.funds@[0].amount * WEIGHT_PER_PAYMENT <= delegated
    }
}

/// Rents voting weight for the locker of `vote_option` of `proposal_id`: a
/// payment of `p` staking tokens buys weight `10 * p`, which must be covered
/// by the pool's real delegated balance `delegated`. The payment is spread
/// over the depositors through the index; the rental waits in its slot while
/// `10 * p` of the delegation is tokenized to this program, and the
/// continuation hands the receipt to the locker.
pub fn execute_rent_voting_power(
    m: &mut StakeManager,
    env: &Env,
    info: &MessageInfo,
    proposal_id: u64,
    vote_option: i32,
    delegated: u128,
) -> (r: Result<Response, ContractError>)
    requires
        old(m).wf(),
    ensures
        final(m).wf(),
        !old(m).sessions().contains_key(proposal_id) ==> r == Err::<Response, ContractError>(
            ContractError::NoVotingSession { proposal_id },
        ),
        old(m).sessions().contains_key(proposal_id) && locker_of(
            old(m).sessions()[proposal_id].locker_addresses@,
            vote_option,
        ) is None ==> r == Err::<Response, ContractError>(ContractError::LockerNotFound { proposal_id, vote_option }),
        old(m).sessions().contains_key(proposal_id) && locker_of(
            old(m).sessions()[proposal_id].locker_addresses@,
            vote_option,
        ) is Some && !old(m).sessions()[proposal_id].is_active ==> r == Err::<Response, ContractError>(
            ContractError::NoVotingSession { proposal_id },
        ),
        old(m).active_session(proposal_id) matches Some(s) && locker_of(s.locker_addresses@, vote_option) is Some
            && (info.funds@.len() != 1 || info.funds@[0].denom@ != old(m).config.staking_denom@) ==> r == Err::<
            Response,
            ContractError,
        >(ContractError::InvalidFunds { expected: old(m).config.staking_denom }),
        old(m).active_session(proposal_id) matches Some(s) && locker_of(s.locker_addresses@, vote_option) is Some
            && info.funds@.len() == 1 && info.funds@[0].denom@ == old(m).config.staking_denom@
            && info.funds@[0].amount == 0 ==> r == Err::<Response, ContractError>(ContractError::ZeroAmount {}),
        old(m).active_session(proposal_id) matches Some(s) && locker_of(s.locker_addresses@, vote_option) is Some
            && info.funds@.len() == 1 && info.funds@[0].denom@ == old(m).config.staking_denom@
            && info.funds@[0].amount > 0 && info.funds@[0].amount * WEIGHT_PER_PAYMENT > u128::MAX ==> r == Err::<
            Response,
            ContractError,
        >(ContractError::InsufficientBalance { available: info.funds@[0].amount, required: 1 }),
        old(m).active_session(proposal_id) matches Some(s) && locker_of(s.locker_addresses@, vote_option) is Some
            && info.funds@.len() == 1 && info.funds@[0].denom@ == old(m).config.staking_denom@
            && info.funds@[0].amount > 0 && info.funds@[0].amount * WEIGHT_PER_PAYMENT <= u128::MAX
            && info.funds@[0].amount * WEIGHT_PER_PAYMENT > delegated ==> r == Err::<Response, ContractError>(
            ContractError::InsufficientStakedTokens {
                available: delegated,
                required: (info.funds@[0].amount * WEIGHT_PER_PAYMENT) as u128,
            },
        ),
        r is Ok <==> old(m).rental_accepted(*info, proposal_id, vote_option, delegated),
        r is Err ==> *final(m) == *old(m),
        r matches Ok(resp) ==> {
            &&& final(m).state.global_reward_index.atomics == indexed_reward(
                old(m).state.global_reward_index.atomics as int,
                info.funds@[0].amount as int,
                old(m).state.total_staked as int,
            )
            &&& final(m).state.total_staked == old(m).state.total_staked
            &&& final(m).stakers == old(m).stakers
            &&& final(m).same_setup(*old(m))
            &&& final(m).active_rental == Some(ActiveRental { proposal_id, vote_option })
            &&& final(m).active_claim == old(m).active_claim
            &&& final(m).active_withdraw == old(m).active_withdraw
            &&& resp.messages@ == seq![
                SubMsg {
                    msg: Command::TokenizeShares {
                        delegator: env.contract_address,
                        validator: old(m).config.validator,
                        amount: (info.funds@[0].amount * WEIGHT_PER_PAYMENT) as u128,
                        denom: old(m).config.staking_denom,
                        owner: env.contract_address,
                    },
                    reply_on_success: Some(REPLY_TOKENIZE_SHARES_RENTAL),
                },
            ]
        },
        final(m).state.global_reward_index.atomics >= old(m).state.global_reward_index.atomics,
{
    let i = match m.find_session(proposal_id) {
        Some(i) => i,
        None => {
            return Err(ContractError::NoVotingSession { proposal_id });
        },
    };
    if find_locker(&m.voting_sessions[i], vote_option).is_none() {
        return Err(ContractError::LockerNotFound { proposal_id, vote_option });
    }
    if !m.voting_sessions[i].is_active {
        return Err(ContractError::NoVotingSession { proposal_id });
    }
    if info.funds.len() != 1 {
        return Err(ContractError::InvalidFunds { expected: m.config.staking_denom.clone() });
    }
    let payment = &info.funds[0];
    if payment.denom != m.config.staking_denom {
        return Err(ContractError::InvalidFunds { expected: m.config.staking_denom.clone() });
    }
    if payment.amount == 0 {
        return Err(ContractError::ZeroAmount {});
    }
    if payment.amount > u128::MAX / WEIGHT_PER_PAYMENT {
        return Err(ContractError::InsufficientBalance { available: payment.amount, required: 1 });
    }
    let weight = payment.amount * WEIGHT_PER_PAYMENT;
    if weight > delegated {
        return Err(ContractError::InsufficientStakedTokens { available: delegated, required: weight });
    }
    m.state.add_rewards(payment.amount);
    m.active_rental = Some(ActiveRental { proposal_id, vote_option });
    let mut resp = Response::new();
    resp.add_submessage(
        Command::TokenizeShares {
            delegator: env.contract_address.clone(),
            validator: m.config.validator.clone(),
            amount: weight,
            denom: m.config.staking_denom.clone(),
            owner: env.contract_address.clone(),
        },
        REPLY_TOKENIZE_SHARES_RENTAL,
    );
    proof {
        assert(resp.messages@ =~= seq![
            SubMsg {
                msg: Command::TokenizeShares {
                    delegator: env.contract_address,
                    validator: old(m).config.validator,
                    amount: (info.funds@[0].amount * WEIGHT_PER_PAYMENT) as u128,
                    denom: old(m).config.staking_denom,
                    owner: env.contract_address,
                },
                reply_on_success: Some(REPLY_TOKENIZE_SHARES_RENTAL),
            },
        ]);
    }
    Ok(resp)
}

/// What the claim continuation, [`reply_claim_rewards`], with `balance_after`, does: `old` and `new` are the states before and after,
/// `r` the result.
pub open spec fn claim_settled(old: StakeManager, new: StakeManager, balance_after: u128, r: Result<Response, ContractError>) -> bool {
    &&& old.active_claim is None ==> r == Err::<Response, ContractError>(ContractError::Std(StdError::NotFound))
        && new == old
    &&& old.active_claim matches Some(claim) ==> {
        let received = if balance_after >= claim.balance_before {
            balance_after - claim.balance_before
        } else {
            0
        };
        let index = Decimal {
            atomics: indexed_reward(
                old.state.global_reward_index.atomics as int,
                received,
                old.state.total_staked as int,
            ) as u128,
        };
        &&& !old.records().contains_key(claim.claimer@) ==> r == Err::<Response, ContractError>(
            ContractError::Std(StdError::NotFound),
        ) && new == old
        &&& old.records().contains_key(claim.claimer@) ==> {
            let record = old.records()[claim.claimer@];
            let reward = record.pending_at(index);
            &&& reward > u128::MAX ==> r == Err::<Response, ContractError>(
                ContractError::Std(StdError::Overflow),
            ) && new == old
            &&& reward <= u128::MAX ==> new.active_claim is None && new.same_setup(old) && new.active_withdraw
                == old.active_withdraw && new.active_rental == old.active_rental
            &&& reward == 0 ==> r == Err::<Response, ContractError>(ContractError::NoRewards {})
                && new.state == old.state && new.stakers == old.stakers
            &&& 0 < reward <= u128::MAX ==> (r matches Ok(resp) && resp.messages@.len() == 1 && is_send_of(
                resp.messages@[0],
                claim.claimer,
                Coin { denom: old.config.staking_denom, amount: reward as u128 },
            )) && new.state == (State {
                total_staked: old.state.total_staked,
                global_reward_index: index,
            }) && new.records() == old.records().insert(
                claim.claimer@,
                Staker { staked_amount: record.staked_amount, reward_index: index },
            )
        }
    }
}

/// Settles a claim once the reward withdrawal succeeded, with
/// `balance_after` the pool's staking-denom balance now. What arrived since
/// the claim began is spread through the index, and the claimer's pending
/// reward at the new index is paid out and the record settled. If nothing is
/// owed the claim is dropped with nothing else changed; a reward beyond 128
/// bits fails with nothing changed.
pub fn reply_claim_rewards(m: &mut StakeManager, balance_after: u128) -> (r: Result<Response, ContractError>)
    requires
        old(m).wf(),
    ensures
        final(m).wf(),
        final(m).state.global_reward_index.atomics >= old(m).state.global_reward_index.atomics,
        claim_settled(*old(m), *final(m), balance_after, r),
{
    let claim = match &m.active_claim {
        Some(c) => c,
        None => {
            return Err(ContractError::Std(StdError::NotFound));
        },
    };
    let received = if balance_after >= claim.balance_before {
        balance_after - claim.balance_before
    } else {
        0
    };
    let mut state = m.state;
    state.add_rewards(received);
    let i = match m.find_staker(&claim.claimer) {
        Some(i) => i,
        None => {
            return Err(ContractError::Std(StdError::NotFound));
        },
    };
    proof {
        lemma_record_at(m.stakers@, i as int);
    }
    let claimer = claim.claimer.clone();
    let mut staker = m.stakers[i].staker;
    let reward = match staker.checked_pending_rewards(state.global_reward_index) {
        Some(v) => v,
        None => {
            return Err(ContractError::Std(StdError::Overflow));
        },
    };
    if reward == 0 {
        m.active_claim = None;
        return Err(ContractError::NoRewards {});
    }
    staker.update_index(state.global_reward_index);
    m.put_staker(&claimer, staker);
    m.state.global_reward_index = state.global_reward_index;
    m.active_claim = None;
    let mut coins: Vec<Coin> = Vec::new();
    coins.push(Coin { denom: m.config.staking_denom.clone(), amount: reward });
    let mut resp = Response::new();
    resp.add_message(Command::BankSend { to_address: claimer, amount: coins });
    Ok(resp)
}

/// What the withdrawal continuation, [`reply_tokenize_shares_withdraw`], with `balances`, does: `old` and `new` are the states before and after,
/// `r` the result.
pub open spec fn withdraw_settled(old: StakeManager, new: StakeManager, balances: Vec<Coin>, r: Result<Response, ContractError>) -> bool {
    &&& old.active_withdraw is None ==> r == Err::<Response, ContractError>(
        ContractError::Std(StdError::NotFound),
    )
    &&& r is Err ==> new == old
    &&& old.active_withdraw matches Some(w) ==> {
        &&& (forall|j: int|
            0 <= j < balances@.len() ==> !is_receipt_of(
                #[trigger] balances@[j].denom@,
                old.config.validator@,
            )) ==> (r matches Err(ContractError::InvalidLsmShares { .. }))
        &&& (exists|j: int|
            0 <= j < balances@.len() && is_receipt_of(
                #[trigger] balances@[j].denom@,
                old.config.validator@,
            )) ==> r is Ok
        &&& r matches Ok(resp) ==> resp.messages@.len() == 1 && (exists|j: int|
            0 <= j < balances@.len() && is_receipt_of(balances@[j].denom@, old.config.validator@)
                && (forall|k: int|
                0 <= k < j ==> !is_receipt_of(#[trigger] balances@[k].denom@, old.config.validator@))
                && is_send_of(resp.messages@[0], w.withdrawer, balances@[j])) && new.active_withdraw
            is None && new.state == old.state && new.stakers == old.stakers
            && new.same_setup(old) && new.active_claim == old.active_claim
            && new.active_rental == old.active_rental
    }
}

/// Forwards the receipt token of a withdrawal to the withdrawer, once the
/// tokenization succeeded: the first coin of `balances` (this program's
/// balances now) whose denom starts with `{validator}/`.
pub fn reply_tokenize_shares_withdraw(m: &mut StakeManager, balances: &Vec<Coin>) -> (r: Result<
    Response,
    ContractError,
>)
    requires
        old(m).wf(),
    ensures
        final(m).wf(),
        final(m).state.global_reward_index.atomics >= old(m).state.global_reward_index.atomics,
        withdraw_settled(*old(m), *final(m), *balances, r),
{
    let withdrawer = match &m.active_withdraw {
        Some(w) => w.withdrawer.clone(),
        None => {
            return Err(ContractError::Std(StdError::NotFound));
        },
    };
    let j = match find_receipt(balances, &m.config.validator) {
        Some(j) => j,
        None => {
            return Err(
                ContractError::InvalidLsmShares {
                    reason: String::from_str("No LSM share found for validator after tokenization"),
                },
            );
        },
    };
    let mut coins: Vec<Coin> = Vec::new();
    coins.push(copy_coin(&balances[j]));
    m.active_withdraw = None;
    let mut resp = Response::new();
    resp.add_message(Command::BankSend { to_address: withdrawer, amount: coins });
    proof {
        assert(is_receipt_of(balances@[j as int].denom@, old(m).config.validator@));
        assert(coins@ =~= seq![balances@[j as int]]);
    }
    Ok(resp)
}

/// What the rental continuation, [`reply_tokenize_shares_rental`], with `balances`, does: `old` and `new` are the states before and after,
/// `r` the result.
pub open spec fn rental_settled(old: StakeManager, new: StakeManager, balances: Vec<Coin>, r: Result<Response, ContractError>) -> bool {
    &&& old.active_rental is None ==> r == Err::<Response, ContractError>(ContractError::Std(StdError::NotFound))
    &&& r is Err ==> new == old
    &&& old.active_rental matches Some(rent) ==> {
        &&& !old.sessions().contains_key(rent.proposal_id) ==> r == Err::<Response, ContractError>(
            ContractError::NoVotingSession { proposal_id: rent.proposal_id },
        )
        &&& old.sessions().contains_key(rent.proposal_id) ==> {
            let pairs = old.sessions()[rent.proposal_id].locker_addresses@;
            &&& locker_of(pairs, rent.vote_option) is None ==> r == Err::<Response, ContractError>(
                ContractError::LockerNotFound {
                    proposal_id: rent.proposal_id,
                    vote_option: rent.vote_option,
                },
            )
            &&& locker_of(pairs, rent.vote_option) matches Some(locker) ==> {
            &&& (forall|j: int|
                0 <= j < balances@.len() ==> !is_receipt_of(
                    #[trigger] balances@[j].denom@,
                    old.config.validator@,
                )) ==> (r matches Err(ContractError::InvalidLsmShares { .. }))
            &&& r matches Ok(resp) ==> resp.messages@.len() == 1 && (exists|j: int|
                0 <= j < balances@.len() && is_receipt_of(balances@[j].denom@, old.config.validator@)
                    && (forall|k: int|
                    0 <= k < j ==> !is_receipt_of(
                        #[trigger] balances@[k].denom@,
                        old.config.validator@,
                    )) && is_deposit_of(resp.messages@[0], locker, balances@[j])) && new.active_rental
                is None && new.state == old.state && new.stakers == old.stakers
                && new.same_setup(old) && new.active_claim == old.active_claim
                && new.active_withdraw == old.active_withdraw
            &&& (exists|j: int|
                0 <= j < balances@.len() && is_receipt_of(
                    #[trigger] balances@[j].denom@,
                    old.config.validator@,
                )) ==> r is Ok
            }
        }
    }
}

/// Hands the receipt token of a rental to the locker it was rented for, once
/// the tokenization succeeded: the first coin of `balances` (this program's
/// balances now) whose denom starts with `{validator}/` goes to that
/// locker's `DepositLsmShares`.
pub fn reply_tokenize_shares_rental(m: &mut StakeManager, balances: &Vec<Coin>) -> (r: Result<
    Response,
    ContractError,
>)
    requires
        old(m).wf(),
    ensures
        final(m).wf(),
        final(m).state.global_reward_index.atomics >= old(m).state.global_reward_index.atomics,
        rental_settled(*old(m), *final(m), *balances, r),
{
    let rent = match m.active_rental {
        Some(a) => a,
        None => {
            return Err(ContractError::Std(StdError::NotFound));
        },
    };
    let i = match m.find_session(rent.proposal_id) {
        Some(i) => i,
        None => {
            return Err(ContractError::NoVotingSession { proposal_id: rent.proposal_id });
        },
    };
    let locker = match find_locker(&m.voting_sessions[i], rent.vote_option) {
        Some(l) => l,
        None => {
            return Err(
                ContractError::LockerNotFound {
                    proposal_id: rent.proposal_id,
                    vote_option: rent.vote_option,
                },
            );
        },
    };
    let j = match find_receipt(balances, &m.config.validator) {
        Some(j) => j,
        None => {
            return Err(
                ContractError::InvalidLsmShares {
                    reason: String::from_str("No LSM share found for validator after tokenization"),
                },
            );
        },
    };
    let mut coins: Vec<Coin> = Vec::new();
    coins.push(copy_coin(&balances[j]));
    m.active_rental = None;
    let mut resp = Response::new();
    resp.add_message(
        Command::ExecuteLocker {
            contract_addr: locker,
            msg: locker_types::ExecuteMsg::DepositLsmShares {  },
            funds: coins,
        },
    );
    proof {
        assert(is_receipt_of(balances@[j as int].denom@, old(m).config.validator@));
        assert(coins@ =~= seq![balances@[j as int]]);
    }
    Ok(resp)
}

/// `sm` hands `coin` to the locker at `locker` through its deposit.
pub open spec fn is_deposit_of(sm: SubMsg, locker: String, coin: Coin) -> bool {
    &&& sm.reply_on_success is None
    &&& sm.msg matches Command::ExecuteLocker { contract_addr, msg, funds } && contract_addr == locker
        && msg is DepositLsmShares && funds@ == seq![coin]
}

/// The continuation handler: routes the outcome of command `id` to its
/// settlement, with `balances` this program's balances now. An unknown id is
/// refused.
pub fn reply(m: &mut StakeManager, id: u64, balances: &Vec<Coin>) -> (r: Result<Response, ContractError>)
    requires
        old(m).wf(),
    ensures
        final(m).wf(),
        final(m).state.global_reward_index.atomics >= old(m).state.global_reward_index.atomics,
        id == REPLY_CLAIM_REWARDS ==> claim_settled(
            *old(m),
            *final(m),
            amount_in(balances@, old(m).config.staking_denom@),
            r,
        ),
        id == REPLY_TOKENIZE_SHARES_RENTAL ==> rental_settled(*old(m), *final(m), *balances, r),
        id == REPLY_TOKENIZE_SHARES_WITHDRAW ==> withdraw_settled(*old(m), *final(m), *balances, r),
        id != REPLY_CLAIM_REWARDS && id != REPLY_TOKENIZE_SHARES_RENTAL && id != REPLY_TOKENIZE_SHARES_WITHDRAW
            ==> (r matches Err(ContractError::InvalidLsmShares { .. }))
            && *final(m) == *old(m),
{
    if id == REPLY_CLAIM_REWARDS {
        let balance = match find_first_amount(balances, &m.config.staking_denom) {
            Some(k) => balances[k].amount,
            None => 0,
        };
        reply_claim_rewards(m, balance)
    } else if id == REPLY_TOKENIZE_SHARES_RENTAL {
        reply_tokenize_shares_rental(m, balances)
    } else if id == REPLY_TOKENIZE_SHARES_WITHDRAW {
        reply_tokenize_shares_withdraw(m, balances)
    } else {
        Err(ContractError::InvalidLsmShares { reason: String::from_str("Unknown reply ID") })
    }
}

} // verus!
