use lsm_staking::gov::ProposalLookup;
use lsm_staking::ledger::{Coin, Command, Env, MessageInfo};
use lsm_staking::locker_types;
use lsm_staking::lsm_types::{InstantiateMsg, Staker};
use lsm_staking::math::Decimal;
use lsm_staking::queries::{query_config, query_staker_info, query_stakers};
use lsm_staking::staking::{
    execute_claim_rewards, execute_create_voting_lockers, execute_deposit_lsm_shares,
    execute_deposit_rewards, execute_destroy_voting_lockers, execute_rent_voting_power,
    execute_return_lsm_shares, execute_update_config, execute_withdraw, instantiate, parse_lsm_denom,
    reply, reply_claim_rewards, reply_tokenize_shares_rental, reply_tokenize_shares_withdraw,
    ContractError, StakeManager, StakerEntry, StdError, REPLY_CLAIM_REWARDS, REPLY_TOKENIZE_SHARES_RENTAL,
    REPLY_TOKENIZE_SHARES_WITHDRAW,
};

const VALIDATOR: &str = "cosmosvaloper1abc123";

fn coin(amount: u128, denom: &str) -> Coin {
    Coin { denom: denom.to_string(), amount }
}

fn info(sender: &str, funds: Vec<Coin>) -> MessageInfo {
    MessageInfo { sender: sender.to_string(), funds }
}

fn env() -> Env {
    Env { contract_address: "pool".to_string() }
}

fn manager(max_cap: Option<u128>) -> StakeManager {
    let msg = InstantiateMsg {
        staking_denom: "uatom".to_string(),
        owner: "owner".to_string(),
        validator: VALIDATOR.to_string(),
        max_cap,
        locker_code_id: 1,
    };
    instantiate(msg, true).unwrap().0
}

fn receipt(amount: u128) -> Vec<Coin> {
    vec![coin(amount, &format!("{}/1", VALIDATOR))]
}

fn deposit(m: &mut StakeManager, who: &str, amount: u128) {
    execute_deposit_lsm_shares(m, &env(), &info(who, receipt(amount))).unwrap();
}

/// Addresses `locker_{proposal_id}_{option}` of a session's lockers.
fn lockers(proposal_id: u64) -> [String; 4] {
    [1, 2, 3, 4].map(|option| format!("locker_{}_{}", proposal_id, option))
}

fn open_session(m: &mut StakeManager, proposal_id: u64) {
    execute_create_voting_lockers(m, &env(), &info("owner", vec![]), proposal_id, &lockers(proposal_id)).unwrap();
}

fn shares(m: &StakeManager, who: &str) -> u128 {
    m.stakers.iter().find(|e| e.address == who).map(|e| e.staker.staked_amount).unwrap()
}

#[test]
fn proper_initialization() {
    let msg = InstantiateMsg {
        staking_denom: "uatom".to_string(),
        owner: "owner".to_string(),
        validator: "validator".to_string(),
        max_cap: None,
        locker_code_id: 1,
    };
    let (m, res) = instantiate(msg, true).unwrap();
    assert_eq!(0, res.messages.len());

    assert_eq!(m.config.owner, "owner");
    assert_eq!(m.config.staking_denom, "uatom");
    assert_eq!(m.config.validator, "validator");
    assert_eq!(m.config.max_cap, None);
    assert_eq!(m.config.locker_code_id, 1);

    assert_eq!(m.state.total_staked, 0);
    assert_eq!(m.state.global_reward_index, Decimal::zero());

    assert_eq!(m.is_paused, false);
}

#[test]
fn instantiate_requires_known_validator() {
    let msg = InstantiateMsg {
        staking_denom: "uatom".to_string(),
        owner: "owner".to_string(),
        validator: "validator".to_string(),
        max_cap: None,
        locker_code_id: 1,
    };
    assert_eq!(
        instantiate(msg, false).unwrap_err(),
        ContractError::ValidatorNotFound { validator: "validator".to_string() }
    );
}

#[test]
fn test_parse_lsm_denom_valid() {
    let valid_denom = "cosmosvaloper1abc123/456";
    let result = parse_lsm_denom(valid_denom).unwrap();
    assert_eq!(result.validator, "cosmosvaloper1abc123");
    assert_eq!(result.record_id, "456");
}

#[test]
fn test_parse_lsm_denom_invalid_format() {
    let invalid_denom = "cosmosvaloper1abc123";
    let result = parse_lsm_denom(invalid_denom);
    assert!(result.is_err());
}

#[test]
fn test_parse_lsm_denom_invalid_validator() {
    let invalid_denom = "invalidprefix1abc123/456";
    let result = parse_lsm_denom(invalid_denom);
    assert!(result.is_err());
}

#[test]
fn test_parse_lsm_denom_invalid_record_id() {
    let invalid_denom = "cosmosvaloper1abc123/notanumber";
    let result = parse_lsm_denom(invalid_denom);
    assert!(result.is_err());
}

#[test]
fn parse_lsm_denom_edge_cases() {
    assert!(parse_lsm_denom("osmosisvaloper1xyz/0").is_ok());
    assert_eq!(parse_lsm_denom("cosmosvaloper1abc/+7").unwrap().record_id, "+7");
    assert!(parse_lsm_denom("cosmosvaloper1abc/1/2").is_err());
    assert!(parse_lsm_denom("cosmosvaloper1abc/").is_err());
    assert!(parse_lsm_denom("cosmosvaloper1abc/-1").is_err());
    assert!(parse_lsm_denom("cosmosvaloper1abc/18446744073709551615").is_ok());
    assert!(parse_lsm_denom("cosmosvaloper1abc/18446744073709551616").is_err());
    assert!(parse_lsm_denom("cosmosvalope/1").is_err());
}

#[test]
fn test_deposit_rewards_and_claim() {
    let mut m = manager(None);

    // Simulate a user having staked tokens
    let mut staker = Staker::new();
    staker.staked_amount = 1000;
    m.stakers.push(StakerEntry { address: "staker".to_string(), staker });
    m.state.total_staked = 1000;

    // Deposit rewards
    execute_deposit_rewards(&mut m, &info("depositor", vec![coin(100, "uatom")])).unwrap();

    // Check state updated
    assert_eq!(m.state.global_reward_index, Decimal::from_ratio(100, 1000));

    // Claim rewards
    let res = execute_claim_rewards(&mut m, &info("staker", vec![]), 0).unwrap();

    // Check that the reward withdrawal was issued
    assert_eq!(res.messages.len(), 1);
}

#[test]
fn reward_index_scenario_thousand_shares() {
    let mut m = manager(None);
    deposit(&mut m, "alice", 1000);
    execute_deposit_rewards(&mut m, &info("anyone", vec![coin(100, "uatom")])).unwrap();
    assert_eq!(m.state.global_reward_index.atomics(), 100_000_000_000_000_000);
    let before = query_staker_info(&m, &"alice".to_string(), &vec![]).unwrap();
    assert_eq!(before.pending_rewards, 100);

    let res = execute_claim_rewards(&mut m, &info("alice", vec![]), 5_000).unwrap();
    assert_eq!(res.messages[0].reply_on_success, Some(REPLY_CLAIM_REWARDS));
    // no further reward arrived: the balance is unchanged
    let res = reply_claim_rewards(&mut m, 5_000).unwrap();
    assert_eq!(
        res.messages[0].msg,
        Command::BankSend { to_address: "alice".to_string(), amount: vec![coin(100, "uatom")] }
    );
    assert!(m.active_claim.is_none());
    let after = query_staker_info(&m, &"alice".to_string(), &vec![]).unwrap();
    assert_eq!(after.pending_rewards, 0);
}

#[test]
fn claim_continuation_spreads_received_reward() {
    let mut m = manager(None);
    deposit(&mut m, "alice", 600);
    deposit(&mut m, "bob", 400);
    execute_claim_rewards(&mut m, &info("alice", vec![]), 10).unwrap();
    let res = reply(&mut m, REPLY_CLAIM_REWARDS, &vec![coin(1010, "uatom")]).unwrap();
    // 1000 arrived over 1000 shares: index 1, alice owed 600
    assert_eq!(m.state.global_reward_index, Decimal::from_ratio(1, 1));
    assert_eq!(
        res.messages[0].msg,
        Command::BankSend { to_address: "alice".to_string(), amount: vec![coin(600, "uatom")] }
    );
    let bob = query_staker_info(&m, &"bob".to_string(), &vec![]).unwrap();
    assert_eq!(bob.pending_rewards, 400);
}

#[test]
fn claim_with_nothing_owed_fails_and_drops_claim() {
    let mut m = manager(None);
    deposit(&mut m, "alice", 1000);
    execute_claim_rewards(&mut m, &info("alice", vec![]), 10).unwrap();
    assert_eq!(reply_claim_rewards(&mut m, 10).unwrap_err(), ContractError::NoRewards {});
    assert!(m.active_claim.is_none());
    assert_eq!(m.state.global_reward_index, Decimal::zero());
}

#[test]
fn claim_without_record_is_refused() {
    let mut m = manager(None);
    assert_eq!(
        execute_claim_rewards(&mut m, &info("nobody", vec![]), 0).unwrap_err(),
        ContractError::Std(StdError::NotFound)
    );
}

#[test]
fn continuation_without_pending_record_fails() {
    let mut m = manager(None);
    assert_eq!(reply_claim_rewards(&mut m, 0).unwrap_err(), ContractError::Std(StdError::NotFound));
    assert_eq!(
        reply_tokenize_shares_withdraw(&mut m, &vec![]).unwrap_err(),
        ContractError::Std(StdError::NotFound)
    );
    assert_eq!(
        reply_tokenize_shares_rental(&mut m, &vec![]).unwrap_err(),
        ContractError::Std(StdError::NotFound)
    );
}

#[test]
fn unknown_reply_id_is_refused() {
    let mut m = manager(None);
    assert!(matches!(reply(&mut m, 9, &vec![]), Err(ContractError::InvalidLsmShares { .. })));
}

#[test]
fn deposit_respects_max_cap() {
    let mut m = manager(Some(500));
    deposit(&mut m, "alice", 400);
    let err = execute_deposit_lsm_shares(&mut m, &env(), &info("bob", receipt(101))).unwrap_err();
    assert_eq!(err, ContractError::MaxCapReached { cap: 500, current: 400, attempting: 101 });
    assert_eq!(m.state.total_staked, 400);
    deposit(&mut m, "bob", 100);
    assert_eq!(m.state.total_staked, 500);
}

#[test]
fn deposit_redeems_receipt_and_snapshots_index() {
    let mut m = manager(None);
    deposit(&mut m, "alice", 1000);
    execute_deposit_rewards(&mut m, &info("x", vec![coin(100, "uatom")])).unwrap();
    let res = execute_deposit_lsm_shares(&mut m, &env(), &info("bob", receipt(500))).unwrap();
    assert_eq!(
        res.messages[0].msg,
        Command::RedeemTokensForShares { delegator: "pool".to_string(), coin: receipt(500)[0].clone() }
    );
    let bob = query_staker_info(&m, &"bob".to_string(), &vec![]).unwrap();
    assert_eq!(bob.staked_amount, 500);
    assert_eq!(bob.pending_rewards, 0);
    assert_eq!(m.state.total_staked, 1500);
}

#[test]
fn deposit_refusals() {
    let mut m = manager(None);
    let two = vec![receipt(1)[0].clone(), receipt(1)[0].clone()];
    assert!(matches!(
        execute_deposit_lsm_shares(&mut m, &env(), &info("a", two)),
        Err(ContractError::InvalidLsmShares { .. })
    ));
    assert_eq!(
        execute_deposit_lsm_shares(&mut m, &env(), &info("a", receipt(0))).unwrap_err(),
        ContractError::ZeroAmount {}
    );
    assert!(matches!(
        execute_deposit_lsm_shares(&mut m, &env(), &info("a", vec![coin(5, "uatom")])),
        Err(ContractError::InvalidLsmShares { .. })
    ));
    assert_eq!(
        execute_deposit_lsm_shares(&mut m, &env(), &info("a", vec![coin(5, "cosmosvaloper1other/3")]))
            .unwrap_err(),
        ContractError::InvalidValidator {
            validator: "cosmosvaloper1other".to_string(),
            expected: VALIDATOR.to_string()
        }
    );
    deposit(&mut m, "a", u128::MAX - 1);
    assert_eq!(
        execute_deposit_lsm_shares(&mut m, &env(), &info("b", receipt(2))).unwrap_err(),
        ContractError::Std(StdError::Overflow)
    );
    assert_eq!(m.state.total_staked, u128::MAX - 1);
}

#[test]
fn deposit_rewards_refusals() {
    let mut m = manager(None);
    assert_eq!(
        execute_deposit_rewards(&mut m, &info("x", vec![coin(5, "uosmo")])).unwrap_err(),
        ContractError::InvalidFunds { expected: "uatom".to_string() }
    );
    assert_eq!(
        execute_deposit_rewards(&mut m, &info("x", vec![coin(0, "uatom")])).unwrap_err(),
        ContractError::ZeroAmount {}
    );
}

#[test]
fn withdraw_after_slash_burns_rounded_up_shares() {
    let mut m = manager(None);
    deposit(&mut m, "alice", 600);
    deposit(&mut m, "bob", 400);
    let res =
        execute_withdraw(&mut m, &env(), &info("alice", vec![]), 100, String::new(), 999).unwrap();
    assert_eq!(shares(&m, "alice"), 499);
    assert_eq!(m.state.total_staked, 899);
    assert_eq!(res.messages.len(), 1);
    assert_eq!(
        res.messages[0].msg,
        Command::TokenizeShares {
            delegator: "pool".to_string(),
            validator: VALIDATOR.to_string(),
            amount: 100,
            denom: "uatom".to_string(),
            owner: "pool".to_string()
        }
    );
    assert_eq!(res.messages[0].reply_on_success, Some(REPLY_TOKENIZE_SHARES_WITHDRAW));
}

#[test]
fn withdraw_pays_pending_reward_first() {
    let mut m = manager(None);
    deposit(&mut m, "alice", 1000);
    execute_deposit_rewards(&mut m, &info("x", vec![coin(100, "uatom")])).unwrap();
    let res =
        execute_withdraw(&mut m, &env(), &info("alice", vec![]), 1000, String::new(), 1000).unwrap();
    assert_eq!(res.messages.len(), 2);
    assert_eq!(
        res.messages[0].msg,
        Command::BankSend { to_address: "alice".to_string(), amount: vec![coin(100, "uatom")] }
    );
    assert_eq!(shares(&m, "alice"), 0);
    assert_eq!(m.state.total_staked, 0);
}

#[test]
fn withdraw_refusals() {
    let mut m = manager(None);
    deposit(&mut m, "alice", 1000);
    assert_eq!(
        execute_withdraw(&mut m, &env(), &info("alice", vec![]), 0, String::new(), 1000).unwrap_err(),
        ContractError::ZeroAmount {}
    );
    assert_eq!(
        execute_withdraw(&mut m, &env(), &info("bob", vec![]), 1, String::new(), 1000).unwrap_err(),
        ContractError::Std(StdError::NotFound)
    );
    assert_eq!(
        execute_withdraw(&mut m, &env(), &info("alice", vec![]), 1000, String::new(), 999).unwrap_err(),
        ContractError::InsufficientStakedAmount {}
    );
    assert_eq!(
        execute_withdraw(&mut m, &env(), &info("alice", vec![]), 1, String::new(), 0).unwrap_err(),
        ContractError::InsufficientStakedAmount {}
    );
    assert_eq!(shares(&m, "alice"), 1000);
}

#[test]
fn withdraw_continuation_forwards_receipt() {
    let mut m = manager(None);
    deposit(&mut m, "alice", 1000);
    execute_withdraw(&mut m, &env(), &info("alice", vec![]), 10, String::new(), 1000).unwrap();
    let balances = vec![coin(7, "uatom"), coin(10, &format!("{}/9", VALIDATOR))];
    let res = reply(&mut m, REPLY_TOKENIZE_SHARES_WITHDRAW, &balances).unwrap();
    assert_eq!(
        res.messages[0].msg,
        Command::BankSend { to_address: "alice".to_string(), amount: vec![balances[1].clone()] }
    );
    assert!(m.active_withdraw.is_none());
}

#[test]
fn withdraw_continuation_without_receipt_fails() {
    let mut m = manager(None);
    deposit(&mut m, "alice", 1000);
    execute_withdraw(&mut m, &env(), &info("alice", vec![]), 10, String::new(), 1000).unwrap();
    let balances = vec![coin(7, "uatom"), coin(10, "cosmosvaloper1abc1234/9")];
    assert!(matches!(
        reply_tokenize_shares_withdraw(&mut m, &balances),
        Err(ContractError::InvalidLsmShares { .. })
    ));
    assert!(m.active_withdraw.is_some());
}

#[test]
fn update_config_is_owner_only() {
    let mut m = manager(None);
    assert_eq!(
        execute_update_config(&mut m, &info("mallory", vec![]), None, Some(5)).unwrap_err(),
        ContractError::Unauthorized {}
    );
    execute_update_config(&mut m, &info("owner", vec![]), Some("next".to_string()), Some(5)).unwrap();
    assert_eq!(m.config.owner, "next");
    assert_eq!(m.config.max_cap, Some(5));
    assert_eq!(query_config(&m).max_cap, Some(5));
}

#[test]
fn voting_sessions_drive_pause_flag() {
    let mut m = manager(None);
    let owner = info("owner", vec![]);
    let res = execute_create_voting_lockers(&mut m, &env(), &owner, 1, &lockers(1)).unwrap();
    assert!(m.is_paused);
    assert_eq!(res.messages.len(), 4);
    assert_eq!(
        res.messages[2].msg,
        Command::InstantiateLocker {
            admin: "pool".to_string(),
            code_id: 1,
            msg: locker_types::InstantiateMsg {
                proposal_id: 1,
                vote_option: 3,
                validator: VALIDATOR.to_string(),
                manager: "pool".to_string()
            }
        }
    );
    assert_eq!(res.messages[2].reply_on_success, None);
    assert_eq!(m.voting_sessions[0].locker_addresses[0], (1, "locker_1_1".to_string()));
    assert_eq!(m.voting_sessions[0].locker_addresses[3], (4, "locker_1_4".to_string()));
    assert_eq!(m.voting_sessions[0].locker_addresses.len(), 4);
    open_session(&mut m, 2);
    assert!(m.is_paused);

    let finished = ProposalLookup::Answered(Some(3));
    let err = execute_destroy_voting_lockers(&mut m, &owner, 1, finished).unwrap_err();
    assert_eq!(err, ContractError::CannotUnpause { active_count: 1 });
    assert!(m.is_paused);
    assert!(!m.voting_sessions[0].is_active);

    let res = execute_destroy_voting_lockers(&mut m, &owner, 2, ProposalLookup::Unavailable).unwrap();
    assert!(!m.is_paused);
    assert_eq!(res.messages.len(), 4);
    assert_eq!(
        res.messages[1].msg,
        Command::ExecuteLocker {
            contract_addr: "locker_2_2".to_string(),
            msg: locker_types::ExecuteMsg::Destroy {},
            funds: vec![]
        }
    );
}

#[test]
fn deposit_cap_is_checked_before_overflow() {
    let mut m = manager(Some(1000));
    deposit(&mut m, "alice", 600);
    let err = execute_deposit_lsm_shares(&mut m, &env(), &info("bob", receipt(u128::MAX))).unwrap_err();
    assert_eq!(err, ContractError::MaxCapReached { cap: 1000, current: 600, attempting: u128::MAX });
}

#[test]
fn rent_on_inactive_session_without_option_reports_missing_locker() {
    let mut m = manager(None);
    deposit(&mut m, "alice", 1000);
    open_session(&mut m, 1);
    execute_destroy_voting_lockers(&mut m, &info("owner", vec![]), 1, ProposalLookup::Unavailable).unwrap();
    let pay = info("renter", vec![coin(5, "uatom")]);
    assert_eq!(
        execute_rent_voting_power(&mut m, &env(), &pay, 1, 9, 1000).unwrap_err(),
        ContractError::LockerNotFound { proposal_id: 1, vote_option: 9 }
    );
    assert_eq!(
        execute_rent_voting_power(&mut m, &env(), &pay, 1, 1, 1000).unwrap_err(),
        ContractError::NoVotingSession { proposal_id: 1 }
    );
}

#[test]
fn paused_pool_refuses_deposit_and_withdraw() {
    let mut m = manager(None);
    deposit(&mut m, "alice", 10);
    execute_create_voting_lockers(&mut m, &env(), &info("owner", vec![]), 1, &lockers(1)).unwrap();
    assert_eq!(
        execute_deposit_lsm_shares(&mut m, &env(), &info("alice", receipt(1))).unwrap_err(),
        ContractError::ContractPaused {}
    );
    assert_eq!(
        execute_withdraw(&mut m, &env(), &info("alice", vec![]), 1, String::new(), 10).unwrap_err(),
        ContractError::ContractPaused {}
    );
}

#[test]
fn session_refusals() {
    let mut m = manager(None);
    let owner = info("owner", vec![]);
    assert_eq!(
        execute_create_voting_lockers(&mut m, &env(), &info("x", vec![]), 1, &lockers(1)).unwrap_err(),
        ContractError::Unauthorized {}
    );
    execute_create_voting_lockers(&mut m, &env(), &owner, 1, &lockers(1)).unwrap();
    assert_eq!(
        execute_create_voting_lockers(&mut m, &env(), &owner, 1, &lockers(1)).unwrap_err(),
        ContractError::VotingSessionExists { proposal_id: 1 }
    );
    assert_eq!(
        execute_destroy_voting_lockers(&mut m, &info("x", vec![]), 1, ProposalLookup::Unavailable)
            .unwrap_err(),
        ContractError::Unauthorized {}
    );
    assert_eq!(
        execute_destroy_voting_lockers(&mut m, &owner, 1, ProposalLookup::Answered(Some(2))).unwrap_err(),
        ContractError::ProposalStillActive { proposal_id: 1, status: "VOTING_PERIOD".to_string() }
    );
    assert_eq!(
        execute_destroy_voting_lockers(&mut m, &owner, 1, ProposalLookup::Answered(Some(9))).unwrap_err(),
        ContractError::ProposalStillActive { proposal_id: 1, status: "UNKNOWN(9)".to_string() }
    );
    assert!(matches!(
        execute_destroy_voting_lockers(&mut m, &owner, 1, ProposalLookup::Malformed),
        Err(ContractError::InvalidLsmShares { .. })
    ));
    assert_eq!(
        execute_destroy_voting_lockers(&mut m, &owner, 7, ProposalLookup::Answered(None)).unwrap_err(),
        ContractError::VotingSessionNotFound { proposal_id: 7 }
    );
    assert!(m.is_paused);
    assert!(m.voting_sessions[0].is_active);
}

#[test]
fn return_lsm_shares_from_registered_locker() {
    let mut m = manager(None);
    deposit(&mut m, "alice", 1000);
    open_session(&mut m, 1);
    let res = execute_return_lsm_shares(&m, &env(), &info("locker_1_2", receipt(300)), 1, 2).unwrap();
    assert_eq!(
        res.messages[0].msg,
        Command::RedeemTokensForShares { delegator: "pool".to_string(), coin: receipt(300)[0].clone() }
    );
    assert_eq!(m.state.total_staked, 1000);
    assert_eq!(
        execute_return_lsm_shares(&m, &env(), &info("locker_1_3", receipt(300)), 1, 2).unwrap_err(),
        ContractError::InvalidLocker { sender: "locker_1_3".to_string(), proposal_id: 1, vote_option: 2 }
    );
    assert_eq!(
        execute_return_lsm_shares(&m, &env(), &info("locker_1_2", receipt(300)), 5, 2).unwrap_err(),
        ContractError::VotingSessionNotFound { proposal_id: 5 }
    );
}

#[test]
fn rent_voting_power_buys_ten_weight_per_token() {
    let mut m = manager(None);
    deposit(&mut m, "alice", 1000);
    open_session(&mut m, 1);
    let res = execute_rent_voting_power(&mut m, &env(), &info("renter", vec![coin(50, "uatom")]), 1, 1, 1000)
        .unwrap();
    assert_eq!(
        res.messages[0].msg,
        Command::TokenizeShares {
            delegator: "pool".to_string(),
            validator: VALIDATOR.to_string(),
            amount: 500,
            denom: "uatom".to_string(),
            owner: "pool".to_string()
        }
    );
    assert_eq!(res.messages[0].reply_on_success, Some(REPLY_TOKENIZE_SHARES_RENTAL));
    // the payment went to the depositors: 50 over 1000 shares
    assert_eq!(m.state.global_reward_index, Decimal::from_ratio(5, 100));

    let balances = vec![coin(500, &format!("{}/12", VALIDATOR))];
    let res = reply(&mut m, REPLY_TOKENIZE_SHARES_RENTAL, &balances).unwrap();
    assert_eq!(
        res.messages[0].msg,
        Command::ExecuteLocker {
            contract_addr: "locker_1_1".to_string(),
            msg: locker_types::ExecuteMsg::DepositLsmShares {},
            funds: balances.clone()
        }
    );
    assert!(m.active_rental.is_none());
}

#[test]
fn rent_voting_power_needs_backing() {
    let mut m = manager(None);
    deposit(&mut m, "alice", 1000);
    open_session(&mut m, 1);
    let err = execute_rent_voting_power(&mut m, &env(), &info("renter", vec![coin(50, "uatom")]), 1, 1, 499)
        .unwrap_err();
    assert_eq!(err, ContractError::InsufficientStakedTokens { available: 499, required: 500 });
    assert_eq!(m.state.global_reward_index, Decimal::zero());
}

#[test]
fn rent_voting_power_refusals() {
    let mut m = manager(None);
    let pay = info("renter", vec![coin(5, "uatom")]);
    assert_eq!(
        execute_rent_voting_power(&mut m, &env(), &pay, 1, 1, 1000).unwrap_err(),
        ContractError::NoVotingSession { proposal_id: 1 }
    );
    open_session(&mut m, 1);
    assert_eq!(
        execute_rent_voting_power(&mut m, &env(), &pay, 1, 7, 1000).unwrap_err(),
        ContractError::LockerNotFound { proposal_id: 1, vote_option: 7 }
    );
    assert_eq!(
        execute_rent_voting_power(&mut m, &env(), &info("r", vec![coin(5, "uosmo")]), 1, 1, 1000)
            .unwrap_err(),
        ContractError::InvalidFunds { expected: "uatom".to_string() }
    );
    assert_eq!(
        execute_rent_voting_power(&mut m, &env(), &info("r", vec![coin(0, "uatom")]), 1, 1, 1000)
            .unwrap_err(),
        ContractError::ZeroAmount {}
    );
    assert_eq!(
        execute_rent_voting_power(&mut m, &env(), &info("r", vec![coin(u128::MAX, "uatom")]), 1, 1, 1000)
            .unwrap_err(),
        ContractError::InsufficientBalance { available: u128::MAX, required: 1 }
    );
    execute_destroy_voting_lockers(&mut m, &info("owner", vec![]), 1, ProposalLookup::Unavailable)
        .unwrap();
    assert_eq!(
        execute_rent_voting_power(&mut m, &env(), &pay, 1, 1, 1000).unwrap_err(),
        ContractError::NoVotingSession { proposal_id: 1 }
    );
}

#[test]
fn stakers_listing_pages_in_address_order() {
    let mut m = manager(None);
    for who in ["dave", "alice", "carol", "bob", "erin"] {
        deposit(&mut m, who, 10);
    }
    let page = query_stakers(&m, None, Some(2), &vec![]).unwrap();
    let names: Vec<String> = page.stakers.iter().map(|s| s.address.clone()).collect();
    assert_eq!(names, vec!["alice", "bob"]);
    let page = query_stakers(&m, Some("bob".to_string()), None, &vec![]).unwrap();
    let names: Vec<String> = page.stakers.iter().map(|s| s.address.clone()).collect();
    assert_eq!(names, vec!["carol", "dave", "erin"]);
    let page = query_stakers(&m, Some("erin".to_string()), Some(100), &vec![]).unwrap();
    assert!(page.stakers.is_empty());
}

#[test]
fn stakers_listing_caps_page_size() {
    let mut m = manager(None);
    for i in 0..40u32 {
        deposit(&mut m, &format!("staker{:02}", i), 1);
    }
    assert_eq!(query_stakers(&m, None, None, &vec![]).unwrap().stakers.len(), 10);
    assert_eq!(query_stakers(&m, None, Some(100), &vec![]).unwrap().stakers.len(), 30);
}

#[test]
fn staker_info_counts_accumulated_reward() {
    let mut m = manager(None);
    deposit(&mut m, "alice", 1000);
    let accumulated = vec![coin(3, "uosmo"), coin(200, "uatom")];
    let info = query_staker_info(&m, &"alice".to_string(), &accumulated).unwrap();
    assert_eq!(info.pending_rewards, 200);
    assert_eq!(
        query_staker_info(&m, &"bob".to_string(), &accumulated).unwrap_err(),
        ContractError::Std(StdError::NotFound)
    );
}

#[test]
fn reward_beyond_128_bits_is_refused() {
    let mut m = manager(None);
    m.stakers.push(StakerEntry {
        address: "whale".to_string(),
        staker: Staker { staked_amount: u128::MAX, reward_index: Decimal::zero() },
    });
    m.state.total_staked = u128::MAX;
    m.state.global_reward_index = Decimal::from_ratio(2, 1);
    assert_eq!(
        query_staker_info(&m, &"whale".to_string(), &vec![]).unwrap_err(),
        ContractError::Std(StdError::Overflow)
    );
    assert_eq!(query_stakers(&m, None, None, &vec![]).unwrap_err(), ContractError::Std(StdError::Overflow));
    execute_claim_rewards(&mut m, &info("whale", vec![]), 0).unwrap();
    assert_eq!(reply_claim_rewards(&mut m, 0).unwrap_err(), ContractError::Std(StdError::Overflow));
    assert!(m.active_claim.is_some());
    assert_eq!(
        execute_withdraw(&mut m, &env(), &info("whale", vec![]), 1, String::new(), u128::MAX).unwrap_err(),
        ContractError::Std(StdError::Overflow)
    );
    assert_eq!(m.state.total_staked, u128::MAX);
}

#[test]
fn well_formedness_is_tested() {
    let mut m = manager(None);
    deposit(&mut m, "alice", 10);
    deposit(&mut m, "bob", 5);
    open_session(&mut m, 1);
    assert!(m.is_well_formed());
    m.state.total_staked = 16;
    assert!(!m.is_well_formed());
    m.state.total_staked = 15;
    m.is_paused = false;
    assert!(!m.is_well_formed());
    m.is_paused = true;
    m.stakers[1].address = "alice".to_string();
    assert!(!m.is_well_formed());
}
