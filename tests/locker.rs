use lsm_staking::gov::ProposalLookup;
use lsm_staking::ledger::{Coin, Command, Env, MessageInfo};
use lsm_staking::locker::{
    execute_deposit_lsm_shares, execute_destroy, instantiate, query_config, query_total_voting_power,
    reply, ContractError, Locker, REPLY_CLAIM_REWARDS, REPLY_TOKENIZE_SHARES,
};
use lsm_staking::locker_types::InstantiateMsg;
use lsm_staking::lsm_types::ExecuteMsg;

const VALIDATOR: &str = "cosmosvaloper1abc123";

fn coin(amount: u128, denom: &str) -> Coin {
    Coin { denom: denom.to_string(), amount }
}

fn env() -> Env {
    Env { contract_address: "locker".to_string() }
}

fn msg() -> InstantiateMsg {
    InstantiateMsg {
        proposal_id: 7,
        vote_option: 3,
        validator: VALIDATOR.to_string(),
        manager: "pool".to_string(),
    }
}

fn locker() -> Locker {
    instantiate(&env(), msg(), true, ProposalLookup::Answered(Some(2))).unwrap().0
}

fn from_pool(funds: Vec<Coin>) -> MessageInfo {
    MessageInfo { sender: "pool".to_string(), funds }
}

#[test]
fn locker_votes_on_creation() {
    let (l, res) = instantiate(&env(), msg(), true, ProposalLookup::Answered(Some(2))).unwrap();
    assert_eq!(
        res.messages[0].msg,
        Command::Vote { voter: "locker".to_string(), proposal_id: 7, option: 3 }
    );
    let config = query_config(&l);
    assert_eq!(config.manager, "pool");
    assert_eq!(config.total_staked, 0);
    assert!(!config.has_voted);
}

#[test]
fn locker_needs_voting_period() {
    assert_eq!(
        instantiate(&env(), msg(), true, ProposalLookup::Answered(Some(1))).unwrap_err(),
        ContractError::ProposalNotInVoting { proposal_id: 7, status: "DEPOSIT_PERIOD".to_string() }
    );
    assert!(matches!(
        instantiate(&env(), msg(), true, ProposalLookup::Unavailable),
        Err(ContractError::InvalidLsmShares { .. })
    ));
    assert!(matches!(
        instantiate(&env(), msg(), true, ProposalLookup::Answered(None)),
        Err(ContractError::InvalidLsmShares { .. })
    ));
    assert_eq!(
        instantiate(&env(), msg(), false, ProposalLookup::Answered(Some(2))).unwrap_err(),
        ContractError::ValidatorNotFound { validator: VALIDATOR.to_string() }
    );
}

#[test]
fn locker_deposit_adds_weight() {
    let mut l = locker();
    let receipt = coin(500, &format!("{}/4", VALIDATOR));
    let res = execute_deposit_lsm_shares(&mut l, &env(), &from_pool(vec![receipt.clone()])).unwrap();
    assert_eq!(
        res.messages[0].msg,
        Command::RedeemTokensForShares { delegator: "locker".to_string(), coin: receipt.clone() }
    );
    assert_eq!(query_total_voting_power(&l).total_staked, 500);
    let stranger = MessageInfo { sender: "x".to_string(), funds: vec![receipt] };
    assert_eq!(
        execute_deposit_lsm_shares(&mut l, &env(), &stranger).unwrap_err(),
        ContractError::Unauthorized {}
    );
    assert_eq!(
        execute_deposit_lsm_shares(&mut l, &env(), &from_pool(vec![coin(0, "cosmosvaloper1abc123/4")]))
            .unwrap_err(),
        ContractError::ZeroAmount {}
    );
    assert!(matches!(
        execute_deposit_lsm_shares(&mut l, &env(), &from_pool(vec![coin(1, "cosmosvaloper1zzz/4")])),
        Err(ContractError::InvalidValidator { .. })
    ));
}

#[test]
fn locker_destroy_withdraws_and_tokenizes() {
    let mut l = locker();
    let empty = execute_destroy(&l, &env(), &from_pool(vec![])).unwrap();
    assert!(empty.messages.is_empty());
    execute_deposit_lsm_shares(&mut l, &env(), &from_pool(vec![coin(500, "cosmosvaloper1abc123/4")]))
        .unwrap();
    let res = execute_destroy(&l, &env(), &from_pool(vec![])).unwrap();
    assert_eq!(res.messages.len(), 2);
    assert_eq!(res.messages[0].reply_on_success, Some(REPLY_CLAIM_REWARDS));
    assert_eq!(
        res.messages[1].msg,
        Command::TokenizeShares {
            delegator: "locker".to_string(),
            validator: VALIDATOR.to_string(),
            amount: 500,
            denom: "uatom".to_string(),
            owner: "locker".to_string()
        }
    );
    assert_eq!(res.messages[1].reply_on_success, Some(REPLY_TOKENIZE_SHARES));
    let stranger = MessageInfo { sender: "x".to_string(), funds: vec![] };
    assert_eq!(execute_destroy(&l, &env(), &stranger).unwrap_err(), ContractError::Unauthorized {});
}

#[test]
fn locker_continuations_return_everything_to_manager() {
    let l = locker();
    let res = reply(&l, REPLY_CLAIM_REWARDS, &vec![coin(42, "uatom")]).unwrap();
    assert_eq!(
        res.messages[0].msg,
        Command::ExecuteManager {
            contract_addr: "pool".to_string(),
            msg: ExecuteMsg::DepositRewards {},
            funds: vec![coin(42, "uatom")]
        }
    );
    assert!(reply(&l, REPLY_CLAIM_REWARDS, &vec![]).unwrap().messages.is_empty());
    let receipt = coin(500, &format!("{}/8", VALIDATOR));
    let res = reply(&l, REPLY_TOKENIZE_SHARES, &vec![coin(1, "uatom"), receipt.clone()]).unwrap();
    assert_eq!(
        res.messages[0].msg,
        Command::ExecuteManager {
            contract_addr: "pool".to_string(),
            msg: ExecuteMsg::ReturnLsmShares { proposal_id: 7, vote_option: 3 },
            funds: vec![receipt]
        }
    );
    assert!(matches!(
        reply(&l, REPLY_TOKENIZE_SHARES, &vec![coin(1, "uatom")]),
        Err(ContractError::InvalidLsmShares { .. })
    ));
    assert!(matches!(reply(&l, 5, &vec![]), Err(ContractError::InvalidLsmShares { .. })));
}
