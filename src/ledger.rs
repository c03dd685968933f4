use vstd::prelude::*;

use crate::locker_types;
use crate::lsm_types;

verus! {

/// An amount of one denom.
#[derive(Clone, Debug, PartialEq, Eq)]
pub struct Coin {
    pub denom: String,
    pub amount: u128,
}

/// Who called, and what funds came with the call.
#[derive(Clone, Debug, PartialEq, Eq)]
pub struct MessageInfo {
    pub sender: String,
    pub funds: Vec<Coin>,
}

/// The program's own environment.
#[derive(Clone, Debug, PartialEq, Eq)]
pub struct Env {
    /// Address of the program handling the call.
    pub contract_address: String,
}

/// A command issued to the host ledger.
#[allow(inconsistent_fields)]
#[derive(Clone, Debug, PartialEq, Eq)]
pub enum Command {
    /// Turn a receipt token back into a delegation of `delegator`.
    RedeemTokensForShares { delegator: String, coin: Coin },
    /// Turn `amount` of `delegator`'s delegation to `validator`, counted in
    /// `denom`, into a receipt token owned by `owner`.
    TokenizeShares { delegator: String, validator: String, amount: u128, denom: String, owner: String },
    /// Withdraw the delegation reward earned with `validator`.
    WithdrawDelegatorReward { validator: String },
    /// Transfer funds.
    BankSend { to_address: String, amount: Vec<Coin> },
    /// Cast a governance vote.
    Vote { voter: String, proposal_id: u64, option: i32 },
    /// Spawn a voting locker.
    InstantiateLocker { admin: String, code_id: u64, msg: locker_types::InstantiateMsg },
    /// Call a voting locker.
    ExecuteLocker { contract_addr: String, msg: locker_types::ExecuteMsg, funds: Vec<Coin> },
    /// Call the stake manager.
    ExecuteManager { contract_addr: String, msg: lsm_types::ExecuteMsg, funds: Vec<Coin> },
}

/// A command, and the continuation to run when it succeeds, if any.
#[derive(Clone, Debug, PartialEq, Eq)]
pub struct SubMsg {
    pub msg: Command,
    pub reply_on_success: Option<u64>,
}

/// The commands an operation issues, in order.
#[derive(Clone, Debug, PartialEq, Eq)]
pub struct Response {
    pub messages: Vec<SubMsg>,
}

impl Response {
    pub fn new() -> (r: Response)
        ensures
            r.messages@.len() == 0,
    {
        Response { messages: Vec::new() }
    }

    /// Adds a command that runs no continuation.
    pub fn add_message(&mut self, msg: Command)
        ensures
            final(self).messages@ == old(self).messages@.push(SubMsg { msg, reply_on_success: None }),
    {
        self.messages.push(SubMsg { msg, reply_on_success: None });
    }

    /// Adds a command whose success runs continuation `id`.
    pub fn add_submessage(&mut self, msg: Command, id: u64)
        ensures
            final(self).messages@ == old(self).messages@.push(SubMsg { msg, reply_on_success: Some(id) }),
    {
        self.messages.push(SubMsg { msg, reply_on_success: Some(id) });
    }
}

} // verus!
