//! Accounting core of a pooled liquid-staking program and of the voting
//! lockers it spawns: share/token conversion, the cumulative reward index,
//! staker records, voting sessions and the continuation protocol.

pub mod math;
pub mod lsm_types;
pub mod locker_types;
pub mod ledger;
pub mod denom;
pub mod order;
pub mod gov;
pub mod staking;
pub mod queries;
pub mod locker;
pub mod laws;
pub mod proto;
