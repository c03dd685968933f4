use vstd::prelude::*;

verus! {

/// Proposal statuses of the governance module.
pub const STATUS_UNSPECIFIED: i32 = 0;

pub const STATUS_DEPOSIT_PERIOD: i32 = 1;

pub const STATUS_VOTING_PERIOD: i32 = 2;

pub const STATUS_PASSED: i32 = 3;

pub const STATUS_REJECTED: i32 = 4;

pub const STATUS_FAILED: i32 = 5;

/// What the ledger answered when asked for a proposal.
#[derive(Clone, Copy, Debug, PartialEq, Eq, Structural)]
pub enum ProposalLookup {
    /// The query failed: the proposal does not exist (any more).
    Unavailable,
    /// The answer could not be decoded.
    Malformed,
    /// The answer, with the proposal's status when it holds a proposal.
    Answered(Option<i32>),
}

/// Whether `status` is final: passed, rejected or failed.
pub open spec fn is_finished_status(status: i32) -> bool {
    STATUS_PASSED <= status <= STATUS_FAILED
}

/// Whether `lookup` shows the proposal over: its status is final, or the
/// ledger has no proposal to show.
pub open spec fn shows_finished(lookup: ProposalLookup) -> bool {
    match lookup {
        ProposalLookup::Unavailable => true,
        ProposalLookup::Malformed => false,
        ProposalLookup::Answered(None) => true,
        ProposalLookup::Answered(Some(status)) => is_finished_status(status),
    }
}

/// Name of a proposal status, `UNKNOWN(n)` for one out of range.
pub fn status_name(status: i32) -> (r: String)
    ensures
        status == STATUS_UNSPECIFIED ==> r@ == "UNSPECIFIED"@,
        status == STATUS_DEPOSIT_PERIOD ==> r@ == "DEPOSIT_PERIOD"@,
        status == STATUS_VOTING_PERIOD ==> r@ == "VOTING_PERIOD"@,
        status == STATUS_PASSED ==> r@ == "PASSED"@,
        status == STATUS_REJECTED ==> r@ == "REJECTED"@,
        status == STATUS_FAILED ==> r@ == "FAILED"@,
{
    if status == STATUS_UNSPECIFIED {
        String::from_str("UNSPECIFIED")
    } else if status == STATUS_DEPOSIT_PERIOD {
        String::from_str("DEPOSIT_PERIOD")
    } else if status == STATUS_VOTING_PERIOD {
        String::from_str("VOTING_PERIOD")
    } else if status == STATUS_PASSED {
        String::from_str("PASSED")
    } else if status == STATUS_REJECTED {
        String::from_str("REJECTED")
    } else if status == STATUS_FAILED {
        String::from_str("FAILED")
    } else {
        let mut name = String::from_str("UNKNOWN(");
        let number = status.to_string();
        name.append(number.as_str());
        name.append(")");
        name
    }
}

} // verus!
