use vstd::prelude::*;

use crate::lsm_types::Staker;
use crate::math::{indexed_reward, Decimal, DECIMAL_FRACTIONAL};
use crate::lsm_types::VotingSession;
use crate::staking::{count_active, lemma_session_at, sum_shares, StakeManager};

verus! {

/// In every state the stake manager reaches, the pool's total shares equal
/// the sum of the shares of all depositor records: `instantiate` yields a
/// well-formed manager, every operation keeps it well-formed, and
/// well-formedness includes this equation.
pub proof fn lemma_total_shares_is_sum(m: StakeManager)
    requires
        m.wf(),
    ensures
        m.state.total_staked == sum_shares(m.stakers@),
{
}

/// Spreading a reward never lowers the reward index; every operation of the
/// manager either leaves the index alone or spreads a reward, so the index
/// never decreases over any sequence of operations.
pub proof fn lemma_reward_index_monotone(index: u128, reward: u128, total_shares: u128)
    ensures
        indexed_reward(index as int, reward as int, total_shares as int) >= index,
{
    if total_shares > 0 {
        assert(reward * (DECIMAL_FRACTIONAL as int) / (total_shares as int) >= 0) by (nonlinear_arith)
            requires
                total_shares > 0,
        ;
    }
}

/// A record just settled at an index owes nothing at that same index.
pub proof fn lemma_settled_owes_nothing(staker: Staker, index: Decimal)
    ensures
        (Staker { reward_index: index, ..staker }).pending_at(index) == 0,
{
    assert(staker.staked_amount * 0int / (DECIMAL_FRACTIONAL as int) == 0) by (nonlinear_arith);
}

proof fn lemma_count_zero(s: Seq<VotingSession>)
    requires
        forall|i: int| 0 <= i < s.len() ==> !(#[trigger] s[i]).is_active,
    ensures
        count_active(s) == 0,
    decreases s.len(),
{
    if s.len() > 0 {
        lemma_count_zero(s.drop_last());
    }
}

proof fn lemma_count_positive(s: Seq<VotingSession>, j: int)
    requires
        0 <= j < s.len(),
        s[j].is_active,
    ensures
        count_active(s) > 0,
    decreases s.len(),
{
    if j < s.len() - 1 {
        lemma_count_positive(s.drop_last(), j);
    }
}

proof fn lemma_count_one(s: Seq<VotingSession>, j: int)
    requires
        0 <= j < s.len(),
        s[j].is_active,
        forall|i: int| 0 <= i < s.len() && i != j ==> !(#[trigger] s[i]).is_active,
    ensures
        count_active(s) == 1,
    decreases s.len(),
{
    if j == s.len() - 1 {
        lemma_count_zero(s.drop_last());
    } else {
        lemma_count_one(s.drop_last(), j);
    }
}

/// With no session active, the count of active sessions is zero and the
/// pool is not paused: ending the last active session lifts the pause.
pub proof fn lemma_no_active_session(m: StakeManager)
    requires
        m.wf(),
        forall|id: u64| #[trigger] m.sessions().contains_key(id) ==> !m.sessions()[id].is_active,
    ensures
        count_active(m.voting_sessions@) == 0,
        !m.is_paused,
{
    let s = m.voting_sessions@;
    assert forall|i: int| 0 <= i < s.len() implies !(#[trigger] s[i]).is_active by {
        lemma_session_at(s, i);
        assert(m.sessions().contains_key(s[i].proposal_id));
    }
    lemma_count_zero(s);
}

/// With exactly one session active, the count of active sessions is one and
/// the pool stays paused: ending one of two active sessions reports one
/// still active.
pub proof fn lemma_one_active_session(m: StakeManager, proposal_id: u64)
    requires
        m.wf(),
        m.sessions().contains_key(proposal_id),
        m.sessions()[proposal_id].is_active,
        forall|id: u64|
            #[trigger] m.sessions().contains_key(id) && id != proposal_id ==> !m.sessions()[id].is_active,
    ensures
        count_active(m.voting_sessions@) == 1,
        m.is_paused,
{
    let s = m.voting_sessions@;
    let j = choose|j: int| 0 <= j < s.len() && #[trigger] s[j].proposal_id == proposal_id;
    lemma_session_at(s, j);
    assert forall|i: int| 0 <= i < s.len() && i != j implies !(#[trigger] s[i]).is_active by {
        lemma_session_at(s, i);
        assert(s[i].proposal_id != s[j].proposal_id);
        assert(m.sessions().contains_key(s[i].proposal_id));
    }
    lemma_count_one(s, j);
}

/// The pool is paused exactly when some session is active.
pub proof fn lemma_pause_tracks_sessions(m: StakeManager)
    requires
        m.wf(),
    ensures
        m.is_paused <==> exists|id: u64| #[trigger] m.sessions().contains_key(id) && m.sessions()[id].is_active,
{
    let s = m.voting_sessions@;
    if exists|id: u64| #[trigger] m.sessions().contains_key(id) && m.sessions()[id].is_active {
        let id = choose|id: u64| #[trigger] m.sessions().contains_key(id) && m.sessions()[id].is_active;
        let j = choose|j: int| 0 <= j < s.len() && #[trigger] s[j].proposal_id == id;
        lemma_session_at(s, j);
        lemma_count_positive(s, j);
    } else {
        lemma_no_active_session(m);
    }
}

} // verus!
