use vstd::prelude::*;

use crate::ledger::Coin;
use crate::lsm_types::{
    ConfigResponse, RewardIndexResponse, StakerInfoResponse, StakersResponse, State, TotalStakedResponse,
};
use crate::math::{apply_reward_index, indexed_reward, Decimal};
use crate::order::{
    lemma_lex_asymmetric, lemma_lex_connected, lemma_lex_irreflexive, lemma_lex_transitive, lex_lt, str_lt,
};
use crate::staking::{
    amount_in, find_first_amount, ContractError, StakeManager, StdError,
};

verus! {

/// Most records one page of the staker listing holds.
pub const MAX_LIMIT: u32 = 30;

/// Records per page when the caller names no limit.
pub const DEFAULT_LIMIT: u32 = 10;

/// The pool's configuration and aggregate.
pub fn query_config(m: &StakeManager) -> (r: ConfigResponse)
    ensures
        r == (ConfigResponse {
            owner: m.config.owner,
            staking_denom: m.config.staking_denom,
            validator: m.config.validator,
            max_cap: m.config.max_cap,
            locker_code_id: m.config.locker_code_id,
            total_staked: m.state.total_staked,
            global_reward_index: m.state.global_reward_index,
            is_paused: m.is_paused,
        }),
{
    ConfigResponse {
        owner: m.config.owner.clone(),
        staking_denom: m.config.staking_denom.clone(),
        validator: m.config.validator.clone(),
        max_cap: m.config.max_cap,
        locker_code_id: m.config.locker_code_id,
        total_staked: m.state.total_staked,
        global_reward_index: m.state.global_reward_index,
        is_paused: m.is_paused,
    }
}

pub fn query_total_staked(m: &StakeManager) -> (r: TotalStakedResponse)
    ensures
        r.total_staked == m.state.total_staked,
{
    TotalStakedResponse { total_staked: m.state.total_staked }
}

pub fn query_reward_index(m: &StakeManager) -> (r: RewardIndexResponse)
    ensures
        r.global_reward_index == m.state.global_reward_index,
{
    RewardIndexResponse { global_reward_index: m.state.global_reward_index }
}

/// The index as it would stand if the delegation reward accumulated so far
/// (`accumulated`, the rewards the delegation reports) were spread now; it
/// lets queries show up-to-date pending rewards without changing anything.
pub fn calculate_simulated_global_index(state: &State, accumulated: &Vec<Coin>, staking_denom: &String) -> (r:
    Decimal)
    ensures
        r.atomics == indexed_reward(
            state.global_reward_index.atomics as int,
            amount_in(accumulated@, staking_denom@) as int,
            state.total_staked as int,
        ),
{
    let pending = match find_first_amount(accumulated, staking_denom) {
        Some(k) => accumulated[k].amount,
        None => 0,
    };
    apply_reward_index(state.global_reward_index, pending, state.total_staked)
}

/// What the listing reports for the record of `address` at `index`.
pub open spec fn info_of(m: StakeManager, address: Seq<char>, index: Decimal, r: StakerInfoResponse) -> bool {
    let record = m.records()[address];
    &&& r.address@ == address
    &&& r.staked_amount == record.staked_amount
    &&& r.reward_index == record.reward_index
    &&& r.pending_rewards == record.pending_at(index)
}

/// One depositor's record, with the reward pending at the simulated index
/// (an error when that reward does not fit in 128 bits).
pub fn query_staker_info(m: &StakeManager, address: &String, accumulated: &Vec<Coin>) -> (r: Result<
    StakerInfoResponse,
    ContractError,
>)
    requires
        m.wf(),
    ensures
        ({
            let index = Decimal {
                atomics: indexed_reward(
                    m.state.global_reward_index.atomics as int,
                    amount_in(accumulated@, m.config.staking_denom@) as int,
                    m.state.total_staked as int,
                ) as u128,
            };
            &&& !m.records().contains_key(address@) ==> r == Err::<StakerInfoResponse, ContractError>(
                ContractError::Std(StdError::NotFound),
            )
            &&& m.records().contains_key(address@) && m.records()[address@].pending_at(index) > u128::MAX ==> r
                == Err::<StakerInfoResponse, ContractError>(ContractError::Std(StdError::Overflow))
            &&& r is Ok <==> m.records().contains_key(address@) && m.records()[address@].pending_at(index)
                <= u128::MAX
            &&& r matches Ok(info) ==> info_of(*m, address@, index, info)
        }),
{
    let index = calculate_simulated_global_index(&m.state, accumulated, &m.config.staking_denom);
    let i = match m.find_staker(address) {
        Some(i) => i,
        None => {
            return Err(ContractError::Std(StdError::NotFound));
        },
    };
    proof {
        crate::staking::lemma_record_at(m.stakers@, i as int);
    }
    let staker = m.stakers[i].staker;
    let pending = match staker.checked_pending_rewards(index) {
        Some(v) => v,
        None => {
            return Err(ContractError::Std(StdError::Overflow));
        },
    };
    Ok(
        StakerInfoResponse {
            address: m.stakers[i].address.clone(),
            staked_amount: staker.staked_amount,
            reward_index: staker.reward_index,
            pending_rewards: pending,
        },
    )
}

/// Whether `a` comes after `cursor` (everything does when there is none).
pub open spec fn after(cursor: Option<String>, a: Seq<char>) -> bool {
    match cursor {
        Some(c) => lex_lt(c@, a),
        None => true,
    }
}

/// Page size for a requested `limit`: 10 by default, at most 30.
pub open spec fn page_size(limit: Option<u32>) -> int {
    let l = match limit {
        Some(l) => l,
        None => DEFAULT_LIMIT,
    };
    if l < MAX_LIMIT {
        l as int
    } else {
        MAX_LIMIT as int
    }
}

/// Position of the first address after `cursor` in ascending order.
fn next_after(m: &StakeManager, cursor: &Option<String>) -> (r: Option<usize>)
    requires
        m.wf(),
    ensures
        r matches Some(i) ==> i < m.stakers@.len() && after(*cursor, m.stakers@[i as int].address@) && forall|j: int|
            0 <= j < m.stakers@.len() && after(*cursor, #[trigger] m.stakers@[j].address@) ==> m.stakers@[j].address@
                == m.stakers@[i as int].address@ || lex_lt(m.stakers@[i as int].address@, m.stakers@[j].address@),
        r is None ==> forall|j: int| 0 <= j < m.stakers@.len() ==> !after(*cursor, #[trigger] m.stakers@[j].address@),
{
    let mut best: Option<usize> = None;
    let mut j: usize = 0;
    while j < m.stakers.len()
        invariant
            j <= m.stakers@.len(),
            best matches Some(b) ==> b < j && after(*cursor, m.stakers@[b as int].address@) && forall|k: int|
                0 <= k < j && after(*cursor, #[trigger] m.stakers@[k].address@) ==> m.stakers@[k].address@
                    == m.stakers@[b as int].address@ || lex_lt(m.stakers@[b as int].address@, m.stakers@[k].address@),
            best is None ==> forall|k: int| 0 <= k < j ==> !after(*cursor, #[trigger] m.stakers@[k].address@),
        decreases m.stakers@.len() - j,
    {
        let a = m.stakers[j].address.as_str();
        let is_after = match cursor {
            Some(c) => str_lt(c.as_str(), a),
            None => true,
        };
        if is_after {
            match best {
                None => {
                    best = Some(j);
                },
                Some(b) => {
                    if str_lt(a, m.stakers[b].address.as_str()) {
                        proof {
                            let x = m.stakers@[j as int].address@;
                            let y = m.stakers@[b as int].address@;
                            assert forall|k: int|
                                0 <= k < j + 1 && after(*cursor, #[trigger] m.stakers@[k].address@) implies m.stakers@[k].address@
                                    == x || lex_lt(x, m.stakers@[k].address@) by {
                                if k < j && m.stakers@[k].address@ != y {
                                    lemma_lex_transitive(x, y, m.stakers@[k].address@, 0);
                                }
                            }
                        }
                        best = Some(j);
                    } else {
                        proof {
                            let x = m.stakers@[j as int].address@;
                            let y = m.stakers@[b as int].address@;
                            if x != y {
                                lemma_lex_connected(x, y);
                            }
                        }
                    }
                },
            }
        }
        j += 1;
    }
    best
}

/// `page` is the listing page for `start_after` and `limit`: see
/// [`query_stakers`].
pub open spec fn page_holds(
    m: StakeManager,
    start_after: Option<String>,
    limit: Option<u32>,
    index: Decimal,
    page: Seq<StakerInfoResponse>,
) -> bool {
    &&& page.len() <= page_size(limit)
    &&& forall|p: int|
        0 <= p < page.len() ==> m.records().contains_key((#[trigger] page[p]).address@) && after(
            start_after,
            page[p].address@,
        ) && info_of(m, page[p].address@, index, page[p])
    &&& forall|p: int, q: int| 0 <= p < q < page.len() ==> lex_lt(#[trigger] page[p].address@, #[trigger] page[q].address@)
    &&& forall|a: Seq<char>|
        m.records().contains_key(a) && after(start_after, a) ==> (exists|p: int|
            0 <= p < page.len() && (#[trigger] page[p]).address@ == a) || (page.len() == page_size(limit)
            && forall|p: int| 0 <= p < page.len() ==> lex_lt((#[trigger] page[p]).address@, a))
}

/// A page of the staker listing: in ascending address order, the records
/// after `start_after` (all when it is absent), at most `limit` of them (10
/// when absent, never more than 30), each with its reward pending at the
/// simulated index. The page holds the first such records: any record it
/// leaves out sorts after all it holds. It fails when a reward to report
/// does not fit in 128 bits.
pub fn query_stakers(
    m: &StakeManager,
    start_after: Option<String>,
    limit: Option<u32>,
    accumulated: &Vec<Coin>,
) -> (r: Result<StakersResponse, ContractError>)
    requires
        m.wf(),
    ensures
        ({
            let index = Decimal {
                atomics: indexed_reward(
                    m.state.global_reward_index.atomics as int,
                    amount_in(accumulated@, m.config.staking_denom@) as int,
                    m.state.total_staked as int,
                ) as u128,
            };
            &&& r is Err ==> r == Err::<StakersResponse, ContractError>(ContractError::Std(StdError::Overflow))
                && exists|a: Seq<char>|
                #[trigger] m.records().contains_key(a) && after(start_after, a) && m.records()[a].pending_at(index)
                    > u128::MAX
            &&& r matches Ok(resp) ==> page_holds(*m, start_after, limit, index, resp.stakers@)
        }),
{
    let index = calculate_simulated_global_index(&m.state, accumulated, &m.config.staking_denom);
    let requested = match limit {
        Some(l) => l,
        None => DEFAULT_LIMIT,
    };
    let size: usize = if requested < MAX_LIMIT {
        requested as usize
    } else {
        MAX_LIMIT as usize
    };
    let mut out: Vec<StakerInfoResponse> = Vec::new();
    let mut cursor: Option<String> = match &start_after {
        Some(s) => Some(s.clone()),
        None => None,
    };
    while out.len() < size
        invariant
            m.wf(),
            index.atomics == indexed_reward(
                m.state.global_reward_index.atomics as int,
                amount_in(accumulated@, m.config.staking_denom@) as int,
                m.state.total_staked as int,
            ),
            size == page_size(limit),
            out@.len() <= size,
            forall|p: int|
                0 <= p < out@.len() ==> m.records().contains_key((#[trigger] out@[p]).address@) && after(
                    start_after,
                    out@[p].address@,
                ) && info_of(*m, out@[p].address@, index, out@[p]),
            forall|p: int, q: int| 0 <= p < q < out@.len() ==> lex_lt(#[trigger] out@[p].address@, #[trigger] out@[q].address@),
            out@.len() == 0 ==> cursor == start_after,
            out@.len() > 0 ==> (cursor matches Some(c) && c@ == out@.last().address@),
            forall|p: int| 0 <= p < out@.len() ==> !after(cursor, (#[trigger] out@[p]).address@),
            forall|a: Seq<char>|
                m.records().contains_key(a) && after(start_after, a) && !after(cursor, a) ==> exists|p: int|
                    0 <= p < out@.len() && (#[trigger] out@[p]).address@ == a,
        ensures
            out@.len() == size || forall|a: Seq<char>|
                m.records().contains_key(a) && after(start_after, a) ==> !after(cursor, a),
        decreases size - out@.len(),
    {
        let i = match next_after(m, &cursor) {
            Some(i) => i,
            None => {
                proof {
                    assert forall|a: Seq<char>|
                        m.records().contains_key(a) && after(start_after, a) implies !after(cursor, a) by {
                        let j = choose|j: int| 0 <= j < m.stakers@.len() && #[trigger] m.stakers@[j].address@ == a;
                        assert(!after(cursor, m.stakers@[j].address@));
                    }
                }
                break;
            },
        };
        proof {
            crate::staking::lemma_record_at(m.stakers@, i as int);
        }
        let staker = m.stakers[i].staker;
        let address = m.stakers[i].address.clone();
        let ghost x = m.stakers@[i as int].address@;
        let ghost old_out = out@;
        let ghost old_cursor = cursor;
        proof {
            if old_out.len() > 0 {
                let c = old_out.last().address@;
                assert(after(start_after, c));
                if start_after is Some {
                    lemma_lex_transitive(start_after->0@, c, x, 0);
                }
                assert forall|p: int| 0 <= p < old_out.len() implies lex_lt(#[trigger] old_out[p].address@, x) by {
                    if old_out[p].address@ != c {
                        lemma_lex_connected(old_out[p].address@, c);
                        lemma_lex_transitive(old_out[p].address@, c, x, 0);
                    }
                }
            }
        }
        proof {
            assert(after(start_after, x));
        }
        let pending = match staker.checked_pending_rewards(index) {
            Some(v) => v,
            None => {
                proof {
                    assert(m.records().contains_key(x));
                    assert(m.records()[x] == staker);
                    assert(staker.pending_at(index) > u128::MAX);
                }
                return Err(ContractError::Std(StdError::Overflow));
            },
        };
        let entry = StakerInfoResponse {
            address: m.stakers[i].address.clone(),
            staked_amount: staker.staked_amount,
            reward_index: staker.reward_index,
            pending_rewards: pending,
        };
        out.push(entry);
        cursor = Some(address);
        proof {
            assert forall|p: int, q: int| 0 <= p < q < out@.len() implies lex_lt(#[trigger] out@[p].address@, #[trigger] out@[q].address@) by {
                if q == out@.len() - 1 {
                    assert(lex_lt(old_out[p].address@, x));
                } else {
                    assert(lex_lt(old_out[p].address@, old_out[q].address@));
                }
            }
            assert forall|p: int| 0 <= p < out@.len() implies !after(cursor, (#[trigger] out@[p]).address@) by {
                if p < old_out.len() {
                    lemma_lex_asymmetric(old_out[p].address@, x);
                } else {
                    lemma_lex_irreflexive(x, 0);
                }
            }
            assert forall|a: Seq<char>|
                m.records().contains_key(a) && after(start_after, a) && !after(cursor, a) implies exists|p: int|
                0 <= p < out@.len() && (#[trigger] out@[p]).address@ == a by {
                if a == x {
                    assert(out@[old_out.len() as int].address@ == a);
                } else {
                    lemma_lex_connected(a, x);
                    let j = choose|j: int| 0 <= j < m.stakers@.len() && #[trigger] m.stakers@[j].address@ == a;
                    if after(old_cursor, a) {
                        assert(m.stakers@[j].address@ == a);
                        lemma_lex_asymmetric(a, x);
                    }
                    let p = choose|p: int| 0 <= p < old_out.len() && (#[trigger] old_out[p]).address@ == a;
                    assert(out@[p].address@ == a);
                }
            }
        }
    }
    proof {
        let page = out@;
        assert forall|a: Seq<char>|
            m.records().contains_key(a) && after(start_after, a) implies (exists|p: int|
                0 <= p < page.len() && (#[trigger] page[p]).address@ == a) || (page.len() == page_size(limit)
                && forall|p: int| 0 <= p < page.len() ==> lex_lt((#[trigger] page[p]).address@, a)) by {
            if !(exists|p: int| 0 <= p < page.len() && (#[trigger] page[p]).address@ == a) {
                assert(after(cursor, a));
                if page.len() > 0 {
                    let c = page.last().address@;
                    assert forall|p: int| 0 <= p < page.len() implies lex_lt((#[trigger] page[p]).address@, a) by {
                        if page[p].address@ == c {
                        } else {
                            lemma_lex_connected(page[p].address@, c);
                            lemma_lex_transitive(page[p].address@, c, a, 0);
                        }
                    }
                }
            }
        }
    }
    Ok(StakersResponse { stakers: out })
}

} // verus!
