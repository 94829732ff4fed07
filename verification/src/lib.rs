//! Accounting core of a pari-mutuel prediction market.
//!
//! Participants stake a fungible asset on one of 2 to 8 mutually exclusive
//! outcomes; after a deadline an authority declares the winner; stakes on
//! losing outcomes are split between protocol fees and a proportional
//! payout to winners, who also recover their principal.
//!
//! This crate holds the market state machine and the settlement
//! arithmetic. Moving balances, verifying callers' signatures, reading the
//! clock and locating storage are the host's collaborators: the operations
//! here take their results (identities, the current instant) as plain
//! values and say in their contracts what each input produces.

use vstd::prelude::*;

pub mod errors;
pub mod math;
pub mod state;

use crate::errors::ProphetError;
use crate::math::{
    lemma_fee_bounds, lemma_payout_bounds, lemma_sum_except_le_prefix, lemma_sum_except_nonneg,
    lemma_sum_prefix_element, lemma_sum_prefix_monotone, lemma_sum_prefix_update,
    lemma_sum_prefix_zero, lemma_sum_split, lemma_winners_conservation, spec_burn_fee,
    spec_creator_fee, spec_total_payout, sum_except, sum_payouts, sum_prefix, BP_SCALE,
    BURN_FEE_BP, CREATOR_FEE_BP, WINNERS_BP,
};
use vstd::arithmetic::mul::{lemma_mul_inequality, lemma_mul_is_commutative};
use crate::state::{Market, Vote, MAX_OUTCOMES};

verus! {

/// Create a market: the only entry that builds a `Market`, so every market
/// a caller can hold satisfies `wf()`.
///
/// Fails `InvalidOutcome` exactly when `outcomes_count` is outside
/// `[2, MAX_OUTCOMES]`; otherwise the new market is open, with every total
/// zero and no winner.
pub fn initialize_market(
    authority: u64,
    question: String,
    end_timestamp: i64,
    outcomes_count: u8,
) -> (r: Result<Market, ProphetError>)
    ensures
        !(2 <= outcomes_count <= MAX_OUTCOMES) ==> r == Err::<Market, ProphetError>(
            ProphetError::InvalidOutcome,
        ),
        2 <= outcomes_count <= MAX_OUTCOMES ==> {
            &&& r is Ok
            &&& r->Ok_0.wf()
            &&& r->Ok_0.authority == authority
            &&& r->Ok_0.question == question
            &&& r->Ok_0.end_timestamp == end_timestamp
            &&& r->Ok_0.outcomes_count == outcomes_count
            &&& r->Ok_0.total_pot == 0
            &&& (forall|i: int| 0 <= i < MAX_OUTCOMES as int ==> r->Ok_0.outcome_totals@[i] == 0)
            &&& r->Ok_0.resolved == false
            &&& r->Ok_0.winner_index is None
            &&& r->Ok_0.fees_distributed == false
        },
{
    if !(2 <= outcomes_count && outcomes_count <= MAX_OUTCOMES) {
        return Err(ProphetError::InvalidOutcome);
    }
    let mut outcome_totals: Vec<u64> = Vec::new();
    let mut i: u8 = 0;
    while i < MAX_OUTCOMES
        invariant
            i <= MAX_OUTCOMES,
            outcome_totals@.len() == i as int,
            forall|j: int| 0 <= j < i as int ==> outcome_totals@[j] == 0,
        decreases MAX_OUTCOMES as int - i as int,
    {
        outcome_totals.push(0);
        i = i + 1;
    }
    proof {
        lemma_sum_prefix_zero(outcome_totals@, outcomes_count as int);
    }
    Ok(Market {
        authority,
        question,
        end_timestamp,
        outcomes_count,
        total_pot: 0,
        outcome_totals,
        resolved: false,
        winner_index: None,
        fees_distributed: false,
    })
}

/// Accept a stake: record a fresh vote and add `amount` to the pot and to
/// the chosen outcome's total.
///
/// `market_id` is the host's identity token for this market, stored on the
/// vote as a back-reference; `now` is the host clock's reading. The host
/// transfers `amount` from the participant into the market's custody in
/// the same atomic step, and enforces at most one vote per (market, user)
/// pair through its addressing scheme before this runs.
///
/// On any error the market is unchanged: a stake on a resolved market or
/// at/after the deadline fails `MarketEnded`, an outcome index at or past
/// `outcomes_count` fails `InvalidOutcome`, and a pot that would exceed
/// the 64-bit range fails `MathOverflow`. Otherwise exactly the two totals
/// grow by `amount` and the returned vote is unclaimed.
pub fn place_vote(
    market: &mut Market,
    market_id: u64,
    user: u64,
    outcome_index: u8,
    amount: u64,
    now: i64,
) -> (r: Result<Vote, ProphetError>)
    requires
        old(market).wf(),
    ensures
        final(market).wf(),
        ({
            let m = *old(market);
            if m.resolved {
                r == Err::<Vote, ProphetError>(ProphetError::MarketEnded) && *final(market) == m
            } else if outcome_index >= m.outcomes_count {
                r == Err::<Vote, ProphetError>(ProphetError::InvalidOutcome) && *final(market) == m
            } else if now >= m.end_timestamp {
                r == Err::<Vote, ProphetError>(ProphetError::MarketEnded) && *final(market) == m
            } else if m.total_pot + amount > u64::MAX {
                r == Err::<Vote, ProphetError>(ProphetError::MathOverflow) && *final(market) == m
            } else {
                &&& r == Ok::<Vote, ProphetError>(
                    (Vote {
                        user: user,
                        market: market_id,
                        outcome_index: outcome_index,
                        amount: amount,
                        claimed: false,
                    }),
                )
                &&& final(market).same_creation_fields(m)
                &&& final(market).total_pot == m.total_pot + amount
                &&& final(market).outcome_totals@ == m.outcome_totals@.update(
                    outcome_index as int,
                    (m.outcome_totals@[outcome_index as int] + amount) as u64,
                )
                &&& final(market).resolved == false
                &&& final(market).winner_index is None
                &&& final(market).fees_distributed == false
            }
        }),
{
    if market.resolved {
        return Err(ProphetError::MarketEnded);
    }
    if outcome_index >= market.outcomes_count {
        return Err(ProphetError::InvalidOutcome);
    }
    if now >= market.end_timestamp {
        return Err(ProphetError::MarketEnded);
    }
    if amount > u64::MAX - market.total_pot {
        return Err(ProphetError::MathOverflow);
    }
    let idx: usize = outcome_index as usize;
    proof {
        // The outcome's total is counted inside the pot, so it cannot
        // overflow once the pot itself fits.
        lemma_sum_prefix_element(
            market.outcome_totals@,
            market.outcomes_count as int,
            idx as int,
        );
    }
    let new_outcome_total: u64 = market.outcome_totals[idx] + amount;
    let ghost before = market.outcome_totals@;
    market.outcome_totals.set(idx, new_outcome_total);
    market.total_pot = market.total_pot + amount;
    proof {
        lemma_sum_prefix_update(before, market.outcomes_count as int, idx as int, new_outcome_total);
    }
    Ok(Vote { user, market: market_id, outcome_index, amount, claimed: false })
}

/// Fix the winning outcome, exactly once.
///
/// Only the recorded authority may resolve (`Unauthorized` otherwise);
/// resolving a resolved market fails `MarketEnded`; a winner index at or
/// past `outcomes_count` fails `InvalidOutcome`. On success the market is
/// unchanged except that it is resolved with the given winner. Resolution
/// is authority-gated, not time-gated: no deadline check is made here.
pub fn resolve_market(market: &mut Market, caller: u64, winner_index: u8) -> (r: Result<
    (),
    ProphetError,
>)
    requires
        old(market).wf(),
    ensures
        final(market).wf(),
        ({
            let m = *old(market);
            if caller != m.authority {
                r == Err::<(), ProphetError>(ProphetError::Unauthorized) && *final(market) == m
            } else if m.resolved {
                r == Err::<(), ProphetError>(ProphetError::MarketEnded) && *final(market) == m
            } else if winner_index >= m.outcomes_count {
                r == Err::<(), ProphetError>(ProphetError::InvalidOutcome) && *final(market) == m
            } else {
                &&& r == Ok::<(), ProphetError>(())
                &&& *final(market) == (Market {
                    resolved: true,
                    winner_index: Some(winner_index),
                    ..m
                })
            }
        }),
{
    if caller != market.authority {
        return Err(ProphetError::Unauthorized);
    }
    if market.resolved {
        return Err(ProphetError::MarketEnded);
    }
    if winner_index >= market.outcomes_count {
        return Err(ProphetError::InvalidOutcome);
    }
    market.resolved = true;
    market.winner_index = Some(winner_index);
    Ok(())
}

/// The one-time protocol fee split a resolved market owes: 10% of the
/// losing pool to the creator's recipient, 5% to a burn recipient.
#[derive(Clone, Copy, Debug, PartialEq, Eq, Structural)]
pub struct FeeSplit {
    /// `floor(losing * 1000 / 10000)`.
    pub creator_fee: u64,
    /// `floor(losing * 500 / 10000)`.
    pub burn_fee: u64,
}

/// Sum the totals of every outcome except the winner's, the losing pool.
/// Never overflows: the pot bounds it.
fn losing_total(market: &Market, winner: u8) -> (r: u64)
    requires
        market.wf(),
        winner < market.outcomes_count,
    ensures
        r as int == sum_except(market.outcome_totals@, market.outcomes_count as int, winner as int),
        r <= market.total_pot,
{
    let count: u8 = market.outcomes_count;
    let mut total: u64 = 0;
    let mut i: u8 = 0;
    while i < count
        invariant
            market.wf(),
            count == market.outcomes_count,
            winner < count,
            i <= count,
            total as int == sum_except(market.outcome_totals@, i as int, winner as int),
            total <= market.total_pot,
        decreases count as int - i as int,
    {
        if i != winner {
            proof {
                lemma_sum_except_le_prefix(market.outcome_totals@, i as int + 1, winner as int);
                lemma_sum_prefix_monotone(
                    market.outcome_totals@,
                    i as int + 1,
                    market.outcomes_count as int,
                );
            }
            total = total + market.outcome_totals[i as usize];
        }
        i = i + 1;
    }
    total
}

/// Compute the one-time fee split of a resolved market.
///
/// Only the authority may trigger it (`Unauthorized`); before resolution
/// it fails `MarketActive`; after a completed distribution it fails
/// `AlreadyClaimed`. On success the returned amounts are exactly the
/// floored 10% and 5% cuts of the losing pool, and together never exceed
/// the pot. The host then transfers both amounts out of custody and, only
/// once both succeed, records the fact with [`mark_fees_distributed`]; on
/// any transfer failure it records nothing, so the whole operation can be
/// resubmitted.
pub fn distribute_fees(market: &Market, caller: u64) -> (r: Result<FeeSplit, ProphetError>)
    requires
        market.wf(),
    ensures
        ({
            if caller != market.authority {
                r == Err::<FeeSplit, ProphetError>(ProphetError::Unauthorized)
            } else if !market.resolved {
                r == Err::<FeeSplit, ProphetError>(ProphetError::MarketActive)
            } else if market.fees_distributed {
                r == Err::<FeeSplit, ProphetError>(ProphetError::AlreadyClaimed)
            } else {
                &&& r is Ok
                &&& r->Ok_0.creator_fee as int == spec_creator_fee(market.spec_losing_total())
                &&& r->Ok_0.burn_fee as int == spec_burn_fee(market.spec_losing_total())
                &&& r->Ok_0.creator_fee + r->Ok_0.burn_fee <= market.total_pot
            }
        }),
{
    if caller != market.authority {
        return Err(ProphetError::Unauthorized);
    }
    if !market.resolved {
        return Err(ProphetError::MarketActive);
    }
    if market.fees_distributed {
        return Err(ProphetError::AlreadyClaimed);
    }
    let winner: u8 = match market.winner_index {
        Some(w) => w,
        None => {
            return Err(ProphetError::OutcomeNotSet);
        },
    };
    let total_losing: u64 = losing_total(market, winner);
    proof {
        lemma_fee_bounds(total_losing as int);
    }
    let creator_fee: u64 = ((total_losing as u128) * (CREATOR_FEE_BP as u128) / (BP_SCALE
        as u128)) as u64;
    let burn_fee: u64 = ((total_losing as u128) * (BURN_FEE_BP as u128) / (BP_SCALE as u128)) as u64;
    Ok(FeeSplit { creator_fee, burn_fee })
}

/// Record that both fee transfers succeeded; nothing else changes. The
/// guard flags make a resubmission after this point fail `AlreadyClaimed`.
pub fn mark_fees_distributed(market: &mut Market)
    requires
        old(market).wf(),
        old(market).resolved,
        !old(market).fees_distributed,
    ensures
        final(market).wf(),
        *final(market) == (Market { fees_distributed: true, ..*old(market) }),
{
    market.fees_distributed = true;
}

/// Compute a winner's payout from the frozen totals: their principal plus
/// their truncated proportional cut of 85% of the losing pool.
///
/// Only the vote's own user may claim (`Unauthorized`); before resolution
/// it fails `MarketActive`; a second claim fails `AlreadyClaimed`; a vote
/// on a losing outcome fails `InvalidOutcome`; an empty winning pool fails
/// `MathOverflow` (the proportional share is undefined, and under this
/// design the losing pool is then stranded). On success the payout plus
/// both fees never exceeds the pot: truncation only leaves dust in
/// custody. The host then transfers the amount out of custody and, only
/// on success, records the claim with [`mark_claimed`].
pub fn claim_winnings(market: &Market, vote: &Vote, caller: u64) -> (r: Result<u64, ProphetError>)
    requires
        market.wf(),
        vote.counted_in(*market),
    ensures
        ({
            let w = market.spec_winner();
            let winning_total = market.outcome_totals@[w];
            let losing = market.spec_losing_total();
            if caller != vote.user {
                r == Err::<u64, ProphetError>(ProphetError::Unauthorized)
            } else if !market.resolved {
                r == Err::<u64, ProphetError>(ProphetError::MarketActive)
            } else if vote.claimed {
                r == Err::<u64, ProphetError>(ProphetError::AlreadyClaimed)
            } else if vote.outcome_index as int != w {
                r == Err::<u64, ProphetError>(ProphetError::InvalidOutcome)
            } else if winning_total == 0 {
                r == Err::<u64, ProphetError>(ProphetError::MathOverflow)
            } else {
                &&& r is Ok
                &&& r->Ok_0 as int == spec_total_payout(
                    vote.amount as int,
                    winning_total as int,
                    losing,
                )
                &&& r->Ok_0 + spec_creator_fee(losing) + spec_burn_fee(losing)
                    <= market.total_pot
            }
        }),
{
    if caller != vote.user {
        return Err(ProphetError::Unauthorized);
    }
    if !market.resolved {
        return Err(ProphetError::MarketActive);
    }
    if vote.claimed {
        return Err(ProphetError::AlreadyClaimed);
    }
    let winner: u8 = match market.winner_index {
        Some(w) => w,
        None => {
            return Err(ProphetError::OutcomeNotSet);
        },
    };
    if vote.outcome_index != winner {
        return Err(ProphetError::InvalidOutcome);
    }
    let winning_total: u64 = market.outcome_totals[winner as usize];
    if winning_total == 0 {
        return Err(ProphetError::MathOverflow);
    }
    let total_losing: u64 = losing_total(market, winner);
    proof {
        lemma_payout_bounds(vote.amount as int, winning_total as int, total_losing as int);
        // The winning total and the losing pool partition the pot.
        lemma_sum_split(market.outcome_totals@, market.outcomes_count as int, winner as int);
    }
    let user_share_bp: u128 = (vote.amount as u128) * (BP_SCALE as u128) / (winning_total as u128);
    let winning_pool: u128 = (total_losing as u128) * (WINNERS_BP as u128) / (BP_SCALE as u128);
    proof {
        lemma_mul_inequality(user_share_bp as int, BP_SCALE as int, winning_pool as int);
        lemma_mul_is_commutative(winning_pool as int, user_share_bp as int);
    }
    let user_winnings: u128 = winning_pool * user_share_bp / (BP_SCALE as u128);
    let total_payout: u64 = vote.amount + (user_winnings as u64);
    Ok(total_payout)
}

/// Conservation of value on a resolved market: take any set of winning
/// votes whose amounts sum to at most the winning outcome's total (all the
/// recorded winning votes do, and so does any subset of them). However the
/// claims and the fee distribution are interleaved, the payouts they are
/// owed plus both fees never exceed the pot; the difference is the dust
/// that truncation leaves in custody.
pub proof fn lemma_market_conservation(m: Market, amounts: Seq<u64>)
    requires
        m.wf(),
        m.resolved,
        m.outcome_totals@[m.spec_winner()] > 0,
        sum_prefix(amounts, amounts.len() as int) <= m.outcome_totals@[m.spec_winner()],
    ensures
        sum_payouts(
            amounts,
            amounts.len() as int,
            m.outcome_totals@[m.spec_winner()] as int,
            m.spec_losing_total(),
        ) + spec_creator_fee(m.spec_losing_total()) + spec_burn_fee(m.spec_losing_total())
            <= m.total_pot,
{
    lemma_sum_except_nonneg(m.outcome_totals@, m.outcomes_count as int, m.spec_winner());
    // The winning total and the losing pool partition the pot.
    lemma_sum_split(m.outcome_totals@, m.outcomes_count as int, m.spec_winner());
    lemma_winners_conservation(
        amounts,
        m.outcome_totals@[m.spec_winner()] as int,
        m.spec_losing_total(),
    );
}

/// Record that a winner's payout transfer succeeded; nothing else changes.
/// The claim flag makes a resubmission fail `AlreadyClaimed`.
pub fn mark_claimed(vote: &mut Vote)
    requires
        !old(vote).claimed,
    ensures
        *final(vote) == (Vote { claimed: true, ..*old(vote) }),
{
    vote.claimed = true;
}

} // verus!
