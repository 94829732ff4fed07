//! The two persistent entities: a market and a participant's vote, with
//! the invariants every operation preserves.

use vstd::prelude::*;
use crate::math::sum_prefix;
use crate::math::sum_except;

verus! {

/// The platform bound on how many outcomes one market may offer.
pub const MAX_OUTCOMES: u8 = 8;

/// One prediction market: 2 to 8 mutually exclusive outcomes, a stake
/// total per outcome, and the resolution flags.
///
/// Identities (`authority`, and `user` / `market` on a vote) are opaque
/// tokens handed in by the host; the core only ever compares them for
/// equality.
#[derive(Debug, Clone)]
pub struct Market {
    /// The identity permitted to resolve and to trigger fee distribution.
    pub authority: u64,
    /// Opaque descriptive text, immutable after creation.
    pub question: String,
    /// The instant after which no new stakes are accepted.
    pub end_timestamp: i64,
    /// How many outcomes are meaningful, in `[2, MAX_OUTCOMES]`.
    pub outcomes_count: u8,
    /// Running sum of all accepted stakes.
    pub total_pot: u64,
    /// Per-outcome stake sums; always `MAX_OUTCOMES` entries, the ones at
    /// and past `outcomes_count` zero and unused.
    pub outcome_totals: Vec<u64>,
    /// Becomes true exactly once, never reverts.
    pub resolved: bool,
    /// Absent while unresolved; present and immutable once resolved.
    pub winner_index: Option<u8>,
    /// Becomes true exactly once, never reverts; only meaningful after
    /// resolution.
    pub fees_distributed: bool,
}

impl Market {
    /// The market invariant: creation establishes it and every operation
    /// preserves it. In particular the pot always equals the sum of the
    /// per-outcome totals, and the winner is present exactly when the
    /// market is resolved.
    pub open spec fn wf(self) -> bool {
        &&& 2 <= self.outcomes_count <= MAX_OUTCOMES
        &&& self.outcome_totals@.len() == MAX_OUTCOMES as int
        &&& (forall|i: int|
            self.outcomes_count <= i < MAX_OUTCOMES as int ==> self.outcome_totals@[i] == 0)
        &&& self.total_pot == sum_prefix(self.outcome_totals@, self.outcomes_count as int)
        &&& (self.resolved <==> self.winner_index is Some)
        &&& (self.winner_index is Some ==> self.winner_index->0 < self.outcomes_count)
        &&& (self.fees_distributed ==> self.resolved)
    }

    /// The resolved winner's index; meaningful only when resolved.
    pub open spec fn spec_winner(self) -> int {
        self.winner_index->0 as int
    }

    /// The losing pool: all stakes except those on the winning outcome.
    pub open spec fn spec_losing_total(self) -> int {
        sum_except(self.outcome_totals@, self.outcomes_count as int, self.spec_winner())
    }

    /// The fields fixed at creation are the same in both values.
    pub open spec fn same_creation_fields(self, other: Market) -> bool {
        &&& self.authority == other.authority
        &&& self.question == other.question
        &&& self.end_timestamp == other.end_timestamp
        &&& self.outcomes_count == other.outcomes_count
    }
}

/// One participant's stake on one outcome of one market.
#[derive(Debug, Clone)]
pub struct Vote {
    /// The staking participant's identity.
    pub user: u64,
    /// The identity of the market staked on (lookup only, no ownership).
    pub market: u64,
    /// The chosen outcome, below the market's `outcomes_count` at creation.
    pub outcome_index: u8,
    /// The staked quantity, fixed at creation.
    pub amount: u64,
    /// Becomes true exactly once, never reverts.
    pub claimed: bool,
}

impl Vote {
    /// A vote the stake acceptor recorded against `m`: its outcome exists
    /// and its amount is counted inside that outcome's total. Totals never
    /// shrink, so this holds for the vote's whole life.
    pub open spec fn counted_in(self, m: Market) -> bool {
        &&& self.outcome_index < m.outcomes_count
        &&& self.amount <= m.outcome_totals@[self.outcome_index as int]
    }
}

} // verus!
