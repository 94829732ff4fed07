use vstd::prelude::*;

verus! {

/// Every way a market operation can refuse to act. Each operation's
/// contract states exactly which inputs produce which variant.
#[derive(Clone, Copy, Debug, PartialEq, Eq, Structural)]
pub enum ProphetError {
    /// An outcome index or an outcome count is out of range.
    InvalidOutcome,
    /// A stake arrived after the deadline, or on (or a resolution of) an
    /// already resolved market.
    MarketEnded,
    /// Fee distribution or a claim was attempted before resolution.
    MarketActive,
    /// A second fee distribution, or a second claim of the same vote.
    AlreadyClaimed,
    /// The caller is not the identity the operation demands.
    Unauthorized,
    /// The winner is missing although the market is resolved; defensive,
    /// unreachable while the market invariant holds.
    OutcomeNotSet,
    /// A checked arithmetic step would overflow, or the winning pool is
    /// empty so a proportional share is undefined.
    MathOverflow,
}

} // verus!
