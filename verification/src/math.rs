//! The settlement arithmetic: summations over the per-outcome totals and
//! the fixed-point fee and payout formulas, with the lemmas that bound them.

use vstd::prelude::*;
use vstd::arithmetic::div_mod::{
    lemma_div_is_ordered, lemma_div_multiples_vanish, lemma_div_of0, lemma_div_pos_is_pos,
    lemma_fundamental_div_mod, lemma_mod_division_less_than_divisor,
};
use vstd::arithmetic::mul::{
    lemma_mul_inequality, lemma_mul_is_commutative, lemma_mul_is_distributive_add,
    lemma_mul_nonnegative,
};

verus! {

/// Fixed-point scale: 10000 basis points stand for 100%.
pub const BP_SCALE: u64 = 10000;

/// The creator's fee on the losing pool, in basis points (10%).
pub const CREATOR_FEE_BP: u64 = 1000;

/// The burn fee on the losing pool, in basis points (5%).
pub const BURN_FEE_BP: u64 = 500;

/// The winners' share of the losing pool, in basis points (85%); together
/// with the two fees it accounts for the whole losing pool.
pub const WINNERS_BP: u64 = 8500;

/// Sum of the first `n` entries of `s`.
pub open spec fn sum_prefix(s: Seq<u64>, n: int) -> int
    decreases n,
{
    if n <= 0 {
        0
    } else {
        sum_prefix(s, n - 1) + s[n - 1]
    }
}

/// Sum of the first `n` entries of `s`, leaving entry `w` out.
pub open spec fn sum_except(s: Seq<u64>, n: int, w: int) -> int
    decreases n,
{
    if n <= 0 {
        0
    } else if n - 1 == w {
        sum_except(s, n - 1, w)
    } else {
        sum_except(s, n - 1, w) + s[n - 1]
    }
}

pub proof fn lemma_sum_prefix_nonneg(s: Seq<u64>, n: int)
    requires
        n <= s.len(),
    ensures
        0 <= sum_prefix(s, n),
    decreases n,
{
    if n > 0 {
        lemma_sum_prefix_nonneg(s, n - 1);
    }
}

pub proof fn lemma_sum_except_nonneg(s: Seq<u64>, n: int, w: int)
    requires
        n <= s.len(),
    ensures
        0 <= sum_except(s, n, w),
    decreases n,
{
    if n > 0 {
        lemma_sum_except_nonneg(s, n - 1, w);
    }
}

/// Leaving one entry out never increases the sum.
pub proof fn lemma_sum_except_le_prefix(s: Seq<u64>, n: int, w: int)
    requires
        n <= s.len(),
    ensures
        sum_except(s, n, w) <= sum_prefix(s, n),
    decreases n,
{
    if n > 0 {
        lemma_sum_except_le_prefix(s, n - 1, w);
    }
}

/// A longer prefix has a sum at least as large.
pub proof fn lemma_sum_prefix_monotone(s: Seq<u64>, m: int, n: int)
    requires
        0 <= m <= n <= s.len(),
    ensures
        sum_prefix(s, m) <= sum_prefix(s, n),
    decreases n,
{
    if m < n {
        lemma_sum_prefix_monotone(s, m, n - 1);
    }
}

/// Each entry of the prefix is bounded by the whole prefix sum.
pub proof fn lemma_sum_prefix_element(s: Seq<u64>, n: int, i: int)
    requires
        0 <= i < n <= s.len(),
    ensures
        s[i] <= sum_prefix(s, n),
    decreases n,
{
    if i == n - 1 {
        lemma_sum_prefix_nonneg(s, n - 1);
    } else {
        lemma_sum_prefix_element(s, n - 1, i);
    }
}

/// The prefix sum splits into the entry at `w` plus the rest.
pub proof fn lemma_sum_split(s: Seq<u64>, n: int, w: int)
    requires
        0 <= w < n <= s.len(),
    ensures
        sum_prefix(s, n) == s[w] + sum_except(s, n, w),
    decreases n,
{
    if w == n - 1 {
        lemma_sum_except_agrees_prefix(s, n - 1, w);
    } else {
        lemma_sum_split(s, n - 1, w);
    }
}

/// Leaving out an entry beyond the prefix changes nothing.
pub proof fn lemma_sum_except_agrees_prefix(s: Seq<u64>, n: int, w: int)
    requires
        n <= s.len(),
        w >= n,
    ensures
        sum_except(s, n, w) == sum_prefix(s, n),
    decreases n,
{
    if n > 0 {
        lemma_sum_except_agrees_prefix(s, n - 1, w);
    }
}

/// Overwriting entry `i` moves the prefix sum by exactly the difference.
pub proof fn lemma_sum_prefix_update(s: Seq<u64>, n: int, i: int, v: u64)
    requires
        0 <= i < s.len(),
        n <= s.len(),
    ensures
        i < n ==> sum_prefix(s.update(i, v), n) == sum_prefix(s, n) - s[i] + v,
        i >= n ==> sum_prefix(s.update(i, v), n) == sum_prefix(s, n),
    decreases n,
{
    if n > 0 {
        lemma_sum_prefix_update(s, n - 1, i, v);
    }
}

/// A prefix of zeros sums to zero.
pub proof fn lemma_sum_prefix_zero(s: Seq<u64>, n: int)
    requires
        n <= s.len(),
        forall|i: int| 0 <= i < n ==> s[i] == 0,
    ensures
        sum_prefix(s, n) == 0,
    decreases n,
{
    if n > 0 {
        lemma_sum_prefix_zero(s, n - 1);
    }
}

/// The user's share of the winning pool in basis points, truncated.
pub open spec fn spec_share_bp(amount: int, winning_total: int) -> int {
    amount * (BP_SCALE as int) / winning_total
}

/// 85% of the losing pool, truncated: what is reserved for winners.
pub open spec fn spec_winning_pool(losing: int) -> int {
    losing * (WINNERS_BP as int) / (BP_SCALE as int)
}

/// A winner's cut of the winning pool, truncated.
pub open spec fn spec_user_winnings(amount: int, winning_total: int, losing: int) -> int {
    spec_winning_pool(losing) * spec_share_bp(amount, winning_total) / (BP_SCALE as int)
}

/// A winner's full payout: principal plus winnings.
pub open spec fn spec_total_payout(amount: int, winning_total: int, losing: int) -> int {
    amount + spec_user_winnings(amount, winning_total, losing)
}

/// 10% of the losing pool, truncated: the creator's fee.
pub open spec fn spec_creator_fee(losing: int) -> int {
    losing * (CREATOR_FEE_BP as int) / (BP_SCALE as int)
}

/// 5% of the losing pool, truncated: the burn fee.
pub open spec fn spec_burn_fee(losing: int) -> int {
    losing * (BURN_FEE_BP as int) / (BP_SCALE as int)
}

/// The winners' pool and the two fees together never exceed the losing
/// pool they are carved from; truncation only leaves dust behind.
pub proof fn lemma_pool_and_fees_bound(losing: int)
    requires
        0 <= losing,
    ensures
        0 <= spec_winning_pool(losing) <= losing,
        0 <= spec_creator_fee(losing),
        0 <= spec_burn_fee(losing),
        spec_winning_pool(losing) + spec_creator_fee(losing) + spec_burn_fee(losing) <= losing,
{
    let scale = BP_SCALE as int;
    lemma_div_pos_is_pos(losing * (WINNERS_BP as int), scale);
    lemma_div_pos_is_pos(losing * (CREATOR_FEE_BP as int), scale);
    lemma_div_pos_is_pos(losing * (BURN_FEE_BP as int), scale);
    lemma_div_multiples_vanish(losing, scale);
    lemma_div_is_ordered(losing * (WINNERS_BP as int), losing * scale, scale);
    lemma_div_superadd(losing * (CREATOR_FEE_BP as int), losing * (BURN_FEE_BP as int), scale);
    lemma_div_superadd(
        losing * (WINNERS_BP as int),
        losing * (CREATOR_FEE_BP as int) + losing * (BURN_FEE_BP as int),
        scale,
    );
    lemma_div_is_ordered(
        losing * (WINNERS_BP as int) + (losing * (CREATOR_FEE_BP as int) + losing * (BURN_FEE_BP
            as int)),
        losing * scale,
        scale,
    );
}

/// Bounds on one winner's settlement: the share is at most 100% in basis
/// points, the winnings at most the winners' pool, and the payout plus
/// both fees at most the whole pot (`winning_total + losing`).
pub proof fn lemma_payout_bounds(amount: int, winning_total: int, losing: int)
    requires
        0 <= amount <= winning_total,
        0 < winning_total,
        0 <= losing,
    ensures
        0 <= spec_share_bp(amount, winning_total) <= BP_SCALE as int,
        0 <= spec_winning_pool(losing) <= losing,
        0 <= spec_user_winnings(amount, winning_total, losing) <= spec_winning_pool(losing),
        spec_total_payout(amount, winning_total, losing) + spec_creator_fee(losing)
            + spec_burn_fee(losing) <= winning_total + losing,
{
    let scale = BP_SCALE as int;
    let share = spec_share_bp(amount, winning_total);
    let pool = spec_winning_pool(losing);
    lemma_div_pos_is_pos(amount * scale, winning_total);
    lemma_div_is_ordered(amount * scale, winning_total * scale, winning_total);
    lemma_div_multiples_vanish(scale, winning_total);
    assert(share <= scale);
    lemma_pool_and_fees_bound(losing);
    lemma_mul_nonnegative(pool, share);
    lemma_div_pos_is_pos(pool * share, scale);
    lemma_mul_inequality(share, scale, pool);
    lemma_mul_is_commutative(pool, share);
    lemma_div_is_ordered(pool * share, pool * scale, scale);
    lemma_div_multiples_vanish(pool, scale);
}

/// Sum of the truncated basis-point shares of the first `n` stakes in `s`
/// against a winning total of `w`.
pub open spec fn sum_shares(s: Seq<u64>, n: int, w: int) -> int
    decreases n,
{
    if n <= 0 {
        0
    } else {
        sum_shares(s, n - 1, w) + spec_share_bp(s[n - 1] as int, w)
    }
}

/// Sum of the full payouts of the first `n` stakes in `s`.
pub open spec fn sum_payouts(s: Seq<u64>, n: int, w: int, l: int) -> int
    decreases n,
{
    if n <= 0 {
        0
    } else {
        sum_payouts(s, n - 1, w, l) + spec_total_payout(s[n - 1] as int, w, l)
    }
}

/// Aggregated shares and payouts are bounded by the share and payout of
/// the aggregated stake: truncating each winner separately only loses.
proof fn lemma_sum_payouts_bound(s: Seq<u64>, n: int, w: int, l: int)
    requires
        0 <= n <= s.len(),
        0 < w,
        0 <= l,
    ensures
        0 <= sum_shares(s, n, w) <= spec_share_bp(sum_prefix(s, n), w),
        sum_payouts(s, n, w, l) <= sum_prefix(s, n) + spec_winning_pool(l) * sum_shares(s, n, w)
            / (BP_SCALE as int),
        0 <= spec_winning_pool(l) * sum_shares(s, n, w) / (BP_SCALE as int),
    decreases n,
{
    let scale = BP_SCALE as int;
    let pool = spec_winning_pool(l);
    lemma_pool_and_fees_bound(l);
    if n <= 0 {
        lemma_div_of0(w);
        lemma_div_of0(scale);
    } else {
        lemma_sum_payouts_bound(s, n - 1, w, l);
        let rest = sum_prefix(s, n - 1);
        let last = s[n - 1] as int;
        let share_last = spec_share_bp(last, w);
        let ss_rest = sum_shares(s, n - 1, w);
        lemma_sum_prefix_nonneg(s, n - 1);
        lemma_div_pos_is_pos(last * scale, w);
        // Shares: ss_rest + share(last) <= share(rest) + share(last)
        //   <= share(rest + last).
        lemma_div_superadd(rest * scale, last * scale, w);
        // Payouts: pool*ss_rest/scale + floor(pool*share_last/scale)
        //   <= pool*(ss_rest + share_last)/scale.
        lemma_mul_nonnegative(pool, ss_rest);
        lemma_mul_nonnegative(pool, share_last);
        lemma_div_superadd(pool * ss_rest, pool * share_last, scale);
        lemma_mul_is_distributive_add(pool, ss_rest, share_last);
        lemma_div_pos_is_pos(pool * (ss_rest + share_last), scale);
    }
}

/// Conservation of value across many independent claims: however many
/// winners claim — their stakes summing to at most the winning total —
/// their truncated shares sum to at most 100% in basis points, and the sum
/// of all their payouts plus both fees never exceeds the pot
/// (`winning_total + losing`).
pub proof fn lemma_winners_conservation(amounts: Seq<u64>, winning_total: int, losing: int)
    requires
        0 < winning_total,
        0 <= losing,
        sum_prefix(amounts, amounts.len() as int) <= winning_total,
    ensures
        sum_shares(amounts, amounts.len() as int, winning_total) <= BP_SCALE as int,
        sum_payouts(amounts, amounts.len() as int, winning_total, losing) + spec_creator_fee(
            losing,
        ) + spec_burn_fee(losing) <= winning_total + losing,
{
    let scale = BP_SCALE as int;
    let n = amounts.len() as int;
    let w = winning_total;
    let l = losing;
    let pool = spec_winning_pool(l);
    let total = sum_prefix(amounts, n);
    let ss = sum_shares(amounts, n, w);
    lemma_sum_payouts_bound(amounts, n, w, l);
    lemma_sum_prefix_nonneg(amounts, n);
    // share(total) <= share(w) == scale
    lemma_div_is_ordered(total * scale, w * scale, w);
    lemma_div_multiples_vanish(scale, w);
    assert(ss <= scale);
    // pool * ss / scale <= pool
    lemma_pool_and_fees_bound(l);
    lemma_mul_inequality(ss, scale, pool);
    lemma_mul_is_commutative(pool, ss);
    lemma_div_is_ordered(pool * ss, pool * scale, scale);
    lemma_div_multiples_vanish(pool, scale);
}

/// The law behind dust: when two participants' stakes make up the whole
/// winning total, their truncated shares sum to at most 100% in basis
/// points, and their two payouts plus both fees never exceed the pot
/// (`winning_total + losing`). Whatever the truncations discard stays in
/// custody as dust.
pub proof fn lemma_two_winner_conservation(
    amount_a: u64,
    amount_b: u64,
    winning_total: u64,
    losing: u64,
)
    requires
        winning_total > 0,
        amount_a + amount_b == winning_total,
    ensures
        spec_share_bp(amount_a as int, winning_total as int) + spec_share_bp(
            amount_b as int,
            winning_total as int,
        ) <= BP_SCALE as int,
        spec_total_payout(amount_a as int, winning_total as int, losing as int)
            + spec_total_payout(amount_b as int, winning_total as int, losing as int)
            + spec_creator_fee(losing as int) + spec_burn_fee(losing as int) <= winning_total
            + losing,
{
    let scale = BP_SCALE as int;
    let w = winning_total as int;
    let l = losing as int;
    let a = amount_a as int;
    let b = amount_b as int;
    let share_a = spec_share_bp(a, w);
    let share_b = spec_share_bp(b, w);
    let pool = spec_winning_pool(l);

    // Shares: floor(a*scale/w) + floor(b*scale/w) <= floor((a+b)*scale/w) == scale.
    lemma_div_superadd(a * scale, b * scale, w);
    lemma_div_multiples_vanish(scale, w);
    assert(share_a + share_b <= scale);
    lemma_div_pos_is_pos(a * scale, w);
    lemma_div_pos_is_pos(b * scale, w);

    // Winnings: floor(pool*sa/scale) + floor(pool*sb/scale)
    //   <= floor(pool*(sa+sb)/scale) <= floor(pool*scale/scale) == pool.
    lemma_pool_and_fees_bound(l);
    lemma_mul_nonnegative(pool, share_a);
    lemma_mul_nonnegative(pool, share_b);
    lemma_div_superadd(pool * share_a, pool * share_b, scale);
    lemma_mul_is_distributive_add(pool, share_a, share_b);
    lemma_mul_inequality(share_a + share_b, scale, pool);
    lemma_mul_is_commutative(pool, share_a + share_b);
    lemma_div_is_ordered(pool * (share_a + share_b), pool * scale, scale);
    lemma_div_multiples_vanish(pool, scale);
}

/// The two fees are each at most the losing pool, and together still at
/// most the losing pool: fee extraction can never overdraw custody.
pub proof fn lemma_fee_bounds(losing: int)
    requires
        0 <= losing,
    ensures
        0 <= spec_creator_fee(losing) <= losing,
        0 <= spec_burn_fee(losing) <= losing,
        spec_creator_fee(losing) + spec_burn_fee(losing) <= losing,
{
    lemma_div_pos_is_pos(losing * (CREATOR_FEE_BP as int), BP_SCALE as int);
    lemma_div_pos_is_pos(losing * (BURN_FEE_BP as int), BP_SCALE as int);
    lemma_div_multiples_vanish(losing, BP_SCALE as int);
    lemma_div_is_ordered(
        losing * (CREATOR_FEE_BP as int),
        losing * (BP_SCALE as int),
        BP_SCALE as int,
    );
    lemma_div_is_ordered(losing * (BURN_FEE_BP as int), losing * (BP_SCALE as int), BP_SCALE as int);
    lemma_div_superadd(losing * (CREATOR_FEE_BP as int), losing * (BURN_FEE_BP as int), BP_SCALE as int);
    lemma_div_is_ordered(
        losing * (CREATOR_FEE_BP as int) + losing * (BURN_FEE_BP as int),
        losing * (BP_SCALE as int),
        BP_SCALE as int,
    );
}

/// Truncating division is superadditive: splitting a numerator never
/// gains value.
pub proof fn lemma_div_superadd(x: int, y: int, d: int)
    requires
        0 <= x,
        0 <= y,
        0 < d,
    ensures
        x / d + y / d <= (x + y) / d,
{
    lemma_fundamental_div_mod(x, d);
    lemma_fundamental_div_mod(y, d);
    lemma_mod_division_less_than_divisor(x, d);
    lemma_mod_division_less_than_divisor(y, d);
    lemma_div_pos_is_pos(x, d);
    lemma_div_pos_is_pos(y, d);
    let q = x / d + y / d;
    lemma_mul_is_distributive_add(d, x / d, y / d);
    assert(d * q == d * (x / d) + d * (y / d));
    assert(d * q <= x + y);
    lemma_div_is_ordered(d * q, x + y, d);
    lemma_div_multiples_vanish(q, d);
}

} // verus!
