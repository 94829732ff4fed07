use prophet::claim_winnings;
use prophet::distribute_fees;
use prophet::errors::ProphetError;
use prophet::initialize_market;
use prophet::mark_claimed;
use prophet::mark_fees_distributed;
use prophet::place_vote;
use prophet::resolve_market;
use prophet::state::Market;

const AUTHORITY: u64 = 7;
const MARKET_ID: u64 = 55;
const END: i64 = 1_000_000;
const BEFORE_END: i64 = 999_999;

fn open_market(outcomes: u8) -> Market {
    initialize_market(AUTHORITY, "will it rain tomorrow".to_string(), END, outcomes)
        .ok()
        .unwrap()
}

#[test]
fn new_market_has_clean_state() {
    for count in 2..=8u8 {
        let m = open_market(count);
        assert_eq!(m.authority, AUTHORITY);
        assert_eq!(m.question, "will it rain tomorrow");
        assert_eq!(m.end_timestamp, END);
        assert_eq!(m.outcomes_count, count);
        assert_eq!(m.total_pot, 0);
        assert_eq!(m.outcome_totals, vec![0u64; 8]);
        assert!(!m.resolved);
        assert!(m.winner_index.is_none());
        assert!(!m.fees_distributed);
    }
}

#[test]
fn new_market_rejects_bad_outcome_counts() {
    for count in [0u8, 1, 9, 200] {
        let r = initialize_market(AUTHORITY, "q".to_string(), END, count);
        assert!(matches!(r, Err(ProphetError::InvalidOutcome)));
    }
}

#[test]
fn pot_always_matches_outcome_totals() {
    let mut m = open_market(3);
    let stakes = [(100u64, 0u8, 40u64), (101, 1, 7), (102, 2, 13), (103, 0, 1)];
    for (user, outcome, amount) in stakes {
        place_vote(&mut m, MARKET_ID, user, outcome, amount, BEFORE_END)
            .ok()
            .unwrap();
        let total: u64 = m.outcome_totals.iter().sum();
        assert_eq!(m.total_pot, total);
    }
    assert_eq!(m.total_pot, 61);
    assert_eq!(m.outcome_totals[..3], [41, 7, 13]);
}

#[test]
fn stake_records_vote() {
    let mut m = open_market(2);
    let v = place_vote(&mut m, MARKET_ID, 100, 1, 250, BEFORE_END)
        .ok()
        .unwrap();
    assert_eq!(v.user, 100);
    assert_eq!(v.market, MARKET_ID);
    assert_eq!(v.outcome_index, 1);
    assert_eq!(v.amount, 250);
    assert!(!v.claimed);
}

#[test]
fn zero_amount_stake_is_accepted() {
    let mut m = open_market(2);
    let v = place_vote(&mut m, MARKET_ID, 100, 0, 0, BEFORE_END)
        .ok()
        .unwrap();
    assert_eq!(v.amount, 0);
    assert_eq!(m.total_pot, 0);
}

#[test]
fn stake_on_unknown_outcome_fails() {
    let mut m = open_market(2);
    let r = place_vote(&mut m, MARKET_ID, 100, 2, 10, BEFORE_END);
    assert!(matches!(r, Err(ProphetError::InvalidOutcome)));
    assert_eq!(m.total_pot, 0);
}

#[test]
fn stake_at_or_after_deadline_fails() {
    let mut m = open_market(2);
    for now in [END, END + 1] {
        let r = place_vote(&mut m, MARKET_ID, 100, 0, 10, now);
        assert!(matches!(r, Err(ProphetError::MarketEnded)));
    }
    assert_eq!(m.total_pot, 0);
}

#[test]
fn stake_on_resolved_market_fails() {
    let mut m = open_market(2);
    resolve_market(&mut m, AUTHORITY, 0).ok().unwrap();
    let r = place_vote(&mut m, MARKET_ID, 100, 0, 10, BEFORE_END);
    assert!(matches!(r, Err(ProphetError::MarketEnded)));
}

#[test]
fn stake_overflowing_the_pot_fails() {
    let mut m = open_market(2);
    place_vote(&mut m, MARKET_ID, 100, 0, u64::MAX, BEFORE_END)
        .ok()
        .unwrap();
    let r = place_vote(&mut m, MARKET_ID, 101, 1, 1, BEFORE_END);
    assert!(matches!(r, Err(ProphetError::MathOverflow)));
    assert_eq!(m.total_pot, u64::MAX);
    assert_eq!(m.outcome_totals[1], 0);
}

#[test]
fn resolve_fixes_the_winner() {
    let mut m = open_market(3);
    resolve_market(&mut m, AUTHORITY, 2).ok().unwrap();
    assert!(m.resolved);
    assert_eq!(m.winner_index, Some(2));
}

#[test]
fn resolve_by_non_authority_fails() {
    let mut m = open_market(2);
    let r = resolve_market(&mut m, AUTHORITY + 1, 0);
    assert!(matches!(r, Err(ProphetError::Unauthorized)));
    assert!(!m.resolved);
}

#[test]
fn resolve_twice_fails() {
    let mut m = open_market(2);
    resolve_market(&mut m, AUTHORITY, 1).ok().unwrap();
    let r = resolve_market(&mut m, AUTHORITY, 0);
    assert!(matches!(r, Err(ProphetError::MarketEnded)));
    assert_eq!(m.winner_index, Some(1));
}

#[test]
fn resolve_with_unknown_winner_fails() {
    let mut m = open_market(2);
    let r = resolve_market(&mut m, AUTHORITY, 2);
    assert!(matches!(r, Err(ProphetError::InvalidOutcome)));
    assert!(!m.resolved);
}

#[test]
fn fees_before_resolution_fail() {
    let m = open_market(2);
    let r = distribute_fees(&m, AUTHORITY);
    assert!(matches!(r, Err(ProphetError::MarketActive)));
}

#[test]
fn fees_by_non_authority_fail() {
    let mut m = open_market(2);
    resolve_market(&mut m, AUTHORITY, 0).ok().unwrap();
    let r = distribute_fees(&m, AUTHORITY + 1);
    assert!(matches!(r, Err(ProphetError::Unauthorized)));
}

#[test]
fn fees_distributed_twice_fail() {
    let mut m = open_market(2);
    place_vote(&mut m, MARKET_ID, 100, 1, 999, BEFORE_END)
        .ok()
        .unwrap();
    resolve_market(&mut m, AUTHORITY, 0).ok().unwrap();
    let split = distribute_fees(&m, AUTHORITY).ok().unwrap();
    assert_eq!(split.creator_fee, 99);
    assert_eq!(split.burn_fee, 49);
    mark_fees_distributed(&mut m);
    let r = distribute_fees(&m, AUTHORITY);
    assert!(matches!(r, Err(ProphetError::AlreadyClaimed)));
}

#[test]
fn claim_before_resolution_fails() {
    let mut m = open_market(2);
    let v = place_vote(&mut m, MARKET_ID, 100, 0, 10, BEFORE_END)
        .ok()
        .unwrap();
    let r = claim_winnings(&m, &v, 100);
    assert!(matches!(r, Err(ProphetError::MarketActive)));
}

#[test]
fn claim_by_another_caller_fails() {
    let mut m = open_market(2);
    let v = place_vote(&mut m, MARKET_ID, 100, 0, 10, BEFORE_END)
        .ok()
        .unwrap();
    resolve_market(&mut m, AUTHORITY, 0).ok().unwrap();
    let r = claim_winnings(&m, &v, 101);
    assert!(matches!(r, Err(ProphetError::Unauthorized)));
}

#[test]
fn claim_of_losing_vote_fails() {
    let mut m = open_market(2);
    let v = place_vote(&mut m, MARKET_ID, 100, 1, 10, BEFORE_END)
        .ok()
        .unwrap();
    resolve_market(&mut m, AUTHORITY, 0).ok().unwrap();
    let r = claim_winnings(&m, &v, 100);
    assert!(matches!(r, Err(ProphetError::InvalidOutcome)));
}

#[test]
fn claim_twice_fails() {
    let mut m = open_market(2);
    let mut v = place_vote(&mut m, MARKET_ID, 100, 0, 10, BEFORE_END)
        .ok()
        .unwrap();
    resolve_market(&mut m, AUTHORITY, 0).ok().unwrap();
    claim_winnings(&m, &v, 100).ok().unwrap();
    mark_claimed(&mut v);
    let r = claim_winnings(&m, &v, 100);
    assert!(matches!(r, Err(ProphetError::AlreadyClaimed)));
}

#[test]
fn claim_against_empty_winning_pool_fails() {
    let mut m = open_market(2);
    let v = place_vote(&mut m, MARKET_ID, 100, 0, 0, BEFORE_END)
        .ok()
        .unwrap();
    place_vote(&mut m, MARKET_ID, 101, 1, 500, BEFORE_END)
        .ok()
        .unwrap();
    resolve_market(&mut m, AUTHORITY, 0).ok().unwrap();
    let r = claim_winnings(&m, &v, 100);
    assert!(matches!(r, Err(ProphetError::MathOverflow)));
}

#[test]
fn exact_conservation_scenario() {
    let mut m = open_market(2);
    let vote_a = place_vote(&mut m, MARKET_ID, 100, 0, 1000, BEFORE_END)
        .ok()
        .unwrap();
    place_vote(&mut m, MARKET_ID, 101, 1, 500, BEFORE_END)
        .ok()
        .unwrap();
    assert_eq!(m.total_pot, 1500);
    resolve_market(&mut m, AUTHORITY, 0).ok().unwrap();

    let split = distribute_fees(&m, AUTHORITY).ok().unwrap();
    assert_eq!(split.creator_fee, 50);
    assert_eq!(split.burn_fee, 25);

    let payout = claim_winnings(&m, &vote_a, 100).ok().unwrap();
    assert_eq!(payout, 1425);

    // Dust-free: fees plus the single winner's payout return the whole pot.
    assert_eq!(split.creator_fee + split.burn_fee + payout, m.total_pot);
}

#[test]
fn dust_scenario_never_overpays() {
    let mut m = open_market(2);
    let vote_a = place_vote(&mut m, MARKET_ID, 100, 0, 1, BEFORE_END)
        .ok()
        .unwrap();
    let vote_b = place_vote(&mut m, MARKET_ID, 101, 0, 2, BEFORE_END)
        .ok()
        .unwrap();
    place_vote(&mut m, MARKET_ID, 102, 1, 100, BEFORE_END)
        .ok()
        .unwrap();
    assert_eq!(m.total_pot, 103);
    resolve_market(&mut m, AUTHORITY, 0).ok().unwrap();

    let split = distribute_fees(&m, AUTHORITY).ok().unwrap();
    assert_eq!(split.creator_fee, 10);
    assert_eq!(split.burn_fee, 5);

    // Truncated shares: 3333 bp and 6666 bp of the winning pool of 3;
    // together under 10000 bp. The winners' pool is floor(100*8500/10000)
    // = 85, so the winnings are floor(85*3333/10000) = 28 and
    // floor(85*6666/10000) = 56.
    let payout_a = claim_winnings(&m, &vote_a, 100).ok().unwrap();
    let payout_b = claim_winnings(&m, &vote_b, 101).ok().unwrap();
    assert_eq!(payout_a, 1 + 28);
    assert_eq!(payout_b, 2 + 56);

    let paid_out = split.creator_fee + split.burn_fee + payout_a + payout_b;
    assert!(paid_out <= m.total_pot);
    // The dust stays in custody: 103 - 102 = 1 base unit here.
    assert_eq!(m.total_pot - paid_out, 1);
}

#[test]
fn three_winners_never_overdraw_custody() {
    let mut m = open_market(2);
    let winners = [(100u64, 1u64), (101, 2), (102, 4)];
    let mut votes = Vec::new();
    for (user, amount) in winners {
        votes.push(
            place_vote(&mut m, MARKET_ID, user, 0, amount, BEFORE_END)
                .ok()
                .unwrap(),
        );
    }
    place_vote(&mut m, MARKET_ID, 103, 1, 1000, BEFORE_END)
        .ok()
        .unwrap();
    assert_eq!(m.total_pot, 1007);
    resolve_market(&mut m, AUTHORITY, 0).ok().unwrap();

    let split = distribute_fees(&m, AUTHORITY).ok().unwrap();
    assert_eq!(split.creator_fee, 100);
    assert_eq!(split.burn_fee, 50);

    // Winning total 7, winners' pool floor(1000*8500/10000) = 850; shares
    // 1428, 2857 and 5714 bp; winnings 121, 242 and 485.
    let mut paid_out = split.creator_fee + split.burn_fee;
    for (vote, expected) in votes.iter().zip([1 + 121, 2 + 242, 4 + 485]) {
        let payout = claim_winnings(&m, vote, vote.user).ok().unwrap();
        assert_eq!(payout, expected);
        paid_out += payout;
    }
    assert!(paid_out <= m.total_pot);
    assert_eq!(m.total_pot - paid_out, 2);
}
