//! Fixed parameters of the game and the pure rules derived from them:
//! fee split, milestone tiers, payouts and the per-step outcome derivation.

use vstd::prelude::*;

verus! {

/// Stake paid by each ticket, in the smallest unit of the staked token.
pub const ENTRY_FEE: u64 = 1_000_000;

/// Number of flips in a round.
pub const TOTAL_FLIPS: u8 = 20;

/// Share of each entry fee that goes to the operator.
pub const OPERATOR_FEE_BPS: u64 = 100;

/// Share of each entry fee that goes to the milestone pool.
pub const MILESTONE_POOL_BPS: u64 = 0;

/// Denominator of every basis-point share.
pub const BPS_BASE: u64 = 10000;

/// Share of the milestone pool that each milestone tier splits.
pub const TIER_SPLIT_BPS: u64 = 2000;

/// Number of milestone tiers.
pub const MILESTONE_TIER_COUNT: usize = 5;

/// Index of the full-survival counter in `tier_counts`.
pub const JACKPOT_TIER: usize = 5;

/// Encoding of a heads prediction or outcome.
pub const HEADS: u8 = 1;

/// Encoding of a tails prediction or outcome.
pub const TAILS: u8 = 2;

/// A valid prediction or revealed outcome.
pub open spec fn is_side(v: u8) -> bool {
    v == HEADS || v == TAILS
}

/// Survival threshold of milestone tier `idx` (thresholds ascend).
pub open spec fn tier_threshold(idx: int) -> int {
    15 + idx
}

/// Survival threshold of milestone tier `idx`.
pub fn milestone_tier(idx: usize) -> (t: u8)
    requires
        idx < MILESTONE_TIER_COUNT,
    ensures
        t as int == tier_threshold(idx as int),
{
    15 + idx as u8
}

/// The last of the first `k` milestone tiers whose threshold `score` reaches.
pub open spec fn last_qualifying(score: int, k: int) -> Option<int>
    decreases k,
{
    if k <= 0 {
        None
    } else if tier_threshold(k - 1) <= score {
        Some(k - 1)
    } else {
        last_qualifying(score, k - 1)
    }
}

/// The highest milestone tier that `score` qualifies for, if any.
pub open spec fn best_tier(score: int) -> Option<int> {
    last_qualifying(score, MILESTONE_TIER_COUNT as int)
}

/// Finds the highest milestone tier whose threshold is at most `score`.
pub fn best_milestone_tier(score: u8) -> (r: Option<usize>)
    ensures
        r is None <==> best_tier(score as int) is None,
        r matches Some(i) ==> best_tier(score as int) == Some(i as int) && i < MILESTONE_TIER_COUNT,
{
    let mut best: Option<usize> = None;
    let mut idx: usize = 0;
    while idx < MILESTONE_TIER_COUNT
        invariant
            idx <= MILESTONE_TIER_COUNT,
            best is None <==> last_qualifying(score as int, idx as int) is None,
            best matches Some(i) ==> last_qualifying(score as int, idx as int) == Some(i as int) && i < idx,
        decreases MILESTONE_TIER_COUNT - idx,
    {
        if score >= milestone_tier(idx) {
            best = Some(idx);
        }
        idx = idx + 1;
    }
    best
}

/// Operator's share of one entry fee.
pub open spec fn operator_cut() -> int {
    ENTRY_FEE as int * OPERATOR_FEE_BPS as int / BPS_BASE as int
}

/// Milestone pool's share of one entry fee.
pub open spec fn milestone_cut() -> int {
    ENTRY_FEE as int * MILESTONE_POOL_BPS as int / BPS_BASE as int
}

/// Jackpot's share of one entry fee: what is left after the other two.
pub open spec fn jackpot_cut() -> int {
    ENTRY_FEE - operator_cut() - milestone_cut()
}

/// Splits one entry fee into (operator, milestone, jackpot) amounts.
pub fn split_entry_fee() -> (r: (u64, u64, u64))
    ensures
        r.0 == operator_cut(),
        r.1 == milestone_cut(),
        r.2 == jackpot_cut(),
        r.0 + r.1 + r.2 == ENTRY_FEE,
{
    let operator_amount = ENTRY_FEE * OPERATOR_FEE_BPS / BPS_BASE;
    let milestone_amount = ENTRY_FEE * MILESTONE_POOL_BPS / BPS_BASE;
    let jackpot_amount = ENTRY_FEE - operator_amount - milestone_amount;
    (operator_amount, milestone_amount, jackpot_amount)
}

/// A winner count used as a divisor: never less than one.
pub open spec fn divisor(count: u32) -> int {
    if count > 0 {
        count as int
    } else {
        1
    }
}

/// What a fully cranked ticket with final `score` is owed, given the pools
/// and tier counters of its round: a full survivor's share of the jackpot, or
/// an eliminated ticket's share of its tier's part of the milestone pool.
pub open spec fn payout_of(score: int, jackpot: int, milestone: int, tier_counts: Seq<u32>) -> int {
    if score >= TOTAL_FLIPS {
        jackpot / divisor(tier_counts[JACKPOT_TIER as int])
    } else {
        match best_tier(score) {
            Some(i) => (milestone * TIER_SPLIT_BPS as int / BPS_BASE as int) / divisor(tier_counts[i]),
            None => 0,
        }
    }
}

/// XOR of `acc` with every byte of `s`, folded from the front.
pub open spec fn xor_fold(acc: u8, s: Seq<u8>) -> u8
    decreases s.len(),
{
    if s.len() == 0 {
        acc
    } else {
        xor_fold(acc, s.drop_last()) ^ s.last()
    }
}

/// Little-endian bytes of a 64-bit word.
pub open spec fn le_bytes(x: u64) -> Seq<u8> {
    Seq::new(8, |k: int| (x >> ((8 * k) as u64)) as u8)
}

/// Seed of a flip: the step number folded with the slot, the timestamp and the
/// round account's address.
pub open spec fn flip_seed(step: u8, slot: u64, unix_timestamp: i64, game_key: Seq<u8>) -> u8 {
    xor_fold(xor_fold(xor_fold(step, le_bytes(slot)), le_bytes(unix_timestamp as u64)), game_key)
}

/// Outcome encoded by a seed: even is heads, odd is tails.
pub open spec fn outcome_of_seed(seed: u8) -> u8 {
    if seed % 2 == 0 {
        HEADS
    } else {
        TAILS
    }
}

/// Folds the little-endian bytes of `x` into `acc` by XOR.
fn xor_word(acc: u8, x: u64) -> (r: u8)
    ensures
        r == xor_fold(acc, le_bytes(x)),
{
    let mut seed = acc;
    let mut k: u64 = 0;
    while k < 8
        invariant
            k <= 8,
            seed == xor_fold(acc, le_bytes(x).take(k as int)),
        decreases 8 - k,
    {
        let b = (x >> (8 * k)) as u8;
        proof {
            let s = le_bytes(x).take(k as int + 1);
            assert(s.drop_last() =~= le_bytes(x).take(k as int));
            assert(s.last() == b);
        }
        seed = seed ^ b;
        k = k + 1;
    }
    assert(le_bytes(x).take(8) =~= le_bytes(x));
    seed
}

/// Derives the outcome of flip number `step` from the clock readings and the
/// round account's address.
pub fn flip_outcome(step: u8, slot: u64, unix_timestamp: i64, game_key: &[u8; 32]) -> (r: u8)
    ensures
        r == outcome_of_seed(flip_seed(step, slot, unix_timestamp, game_key@)),
        is_side(r),
{
    let mut seed = xor_word(step, slot);
    seed = xor_word(seed, unix_timestamp as u64);
    let ghost start = seed;
    let mut k: usize = 0;
    while k < 32
        invariant
            k <= 32,
            seed == xor_fold(start, game_key@.take(k as int)),
        decreases 32 - k,
    {
        proof {
            let s = game_key@.take(k as int + 1);
            assert(s.drop_last() =~= game_key@.take(k as int));
        }
        seed = seed ^ game_key[k];
        k = k + 1;
    }
    assert(game_key@.take(32) =~= game_key@);
    if seed % 2 == 0 {
        HEADS
    } else {
        TAILS
    }
}

} // verus!
