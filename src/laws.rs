//! Properties that tie the operations together, proved over the same spec
//! functions their contracts use.

use vstd::prelude::*;
use crate::engine::{caught_up_score, crank_error, cranked_ticket, new_round_error, settle_error};
use crate::rules::{best_tier, last_qualifying, payout_of, tier_threshold, JACKPOT_TIER, TOTAL_FLIPS};
use crate::state::{prefix_len, FlipError, Game, Ticket};

verus! {

/// A ticket whose first mismatch is at 0-based position `k` has matched
/// exactly `k` flips once `n > k` flips are looked at.
pub proof fn lemma_first_mismatch_score(p: Seq<u8>, o: Seq<u8>, k: nat, n: nat)
    requires
        k < n,
        forall|j: int| 0 <= j < k ==> p[j] == o[j],
        p[k as int] != o[k as int],
    ensures
        prefix_len(p, o, n) == k,
    decreases n,
{
    if n > k + 1 {
        lemma_first_mismatch_score(p, o, k, (n - 1) as nat);
    } else {
        lemma_full_match(p, o, k);
    }
}

/// Matching every one of the first `n` positions gives a prefix of `n`.
pub proof fn lemma_full_match(p: Seq<u8>, o: Seq<u8>, n: nat)
    requires
        forall|j: int| 0 <= j < n ==> p[j] == o[j],
    ensures
        prefix_len(p, o, n) == n,
    decreases n,
{
    if n > 0 {
        lemma_full_match(p, o, (n - 1) as nat);
    }
}

/// Cranking a ticket whose first mismatch is at 0-based position `k`, once
/// more than `k` flips are revealed, leaves it eliminated with score `k` at
/// flip `k + 1`.
pub proof fn lemma_elimination(g: Game, t: Ticket, k: nat)
    requires
        k < g.current_flip,
        g.current_flip <= TOTAL_FLIPS,
        forall|j: int| 0 <= j < k ==> t.predictions[j] == g.flip_results[j],
        t.predictions[k as int] != g.flip_results[k as int],
    ensures
        cranked_ticket(&g, &t).score == k,
        !cranked_ticket(&g, &t).alive,
        cranked_ticket(&g, &t).died_at_flip == k + 1,
{
    lemma_first_mismatch_score(t.predictions@, g.flip_results@, k, g.current_flip as nat);
}

/// The tier a score earns is the highest one whose threshold it reaches:
/// thresholds 15 to 19 map to tiers 0 to 4, and lower scores earn none.
pub proof fn lemma_best_tier_exact(score: int)
    ensures
        score < tier_threshold(0) ==> best_tier(score) is None,
        tier_threshold(0) <= score <= tier_threshold(4) ==> best_tier(score) == Some(score - tier_threshold(0)),
        score > tier_threshold(4) ==> best_tier(score) == Some(4int),
{
    reveal_with_fuel(last_qualifying, 6);
}

/// A second crank of a ticket already caught up with the same reveals is
/// rejected: as dead if the first crank eliminated it, as already cranked
/// otherwise.
pub proof fn lemma_crank_twice_rejects(g: Game, game_key: Seq<u8>, t: Ticket, later: Game)
    requires
        crank_error(&g, game_key, &t) is None,
        later.current_flip == g.current_flip,
        later.round == g.round,
    ensures
        cranked_ticket(&g, &t).alive ==> crank_error(&later, game_key, &cranked_ticket(&g, &t))
            == Some(FlipError::AlreadyCranked),
        !cranked_ticket(&g, &t).alive ==> crank_error(&later, game_key, &cranked_ticket(&g, &t))
            == Some(FlipError::TicketDead),
{
}

/// A ticket that `settle` accepted cannot be settled again in the same round:
/// the second call is rejected, so no second payout is owed.
pub proof fn lemma_settle_once(g: Game, game_key: Seq<u8>, player: Seq<u8>, t: Ticket, later: Game)
    requires
        settle_error(&g, game_key, player, &t) is None,
        later.round == g.round,
        later.game_over == g.game_over,
    ensures
        settle_error(&later, game_key, player, &Ticket { settled: true, ..t })
            == Some(FlipError::AlreadySettled),
{
}

/// Each of `winners` parties receiving `pool / winners` takes no more than
/// `pool`, and what is left is exactly the division remainder.
pub proof fn lemma_even_split(pool: int, winners: int)
    requires
        pool >= 0,
        winners > 0,
    ensures
        winners * (pool / winners) + pool % winners == pool,
        0 <= pool % winners < winners,
        winners * (pool / winners) <= pool,
{
    assert(winners * (pool / winners) + pool % winners == pool) by (nonlinear_arith)
        requires pool >= 0, winners > 0;
}

/// What a round pays out in all when every counted full-survivor and every
/// counted milestone ticket is settled.
pub open spec fn round_payout_total(jackpot: int, milestone: int, counts: Seq<u32>) -> int {
    counts[JACKPOT_TIER as int] * payout_of(TOTAL_FLIPS as int, jackpot, milestone, counts)
        + counts[0] * payout_of(tier_threshold(0), jackpot, milestone, counts)
        + counts[1] * payout_of(tier_threshold(1), jackpot, milestone, counts)
        + counts[2] * payout_of(tier_threshold(2), jackpot, milestone, counts)
        + counts[3] * payout_of(tier_threshold(3), jackpot, milestone, counts)
        + counts[4] * payout_of(tier_threshold(4), jackpot, milestone, counts)
}

proof fn lemma_share_bound(total: int, n: int)
    requires
        total >= 0,
        n >= 0,
    ensures
        0 <= n * (total / (if n > 0 { n } else { 1 })) <= total,
{
    if n > 0 {
        lemma_even_split(total, n);
        assert(total / n >= 0) by (nonlinear_arith) requires total >= 0, n > 0;
        assert(n * (total / n) >= 0) by (nonlinear_arith) requires total / n >= 0, n > 0;
    }
}

/// Conservation: settling every counted ticket of a round pays out at most
/// what the jackpot and milestone pools hold, and the full-survivors' payouts
/// plus the remainder left in the jackpot equal the jackpot exactly.
pub proof fn lemma_round_payouts_conserve(jackpot: int, milestone: int, counts: Seq<u32>)
    requires
        jackpot >= 0,
        milestone >= 0,
        counts.len() == 6,
    ensures
        0 <= round_payout_total(jackpot, milestone, counts) <= jackpot + milestone,
        counts[JACKPOT_TIER as int] > 0 ==> counts[JACKPOT_TIER as int] * payout_of(TOTAL_FLIPS as int, jackpot, milestone, counts)
            + jackpot % (counts[JACKPOT_TIER as int] as int) == jackpot,
{
    let share = milestone * 2000 / 10000;
    assert(0 <= share && 5 * share <= milestone) by (nonlinear_arith) requires milestone >= 0, share == milestone * 2000 / 10000;
    lemma_share_bound(jackpot, counts[5] as int);
    if counts[5] > 0 {
        lemma_even_split(jackpot, counts[5] as int);
    }
    assert forall|i: int| 0 <= i < 5 implies 0 <= #[trigger] counts[i] * payout_of(tier_threshold(i), jackpot, milestone, counts) <= share by {
        lemma_best_tier_exact(tier_threshold(i));
        lemma_share_bound(share, counts[i] as int);
    }
    assert(0 <= counts[0] * payout_of(tier_threshold(0), jackpot, milestone, counts) <= share);
    assert(0 <= counts[1] * payout_of(tier_threshold(1), jackpot, milestone, counts) <= share);
    assert(0 <= counts[2] * payout_of(tier_threshold(2), jackpot, milestone, counts) <= share);
    assert(0 <= counts[3] * payout_of(tier_threshold(3), jackpot, milestone, counts) <= share);
    assert(0 <= counts[4] * payout_of(tier_threshold(4), jackpot, milestone, counts) <= share);
}

/// A ticket still in the running: not eliminated and not yet settled.
pub open spec fn is_live(t: Ticket) -> bool {
    t.alive && !t.settled
}

/// Number of live tickets among `ts`.
pub open spec fn live_count(ts: Seq<Ticket>) -> nat
    decreases ts.len(),
{
    if ts.len() == 0 {
        0
    } else {
        live_count(ts.drop_last()) + (if is_live(ts.last()) { 1nat } else { 0 })
    }
}

proof fn lemma_live_count_update(ts: Seq<Ticket>, k: int, x: Ticket)
    requires
        0 <= k < ts.len(),
    ensures
        live_count(ts.update(k, x)) + (if is_live(ts[k]) { 1int } else { 0 })
            == live_count(ts) + (if is_live(x) { 1int } else { 0 }),
    decreases ts.len(),
{
    let u = ts.update(k, x);
    if k == ts.len() - 1 {
        assert(u.drop_last() =~= ts.drop_last());
    } else {
        assert(u.drop_last() =~= ts.drop_last().update(k, x));
        lemma_live_count_update(ts.drop_last(), k, x);
    }
}

proof fn lemma_live_count_positive(ts: Seq<Ticket>, k: int)
    requires
        0 <= k < ts.len(),
        is_live(ts[k]),
    ensures
        live_count(ts) > 0,
    decreases ts.len(),
{
    if k < ts.len() - 1 {
        lemma_live_count_positive(ts.drop_last(), k);
    }
}

/// A new ticket from `enter` keeps the live counter equal to the number of
/// live tickets of the round.
pub proof fn lemma_enter_keeps_live_count(before: Game, after: Game, ts: Seq<Ticket>, t: Ticket)
    requires
        before.tickets_alive == live_count(ts),
        after.tickets_alive == before.tickets_alive + 1,
        t.alive,
        !t.settled,
    ensures
        after.tickets_alive == live_count(ts.push(t)),
{
    assert(ts.push(t).drop_last() =~= ts);
}

/// Cranking an unsettled ticket keeps the live counter equal to the number of
/// live tickets of the round.
pub proof fn lemma_crank_keeps_live_count(before: Game, after: Game, game_key: Seq<u8>, ts: Seq<Ticket>, k: int)
    requires
        before.tickets_alive == live_count(ts),
        0 <= k < ts.len(),
        !ts[k].settled,
        crank_error(&before, game_key, &ts[k]) is None,
        after.tickets_alive == before.tickets_alive
            - (if caught_up_score(&before, &ts[k]) < before.current_flip { 1int } else { 0 }),
    ensures
        after.tickets_alive == live_count(ts.update(k, cranked_ticket(&before, &ts[k]))),
{
    lemma_live_count_update(ts, k, cranked_ticket(&before, &ts[k]));
}

/// Settling a ticket keeps the live counter equal to the number of live
/// tickets of the round.
pub proof fn lemma_settle_keeps_live_count(
    before: Game,
    after: Game,
    game_key: Seq<u8>,
    player: Seq<u8>,
    ts: Seq<Ticket>,
    k: int,
)
    requires
        before.tickets_alive == live_count(ts),
        0 <= k < ts.len(),
        settle_error(&before, game_key, player, &ts[k]) is None,
        after.tickets_alive == before.tickets_alive - (if ts[k].alive { 1int } else { 0 }),
    ensures
        after.tickets_alive == live_count(ts.update(k, Ticket { settled: true, ..ts[k] })),
{
    lemma_live_count_update(ts, k, Ticket { settled: true, ..ts[k] });
}

/// Round-advance guard: while the live counter equals the number of live
/// tickets of the round, `new_round` rejects as long as one of them is still
/// alive and unsettled.
pub proof fn lemma_new_round_blocked_by_live_ticket(g: Game, signer: Seq<u8>, ts: Seq<Ticket>, k: int)
    requires
        g.tickets_alive == live_count(ts),
        0 <= k < ts.len(),
        ts[k].alive,
        !ts[k].settled,
    ensures
        new_round_error(&g, signer) is Some,
        signer == g.authority@ && g.game_over ==> new_round_error(&g, signer) == Some(FlipError::UnsettledTickets),
{
    lemma_live_count_positive(ts, k);
}

proof fn lemma_prefix_len_prefix_only(p: Seq<u8>, o1: Seq<u8>, o2: Seq<u8>, n: nat)
    requires
        forall|i: int| 0 <= i < n ==> o1[i] == o2[i],
    ensures
        prefix_len(p, o1, n) == prefix_len(p, o2, n),
    decreases n,
{
    if n > 0 {
        lemma_prefix_len_prefix_only(p, o1, o2, (n - 1) as nat);
    }
}

/// Revealing further flips never invalidates a ticket's recorded progress:
/// a ticket in step with a round stays in step once more outcomes are added
/// and the earlier ones are kept.
pub proof fn lemma_reveal_keeps_ticket_synced(before: Game, after: Game, t: Ticket)
    requires
        t.synced(&before),
        before.current_flip <= after.current_flip,
        forall|i: int| 0 <= i < before.current_flip ==> after.flip_results[i] == before.flip_results[i],
    ensures
        t.synced(&after),
{
    lemma_prefix_len_prefix_only(t.predictions@, before.flip_results@, after.flip_results@, t.last_cranked_flip as nat);
}

/// Conservation over a round's jackpot settlements: `settle` leaves the pools
/// and counters unchanged, so each of the `k` counted full survivors is paid
/// the same share. Any `n <= k` of those settlements together pay at most the
/// jackpot, and once all `k` are paid what stays is exactly the remainder of
/// the division, which is less than `k`.
pub proof fn lemma_jackpot_settlements_conserve(jackpot: int, milestone: int, counts: Seq<u32>, n: int)
    requires
        jackpot >= 0,
        counts.len() == 6,
        counts[JACKPOT_TIER as int] > 0,
        0 <= n <= counts[JACKPOT_TIER as int],
    ensures
        0 <= n * payout_of(TOTAL_FLIPS as int, jackpot, milestone, counts) <= jackpot,
        n == counts[JACKPOT_TIER as int] ==> jackpot - n * payout_of(TOTAL_FLIPS as int, jackpot, milestone, counts)
            == jackpot % (counts[JACKPOT_TIER as int] as int),
        n == counts[JACKPOT_TIER as int] ==> jackpot - n * payout_of(TOTAL_FLIPS as int, jackpot, milestone, counts)
            < counts[JACKPOT_TIER as int],
{
    let k = counts[JACKPOT_TIER as int] as int;
    let share = payout_of(TOTAL_FLIPS as int, jackpot, milestone, counts);
    assert(share == jackpot / k);
    lemma_even_split(jackpot, k);
    assert(share >= 0) by (nonlinear_arith) requires share == jackpot / k, jackpot >= 0, k > 0;
    assert(0 <= n * share <= k * share) by (nonlinear_arith) requires 0 <= n <= k, share >= 0;
}

} // verus!
