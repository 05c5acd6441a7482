//! Operations of the settlement engine. Each one either applies its whole
//! transition and returns `Ok`, or rejects with a `FlipError` and changes
//! nothing. Token transfers are left to the caller: an operation that moves
//! funds returns the amount to move.

use vstd::prelude::*;
use crate::rules::{
    best_milestone_tier, best_tier, flip_outcome, flip_seed, is_side, outcome_of_seed,
    payout_of, split_entry_fee, HEADS, TAILS, jackpot_cut, milestone_cut, operator_cut, BPS_BASE,
    ENTRY_FEE, JACKPOT_TIER, MILESTONE_TIER_COUNT, TIER_SPLIT_BPS, TOTAL_FLIPS,
};
use crate::state::{prefix_len, lemma_prefix_len_stable, same_key, FlipError, Game, Key, RoundResult, Ticket};

verus! {

/// Why `crank` would reject `t` against `g`, if it would.
pub open spec fn crank_error(g: &Game, game_key: Seq<u8>, t: &Ticket) -> Option<FlipError> {
    if t.game@ != game_key || t.round != g.round {
        Some(FlipError::TicketGameMismatch)
    } else if g.current_flip == 0 {
        Some(FlipError::NoFlipsYet)
    } else if !t.alive {
        Some(FlipError::TicketDead)
    } else if t.last_cranked_flip >= g.current_flip {
        Some(FlipError::AlreadyCranked)
    } else {
        None
    }
}

/// Matched prefix length of `t` against every flip revealed in `g`.
pub open spec fn caught_up_score(g: &Game, t: &Ticket) -> nat {
    prefix_len(t.predictions@, g.flip_results@, g.current_flip as nat)
}

/// The ticket `t` once it has been scored against every flip revealed in `g`.
pub open spec fn cranked_ticket(g: &Game, t: &Ticket) -> Ticket {
    let n = caught_up_score(g, t);
    Ticket {
        alive: n == g.current_flip,
        score: n as u8,
        last_cranked_flip: g.current_flip,
        died_at_flip: if n == g.current_flip { 0 } else { (n + 1) as u8 },
        ..*t
    }
}

/// `a` and `b` agree on everything but the liveness and tier counters.
pub open spec fn same_but_counters(a: &Game, b: &Game) -> bool {
    &&& a.authority == b.authority
    &&& a.usdc_mint == b.usdc_mint
    &&& a.vault == b.vault
    &&& a.bump == b.bump
    &&& a.vault_bump == b.vault_bump
    &&& a.current_flip == b.current_flip
    &&& a.flip_results == b.flip_results
    &&& a.milestone_pool == b.milestone_pool
    &&& a.jackpot_pool == b.jackpot_pool
    &&& a.operator_pool == b.operator_pool
    &&& a.total_entries == b.total_entries
    &&& a.game_over == b.game_over
    &&& a.accepting_entries == b.accepting_entries
    &&& a.round == b.round
}

/// Catches a ticket's score up to the flips revealed so far. Anyone may call
/// it. The ticket is eliminated at its first mismatch, which retires it from
/// the live count and credits the highest milestone tier its score reached; a
/// ticket that matches all flips is credited to the full-survival tier. That
/// credit comes only from a crank made once the round is over, so a winner
/// must be cranked after the last reveal before it can be settled.
pub fn crank(game: &mut Game, game_key: &Key, ticket: &mut Ticket) -> (r: Result<(), FlipError>)
    requires
        old(game).wf(),
        old(ticket).round == old(game).round ==> old(ticket).synced(old(game)),
        old(ticket).round == old(game).round && old(ticket).alive && !old(ticket).settled ==> old(game).tickets_alive > 0,
        forall|i: int| 0 <= i < 6 ==> old(game).tier_counts[i] < u32::MAX,
    ensures
        r is Ok <==> crank_error(old(game), game_key@, old(ticket)) is None,
        r matches Err(e) ==> {
            &&& crank_error(old(game), game_key@, old(ticket)) == Some(e)
            &&& *final(game) == *old(game)
            &&& *final(ticket) == *old(ticket)
        },
        r is Ok ==> {
            let n = caught_up_score(old(game), old(ticket));
            let eliminated = n < old(game).current_flip;
            &&& *final(ticket) == cranked_ticket(old(game), old(ticket))
            &&& final(ticket).synced(final(game))
            &&& same_but_counters(final(game), old(game))
            &&& final(game).tickets_alive == old(game).tickets_alive - (if eliminated { 1int } else { 0 })
            &&& forall|i: int| 0 <= i < MILESTONE_TIER_COUNT ==> #[trigger] final(game).tier_counts[i]
                == old(game).tier_counts[i] + (if eliminated && best_tier(n as int) == Some(i) { 1int } else { 0 })
            &&& final(game).tier_counts[JACKPOT_TIER as int]
                == old(game).tier_counts[JACKPOT_TIER as int] + (if n == TOTAL_FLIPS { 1int } else { 0 })
        },
        final(game).wf(),
{
    if !same_key(&ticket.game, game_key) || ticket.round != game.round {
        return Err(FlipError::TicketGameMismatch);
    }
    if game.current_flip == 0 {
        return Err(FlipError::NoFlipsYet);
    }
    if !ticket.alive {
        return Err(FlipError::TicketDead);
    }
    if ticket.last_cranked_flip >= game.current_flip {
        return Err(FlipError::AlreadyCranked);
    }
    let ghost p = ticket.predictions@;
    let ghost o = game.flip_results@;
    let start = ticket.last_cranked_flip as usize;
    let end = game.current_flip as usize;
    let mut score: u8 = ticket.score;
    let mut alive = true;
    let mut i: usize = start;
    while i < end && alive
        invariant
            start <= i <= end,
            end == game.current_flip,
            end <= 20,
            p == ticket.predictions@,
            o == game.flip_results@,
            alive ==> score == i && prefix_len(p, o, i as nat) == i,
            !alive ==> score < end && prefix_len(p, o, end as nat) == score,
        decreases end - i,
    {
        if ticket.predictions[i] == game.flip_results[i] {
            score = (i + 1) as u8;
        } else {
            alive = false;
            proof {
                assert(prefix_len(p, o, (i + 1) as nat) == i);
                lemma_prefix_len_stable(p, o, (i + 1) as nat, end as nat);
            }
        }
        i = i + 1;
    }
    let ghost n = prefix_len(p, o, end as nat);
    assert(score == n);
    let ghost before = game.tier_counts@;
    if !alive {
        game.tickets_alive = game.tickets_alive - 1;
        match best_milestone_tier(score) {
            Some(idx) => {
                let c = game.tier_counts[idx];
                game.tier_counts[idx] = c + 1;
                assert(best_tier(n as int) == Some(idx as int));
                assert(forall|j: int| 0 <= j < 6 && j != idx ==> game.tier_counts@[j] == before[j]);
            },
            None => {
                assert(best_tier(n as int) is None);
            },
        }
    }
    assert(forall|j: int| 0 <= j < MILESTONE_TIER_COUNT ==> game.tier_counts@[j]
        == before[j] + (if !alive && best_tier(n as int) == Some(j) { 1int } else { 0 }));
    ticket.alive = alive;
    ticket.score = score;
    ticket.last_cranked_flip = game.current_flip;
    ticket.died_at_flip = if alive { 0 } else { score + 1 };
    if game.game_over && alive && score == TOTAL_FLIPS {
        let c = game.tier_counts[JACKPOT_TIER];
        game.tier_counts[JACKPOT_TIER] = c + 1;
    }
    Ok(())
}

/// Why `settle` would reject `t` against `g` for `player`, if it would.
pub open spec fn settle_error(g: &Game, game_key: Seq<u8>, player: Seq<u8>, t: &Ticket) -> Option<FlipError> {
    if t.game@ != game_key || t.round != g.round {
        Some(FlipError::TicketGameMismatch)
    } else if t.player@ != player {
        Some(FlipError::PlayerMismatch)
    } else if !g.game_over {
        Some(FlipError::GameNotOver)
    } else if t.last_cranked_flip != TOTAL_FLIPS {
        Some(FlipError::NotFullyCranked)
    } else if t.settled {
        Some(FlipError::AlreadySettled)
    } else {
        None
    }
}

/// Settles a fully cranked ticket once the round is over, and returns the
/// amount owed to its player, which the caller transfers when it is not zero.
/// Anyone may call it. A full-survivor splits the jackpot with the other
/// full-survivors; an eliminated ticket splits its tier's share of the
/// milestone pool. A winner count of zero divides as one. Division remainders stay in the pools. A ticket still alive
/// is retired from the live count here.
pub fn settle(game: &mut Game, game_key: &Key, player: &Key, ticket: &mut Ticket) -> (r: Result<u64, FlipError>)
    requires
        old(ticket).round == old(game).round && old(ticket).alive && !old(ticket).settled ==> old(game).tickets_alive > 0,
    ensures
        r is Ok <==> settle_error(old(game), game_key@, player@, old(ticket)) is None,
        r matches Err(e) ==> {
            &&& settle_error(old(game), game_key@, player@, old(ticket)) == Some(e)
            &&& *final(game) == *old(game)
            &&& *final(ticket) == *old(ticket)
        },
        r matches Ok(payout) ==> {
            &&& payout == payout_of(
                old(ticket).score as int,
                old(game).jackpot_pool as int,
                old(game).milestone_pool as int,
                old(game).tier_counts@,
            )
            &&& *final(ticket) == (Ticket { settled: true, ..*old(ticket) })
            &&& same_but_counters(final(game), old(game))
            &&& final(game).tier_counts == old(game).tier_counts
            &&& final(game).tickets_alive == old(game).tickets_alive - (if old(ticket).alive { 1int } else { 0 })
        },
        old(game).wf() ==> final(game).wf(),
        old(ticket).synced(old(game)) ==> final(ticket).synced(final(game)),
{
    if !same_key(&ticket.game, game_key) || ticket.round != game.round {
        return Err(FlipError::TicketGameMismatch);
    }
    if !same_key(&ticket.player, player) {
        return Err(FlipError::PlayerMismatch);
    }
    if !game.game_over {
        return Err(FlipError::GameNotOver);
    }
    if ticket.last_cranked_flip != TOTAL_FLIPS {
        return Err(FlipError::NotFullyCranked);
    }
    if ticket.settled {
        return Err(FlipError::AlreadySettled);
    }
    let score = ticket.score;
    let mut payout: u64 = 0;
    if score >= TOTAL_FLIPS {
        let c = game.tier_counts[JACKPOT_TIER] as u64;
        let winners = if c > 0 { c } else { 1 };
        payout = game.jackpot_pool / winners;
    } else {
        match best_milestone_tier(score) {
            Some(idx) => {
                let pool = game.milestone_pool as u128;
                assert(pool as int * 2000 / 10000 <= pool as int) by (nonlinear_arith)
                    requires pool <= u64::MAX;
                let tier_pool = (pool * (TIER_SPLIT_BPS as u128) / (BPS_BASE as u128)) as u64;
                let c = game.tier_counts[idx] as u64;
                let winners = if c > 0 { c } else { 1 };
                payout = tier_pool / winners;
            },
            None => {},
        }
    }
    if ticket.alive {
        game.tickets_alive = game.tickets_alive - 1;
    }
    ticket.settled = true;
    Ok(payout)
}

/// Why `enter` would reject `predictions` against `g`, if it would.
pub open spec fn enter_error(g: &Game, predictions: Seq<u8>) -> Option<FlipError> {
    if !g.accepting_entries {
        Some(FlipError::EntriesClosed)
    } else if g.current_flip != 0 {
        Some(FlipError::GameAlreadyStarted)
    } else if exists|i: int| 0 <= i < 20 && !is_side(#[trigger] predictions[i]) {
        Some(FlipError::InvalidPrediction)
    } else {
        None
    }
}

/// Registers a ticket for `player` in the open round and books its entry fee
/// into the three pools; the caller collects the fee from the player. The
/// jackpot receives what is left of the fee after the operator and milestone
/// shares, so the three amounts add up to the fee exactly.
pub fn enter(game: &mut Game, game_key: &Key, player: &Key, predictions: [u8; 20], bump: u8) -> (r: Result<Ticket, FlipError>)
    requires
        old(game).operator_pool + operator_cut() <= u64::MAX,
        old(game).milestone_pool + milestone_cut() <= u64::MAX,
        old(game).jackpot_pool + jackpot_cut() <= u64::MAX,
        old(game).total_entries < u32::MAX,
        old(game).tickets_alive < u32::MAX,
    ensures
        r is Ok <==> enter_error(old(game), predictions@) is None,
        r matches Err(e) ==> enter_error(old(game), predictions@) == Some(e) && *final(game) == *old(game),
        r matches Ok(t) ==> {
            &&& t == (Ticket {
                game: *game_key,
                player: *player,
                round: old(game).round,
                predictions: predictions,
                alive: true,
                score: 0,
                last_cranked_flip: 0,
                died_at_flip: 0,
                settled: false,
                bump: bump,
            })
            &&& final(game).operator_pool == old(game).operator_pool + operator_cut()
            &&& final(game).milestone_pool == old(game).milestone_pool + milestone_cut()
            &&& final(game).jackpot_pool == old(game).jackpot_pool + jackpot_cut()
            &&& final(game).pools_total() == old(game).pools_total() + ENTRY_FEE
            &&& final(game).total_entries == old(game).total_entries + 1
            &&& final(game).tickets_alive == old(game).tickets_alive + 1
            &&& *final(game) == (Game {
                operator_pool: final(game).operator_pool,
                milestone_pool: final(game).milestone_pool,
                jackpot_pool: final(game).jackpot_pool,
                total_entries: final(game).total_entries,
                tickets_alive: final(game).tickets_alive,
                ..*old(game)
            })
            &&& t.synced(final(game))
        },
        old(game).wf() ==> final(game).wf(),
{
    if !game.accepting_entries {
        return Err(FlipError::EntriesClosed);
    }
    if game.current_flip != 0 {
        return Err(FlipError::GameAlreadyStarted);
    }
    let mut i: usize = 0;
    while i < 20
        invariant
            i <= 20,
            *game == *old(game),
            game.accepting_entries,
            game.current_flip == 0,
            forall|j: int| 0 <= j < i ==> is_side(#[trigger] predictions@[j]),
        decreases 20 - i,
    {
        let p = predictions[i];
        if !(p == HEADS || p == TAILS) {
            assert(!is_side(predictions@[i as int]));
            return Err(FlipError::InvalidPrediction);
        }
        i = i + 1;
    }
    let (operator_amount, milestone_amount, jackpot_amount) = split_entry_fee();
    game.operator_pool = game.operator_pool + operator_amount;
    game.milestone_pool = game.milestone_pool + milestone_amount;
    game.jackpot_pool = game.jackpot_pool + jackpot_amount;
    game.total_entries = game.total_entries + 1;
    game.tickets_alive = game.tickets_alive + 1;
    Ok(Ticket {
        game: *game_key,
        player: *player,
        round: game.round,
        predictions,
        alive: true,
        score: 0,
        last_cranked_flip: 0,
        died_at_flip: 0,
        settled: false,
        bump,
    })
}

/// `a` and `b` agree on everything but the reveal state and entry flag.
pub open spec fn same_but_reveals(a: &Game, b: &Game) -> bool {
    &&& a.authority == b.authority
    &&& a.usdc_mint == b.usdc_mint
    &&& a.vault == b.vault
    &&& a.bump == b.bump
    &&& a.vault_bump == b.vault_bump
    &&& a.milestone_pool == b.milestone_pool
    &&& a.jackpot_pool == b.jackpot_pool
    &&& a.operator_pool == b.operator_pool
    &&& a.total_entries == b.total_entries
    &&& a.tickets_alive == b.tickets_alive
    &&& a.tier_counts == b.tier_counts
    &&& a.round == b.round
}

/// Outcome of flip number `step` of the round at `game_key`, for the given
/// clock readings.
pub open spec fn outcome_at(step: int, slot: u64, unix_timestamp: i64, game_key: Seq<u8>) -> u8 {
    outcome_of_seed(flip_seed(step as u8, slot, unix_timestamp, game_key))
}

/// Why a reveal by `signer` would be rejected, if it would.
pub open spec fn flip_error(g: &Game, signer: Seq<u8>) -> Option<FlipError> {
    if signer != g.authority@ {
        Some(FlipError::Unauthorized)
    } else if g.game_over {
        Some(FlipError::GameOver)
    } else if g.current_flip >= TOTAL_FLIPS {
        Some(FlipError::AllFlipsDone)
    } else if g.total_entries == 0 {
        Some(FlipError::NoEntries)
    } else {
        None
    }
}

/// Reveals the next flip, derived from the clock readings and the round's
/// address. The first reveal closes entries; the last one ends the round.
pub fn flip(game: &mut Game, game_key: &Key, signer: &Key, slot: u64, unix_timestamp: i64) -> (r: Result<(), FlipError>)
    requires
        old(game).wf(),
    ensures
        r is Ok <==> flip_error(old(game), signer@) is None,
        r matches Err(e) ==> flip_error(old(game), signer@) == Some(e) && *final(game) == *old(game),
        r is Ok ==> {
            let c = old(game).current_flip as int;
            &&& final(game).flip_results@ == old(game).flip_results@.update(
                c,
                outcome_at(c, slot, unix_timestamp, game_key@),
            )
            &&& final(game).current_flip == c + 1
            &&& final(game).game_over == (c + 1 == TOTAL_FLIPS)
            &&& !final(game).accepting_entries
            &&& same_but_reveals(final(game), old(game))
        },
        final(game).wf(),
{
    if !same_key(signer, &game.authority) {
        return Err(FlipError::Unauthorized);
    }
    if game.game_over {
        return Err(FlipError::GameOver);
    }
    if game.current_flip >= TOTAL_FLIPS {
        return Err(FlipError::AllFlipsDone);
    }
    if game.total_entries == 0 {
        return Err(FlipError::NoEntries);
    }
    game.accepting_entries = false;
    let idx = game.current_flip as usize;
    let result = flip_outcome(game.current_flip, slot, unix_timestamp, game_key);
    game.flip_results[idx] = result;
    game.current_flip = game.current_flip + 1;
    if game.current_flip == TOTAL_FLIPS {
        game.game_over = true;
    }
    Ok(())
}

/// Reveals every remaining flip at once, all from the same clock readings,
/// and ends the round.
pub fn flip_all(game: &mut Game, game_key: &Key, signer: &Key, slot: u64, unix_timestamp: i64) -> (r: Result<(), FlipError>)
    requires
        old(game).wf(),
    ensures
        r is Ok <==> flip_error(old(game), signer@) is None,
        r matches Err(e) ==> flip_error(old(game), signer@) == Some(e) && *final(game) == *old(game),
        r is Ok ==> {
            let c = old(game).current_flip as int;
            &&& forall|i: int| 0 <= i < c ==> #[trigger] final(game).flip_results[i] == old(game).flip_results[i]
            &&& forall|i: int| c <= i < TOTAL_FLIPS ==> #[trigger] final(game).flip_results[i]
                == outcome_at(i, slot, unix_timestamp, game_key@)
            &&& final(game).current_flip == TOTAL_FLIPS
            &&& final(game).game_over
            &&& !final(game).accepting_entries
            &&& same_but_reveals(final(game), old(game))
        },
        final(game).wf(),
{
    if !same_key(signer, &game.authority) {
        return Err(FlipError::Unauthorized);
    }
    if game.game_over {
        return Err(FlipError::GameOver);
    }
    if game.current_flip >= TOTAL_FLIPS {
        return Err(FlipError::AllFlipsDone);
    }
    if game.total_entries == 0 {
        return Err(FlipError::NoEntries);
    }
    game.accepting_entries = false;
    let ghost start = old(game).current_flip as int;
    while game.current_flip < TOTAL_FLIPS
        invariant
            start == old(game).current_flip,
            start <= game.current_flip <= TOTAL_FLIPS,
            !game.accepting_entries,
            !game.game_over,
            same_but_reveals(game, old(game)),
            forall|i: int| 0 <= i < start ==> #[trigger] game.flip_results[i] == old(game).flip_results[i],
            forall|i: int| start <= i < game.current_flip ==> #[trigger] game.flip_results[i]
                == outcome_at(i, slot, unix_timestamp, game_key@),
            forall|i: int| 0 <= i < game.current_flip ==> #[trigger] is_side(game.flip_results[i]),
        decreases TOTAL_FLIPS - game.current_flip,
    {
        let idx = game.current_flip as usize;
        let result = flip_outcome(game.current_flip, slot, unix_timestamp, game_key);
        let ghost prev = game.flip_results;
        game.flip_results[idx] = result;
        assert(game.flip_results[idx as int] == outcome_at(idx as int, slot, unix_timestamp, game_key@));
        assert(forall|i: int| 0 <= i < 20 && i != idx ==> game.flip_results[i] == prev[i]);
        assert forall|i: int| start <= i < idx + 1 implies #[trigger] game.flip_results[i]
            == outcome_at(i, slot, unix_timestamp, game_key@) by {
            if i != idx {
                assert(prev[i] == outcome_at(i, slot, unix_timestamp, game_key@));
            }
        }
        game.current_flip = game.current_flip + 1;
    }
    game.game_over = true;
    Ok(())
}

/// Why `withdraw_fees` would reject, if it would.
pub open spec fn withdraw_error(g: &Game, signer: Seq<u8>, amount: u64) -> Option<FlipError> {
    if signer != g.authority@ {
        Some(FlipError::Unauthorized)
    } else if amount > g.operator_pool {
        Some(FlipError::InsufficientFees)
    } else {
        None
    }
}

/// Takes `amount` out of the operator's fee pool; the caller pays it to the
/// operator. The withdrawal can never exceed the recorded fees.
pub fn withdraw_fees(game: &mut Game, signer: &Key, amount: u64) -> (r: Result<(), FlipError>)
    ensures
        r is Ok <==> withdraw_error(old(game), signer@, amount) is None,
        r matches Err(e) ==> withdraw_error(old(game), signer@, amount) == Some(e) && *final(game) == *old(game),
        r is Ok ==> {
            &&& *final(game) == (Game { operator_pool: (old(game).operator_pool - amount) as u64, ..*old(game) })
            &&& final(game).pools_total() == old(game).pools_total() - amount
        },
        old(game).wf() ==> final(game).wf(),
{
    if !same_key(signer, &game.authority) {
        return Err(FlipError::Unauthorized);
    }
    if amount > game.operator_pool {
        return Err(FlipError::InsufficientFees);
    }
    game.operator_pool = game.operator_pool - amount;
    Ok(())
}

/// Why `new_round` would reject, if it would.
pub open spec fn new_round_error(g: &Game, signer: Seq<u8>) -> Option<FlipError> {
    if signer != g.authority@ {
        Some(FlipError::Unauthorized)
    } else if !g.game_over {
        Some(FlipError::GameNotOver)
    } else if g.tickets_alive != 0 {
        Some(FlipError::UnsettledTickets)
    } else {
        None
    }
}

/// Opens the next round once the current one is over and no live ticket is
/// left unsettled. The jackpot is emptied if someone won it and carried over
/// otherwise; the milestone pool is forfeited; operator fees stay.
pub fn new_round(game: &mut Game, signer: &Key) -> (r: Result<(), FlipError>)
    requires
        old(game).round < u8::MAX,
    ensures
        r is Ok <==> new_round_error(old(game), signer@) is None,
        r matches Err(e) ==> new_round_error(old(game), signer@) == Some(e) && *final(game) == *old(game),
        r is Ok ==> {
            &&& final(game).jackpot_pool == (if old(game).tier_counts[JACKPOT_TIER as int] > 0 { 0 } else { old(game).jackpot_pool })
            &&& final(game).milestone_pool == 0
            &&& final(game).operator_pool == old(game).operator_pool
            &&& final(game).current_flip == 0
            &&& final(game).flip_results@ == Seq::new(20, |i: int| 0u8)
            &&& final(game).total_entries == 0
            &&& final(game).tickets_alive == 0
            &&& final(game).tier_counts@ == Seq::new(6, |i: int| 0u32)
            &&& !final(game).game_over
            &&& final(game).accepting_entries
            &&& final(game).round == old(game).round + 1
            &&& final(game).authority == old(game).authority
            &&& final(game).usdc_mint == old(game).usdc_mint
            &&& final(game).vault == old(game).vault
            &&& final(game).bump == old(game).bump
            &&& final(game).vault_bump == old(game).vault_bump
            &&& final(game).wf()
        },
{
    if !same_key(signer, &game.authority) {
        return Err(FlipError::Unauthorized);
    }
    if !game.game_over {
        return Err(FlipError::GameNotOver);
    }
    if game.tickets_alive != 0 {
        return Err(FlipError::UnsettledTickets);
    }
    if game.tier_counts[JACKPOT_TIER] > 0 {
        game.jackpot_pool = 0;
    }
    game.milestone_pool = 0;
    game.current_flip = 0;
    game.flip_results = [0u8; 20];
    game.total_entries = 0;
    game.tickets_alive = 0;
    game.tier_counts = [0u32; 6];
    game.game_over = false;
    game.accepting_entries = true;
    game.round = game.round + 1;
    assert(game.flip_results@ =~= Seq::new(20, |i: int| 0u8));
    assert(game.tier_counts@ =~= Seq::new(6, |i: int| 0u32));
    Ok(())
}

/// Why an operator-only call that needs the round to be over would reject.
pub open spec fn closed_round_error(g: &Game, signer: Seq<u8>) -> Option<FlipError> {
    if signer != g.authority@ {
        Some(FlipError::Unauthorized)
    } else if !g.game_over {
        Some(FlipError::GameNotOver)
    } else {
        None
    }
}

/// Snapshots a finished round for the archive, before `new_round` erases it.
pub fn save_round(game: &Game, game_key: &Key, signer: &Key, timestamp: i64, bump: u8) -> (r: Result<RoundResult, FlipError>)
    ensures
        r is Ok <==> closed_round_error(game, signer@) is None,
        r matches Err(e) ==> closed_round_error(game, signer@) == Some(e),
        r matches Ok(rec) ==> rec == (RoundResult {
            game: *game_key,
            round: game.round,
            flip_results: game.flip_results,
            total_entries: game.total_entries,
            jackpot_pool: game.jackpot_pool,
            winners: game.tier_counts[JACKPOT_TIER as int],
            timestamp: timestamp,
            bump: bump,
        }),
{
    if !same_key(signer, &game.authority) {
        return Err(FlipError::Unauthorized);
    }
    if !game.game_over {
        return Err(FlipError::GameNotOver);
    }
    Ok(RoundResult {
        game: *game_key,
        round: game.round,
        flip_results: game.flip_results,
        total_entries: game.total_entries,
        jackpot_pool: game.jackpot_pool,
        winners: game.tier_counts[JACKPOT_TIER],
        timestamp,
        bump,
    })
}

/// Closes entries without revealing anything.
pub fn close_entries(game: &mut Game, signer: &Key) -> (r: Result<(), FlipError>)
    ensures
        r is Ok <==> signer@ == old(game).authority@,
        r matches Err(e) ==> e == FlipError::Unauthorized && *final(game) == *old(game),
        r is Ok ==> *final(game) == (Game { accepting_entries: false, ..*old(game) }),
        old(game).wf() ==> final(game).wf(),
{
    if !same_key(signer, &game.authority) {
        return Err(FlipError::Unauthorized);
    }
    game.accepting_entries = false;
    Ok(())
}

/// A fresh round aggregate for `authority`: nothing revealed, empty pools,
/// entries open, round zero.
pub fn initialize_game(authority: &Key, usdc_mint: &Key, vault: &Key, bump: u8, vault_bump: u8) -> (g: Game)
    ensures
        g.authority == *authority,
        g.usdc_mint == *usdc_mint,
        g.vault == *vault,
        g.bump == bump,
        g.vault_bump == vault_bump,
        g.current_flip == 0,
        g.flip_results@ == Seq::new(20, |i: int| 0u8),
        g.milestone_pool == 0,
        g.jackpot_pool == 0,
        g.operator_pool == 0,
        g.total_entries == 0,
        g.tickets_alive == 0,
        g.tier_counts@ == Seq::new(6, |i: int| 0u32),
        !g.game_over,
        g.accepting_entries,
        g.round == 0,
        g.wf(),
{
    let g = Game {
        authority: *authority,
        usdc_mint: *usdc_mint,
        vault: *vault,
        bump,
        vault_bump,
        current_flip: 0,
        flip_results: [0u8; 20],
        milestone_pool: 0,
        jackpot_pool: 0,
        operator_pool: 0,
        total_entries: 0,
        tickets_alive: 0,
        tier_counts: [0u32; 6],
        game_over: false,
        accepting_entries: true,
        round: 0,
    };
    assert(g.flip_results@ =~= Seq::new(20, |i: int| 0u8));
    assert(g.tier_counts@ =~= Seq::new(6, |i: int| 0u32));
    g
}

} // verus!
