use the_flip::engine::{
    close_entries, crank, enter, flip, flip_all, initialize_game, new_round, save_round, settle,
    withdraw_fees,
};
use the_flip::rules::{best_milestone_tier, flip_outcome, milestone_tier, split_entry_fee, HEADS, TAILS};
use the_flip::state::{game_state_valid, same_key, ticket_state_valid, FlipError, Game, Ticket};

const GAME_KEY: [u8; 32] = [7u8; 32];
const AUTHORITY: [u8; 32] = [1u8; 32];
const SLOT: u64 = 123_456_789;
const NOW: i64 = 1_700_000_000;

fn player(b: u8) -> [u8; 32] {
    [b; 32]
}

fn new_game() -> Game {
    initialize_game(&AUTHORITY, &[2u8; 32], &[3u8; 32], 254, 253)
}

fn flip_sequence() -> [u8; 20] {
    let mut out = [0u8; 20];
    for i in 0..20 {
        out[i] = flip_outcome(i as u8, SLOT, NOW, &GAME_KEY);
    }
    out
}

fn opposite(v: u8) -> u8 {
    if v == HEADS { TAILS } else { HEADS }
}

/// A game whose first `revealed` outcomes are set by hand, with one ticket.
fn game_with_outcomes(outcomes: [u8; 20], revealed: u8, predictions: [u8; 20]) -> (Game, Ticket) {
    let mut game = new_game();
    let ticket = enter(&mut game, &GAME_KEY, &player(9), predictions, 1).unwrap();
    game.accepting_entries = false;
    game.flip_results = [0u8; 20];
    for i in 0..revealed as usize {
        game.flip_results[i] = outcomes[i];
    }
    game.current_flip = revealed;
    game.game_over = revealed == 20;
    (game, ticket)
}

#[test]
fn fee_split_of_one_entry() {
    assert_eq!(split_entry_fee(), (10_000, 0, 990_000));
}

#[test]
fn enter_books_fee_and_creates_ticket() {
    let mut game = new_game();
    let t = enter(&mut game, &GAME_KEY, &player(4), [HEADS; 20], 8).unwrap();
    assert_eq!(game.operator_pool, 10_000);
    assert_eq!(game.milestone_pool, 0);
    assert_eq!(game.jackpot_pool, 990_000);
    assert_eq!(game.total_entries, 1);
    assert_eq!(game.tickets_alive, 1);
    assert!(t.alive && !t.settled);
    assert_eq!((t.score, t.last_cranked_flip, t.died_at_flip, t.bump), (0, 0, 0, 8));
    assert_eq!(t.player, player(4));
    assert_eq!(t.game, GAME_KEY);
}

#[test]
fn enter_rejects_invalid_prediction() {
    let mut game = new_game();
    let mut p = [HEADS; 20];
    p[19] = 3;
    assert_eq!(enter(&mut game, &GAME_KEY, &player(4), p, 0).unwrap_err(), FlipError::InvalidPrediction);
    p[19] = 0;
    assert_eq!(enter(&mut game, &GAME_KEY, &player(4), p, 0).unwrap_err(), FlipError::InvalidPrediction);
    assert_eq!(game.total_entries, 0);
    assert_eq!(game.jackpot_pool, 0);
}

#[test]
fn enter_rejects_when_closed_or_started() {
    let mut game = new_game();
    close_entries(&mut game, &AUTHORITY).unwrap();
    assert_eq!(enter(&mut game, &GAME_KEY, &player(4), [HEADS; 20], 0).unwrap_err(), FlipError::EntriesClosed);
    let mut game = new_game();
    game.current_flip = 1;
    assert_eq!(enter(&mut game, &GAME_KEY, &player(4), [HEADS; 20], 0).unwrap_err(), FlipError::GameAlreadyStarted);
}

#[test]
fn close_entries_needs_authority() {
    let mut game = new_game();
    assert_eq!(close_entries(&mut game, &player(5)).unwrap_err(), FlipError::Unauthorized);
    assert!(game.accepting_entries);
}

#[test]
fn flip_outcome_follows_seed_parity() {
    assert_eq!(flip_outcome(0, 0, 0, &[0u8; 32]), HEADS);
    assert_eq!(flip_outcome(1, 0, 0, &[0u8; 32]), TAILS);
    assert_eq!(flip_outcome(0, 1, 0, &[0u8; 32]), TAILS);
    assert_eq!(flip_outcome(0, 1 << 8, 0, &[0u8; 32]), TAILS);
    assert_eq!(flip_outcome(0, 3, 0, &[0u8; 32]), TAILS);
    assert_eq!(flip_outcome(0, 0x0101, 0, &[0u8; 32]), HEADS);
    assert_eq!(flip_outcome(0, 0, -1, &[0u8; 32]), HEADS);
    let mut key = [0u8; 32];
    key[31] = 5;
    assert_eq!(flip_outcome(2, 0, 0, &key), TAILS);
    assert_eq!(flip_outcome(3, 0, 0, &key), HEADS);
}

#[test]
fn flip_reveals_one_and_closes_entries() {
    let mut game = new_game();
    assert_eq!(flip(&mut game, &GAME_KEY, &AUTHORITY, SLOT, NOW).unwrap_err(), FlipError::NoEntries);
    enter(&mut game, &GAME_KEY, &player(4), [HEADS; 20], 0).unwrap();
    assert_eq!(flip(&mut game, &GAME_KEY, &player(4), SLOT, NOW).unwrap_err(), FlipError::Unauthorized);
    flip(&mut game, &GAME_KEY, &AUTHORITY, SLOT, NOW).unwrap();
    assert_eq!(game.current_flip, 1);
    assert!(!game.accepting_entries);
    assert_eq!(game.flip_results[0], flip_outcome(0, SLOT, NOW, &GAME_KEY));
    assert_eq!(game.flip_results[1], 0);
    assert!(!game.game_over);
}

#[test]
fn flip_all_finishes_round() {
    let mut game = new_game();
    enter(&mut game, &GAME_KEY, &player(4), [HEADS; 20], 0).unwrap();
    flip(&mut game, &GAME_KEY, &AUTHORITY, 1, 2).unwrap();
    let first = game.flip_results[0];
    flip_all(&mut game, &GAME_KEY, &AUTHORITY, SLOT, NOW).unwrap();
    assert_eq!(game.current_flip, 20);
    assert!(game.game_over);
    assert_eq!(game.flip_results[0], first);
    let expected = flip_sequence();
    for i in 1..20 {
        assert_eq!(game.flip_results[i], expected[i]);
    }
    assert_eq!(flip(&mut game, &GAME_KEY, &AUTHORITY, SLOT, NOW).unwrap_err(), FlipError::GameOver);
    assert_eq!(flip_all(&mut game, &GAME_KEY, &AUTHORITY, SLOT, NOW).unwrap_err(), FlipError::GameOver);
}

#[test]
fn elimination_at_third_flip() {
    let mut outcomes = [HEADS; 20];
    outcomes[1] = TAILS;
    outcomes[2] = TAILS;
    let mut predictions = [HEADS; 20];
    predictions[1] = TAILS;
    let (mut game, mut ticket) = game_with_outcomes(outcomes, 3, predictions);
    crank(&mut game, &GAME_KEY, &mut ticket).unwrap();
    assert_eq!(ticket.score, 2);
    assert!(!ticket.alive);
    assert_eq!(ticket.died_at_flip, 3);
    assert_eq!(ticket.last_cranked_flip, 3);
    assert_eq!(game.tickets_alive, 0);
    assert_eq!(game.tier_counts, [0u32; 6]);
}

#[test]
fn incremental_crank_matches_full_replay() {
    let mut outcomes = [HEADS; 20];
    outcomes[5] = TAILS;
    let predictions = [HEADS; 20];
    let (mut game, mut ticket) = game_with_outcomes(outcomes, 3, predictions);
    crank(&mut game, &GAME_KEY, &mut ticket).unwrap();
    assert!(ticket.alive);
    assert_eq!((ticket.score, ticket.last_cranked_flip), (3, 3));
    game.flip_results[3] = HEADS;
    game.flip_results[4] = HEADS;
    game.flip_results[5] = TAILS;
    game.flip_results[6] = HEADS;
    game.current_flip = 7;
    crank(&mut game, &GAME_KEY, &mut ticket).unwrap();
    assert!(!ticket.alive);
    assert_eq!((ticket.score, ticket.died_at_flip, ticket.last_cranked_flip), (5, 6, 7));
}

#[test]
fn tier_of_score_seventeen() {
    let outcomes = [HEADS; 20];
    let mut predictions = [HEADS; 20];
    predictions[17] = TAILS;
    let (mut game, mut ticket) = game_with_outcomes(outcomes, 20, predictions);
    crank(&mut game, &GAME_KEY, &mut ticket).unwrap();
    assert_eq!(ticket.score, 17);
    assert_eq!(game.tier_counts, [0, 0, 1, 0, 0, 0]);
}

#[test]
fn milestone_tier_lookup() {
    assert_eq!(milestone_tier(0), 15);
    assert_eq!(milestone_tier(4), 19);
    assert_eq!(best_milestone_tier(14), None);
    assert_eq!(best_milestone_tier(15), Some(0));
    assert_eq!(best_milestone_tier(17), Some(2));
    assert_eq!(best_milestone_tier(19), Some(4));
    assert_eq!(best_milestone_tier(20), Some(4));
}

#[test]
fn crank_twice_is_rejected() {
    let outcomes = [HEADS; 20];
    let (mut game, mut ticket) = game_with_outcomes(outcomes, 4, [HEADS; 20]);
    crank(&mut game, &GAME_KEY, &mut ticket).unwrap();
    let (g1, t1) = (game, ticket);
    assert_eq!(crank(&mut game, &GAME_KEY, &mut ticket).unwrap_err(), FlipError::AlreadyCranked);
    assert_eq!((ticket.score, ticket.alive, ticket.last_cranked_flip), (t1.score, t1.alive, t1.last_cranked_flip));
    assert_eq!(game.tier_counts, g1.tier_counts);
    assert_eq!(game.tickets_alive, g1.tickets_alive);
}

#[test]
fn crank_rejections() {
    let outcomes = [HEADS; 20];
    let (mut game, mut ticket) = game_with_outcomes(outcomes, 0, [TAILS; 20]);
    assert_eq!(crank(&mut game, &GAME_KEY, &mut ticket).unwrap_err(), FlipError::NoFlipsYet);
    game.flip_results[0] = HEADS;
    game.current_flip = 1;
    assert_eq!(crank(&mut game, &[8u8; 32], &mut ticket).unwrap_err(), FlipError::TicketGameMismatch);
    crank(&mut game, &GAME_KEY, &mut ticket).unwrap();
    assert!(!ticket.alive);
    assert_eq!(crank(&mut game, &GAME_KEY, &mut ticket).unwrap_err(), FlipError::TicketDead);
}

#[test]
fn settle_rejections_and_exactly_once() {
    let outcomes = [HEADS; 20];
    let (mut game, mut ticket) = game_with_outcomes(outcomes, 19, [HEADS; 20]);
    crank(&mut game, &GAME_KEY, &mut ticket).unwrap();
    assert_eq!(settle(&mut game, &GAME_KEY, &player(9), &mut ticket).unwrap_err(), FlipError::GameNotOver);
    game.flip_results[19] = HEADS;
    game.current_flip = 20;
    game.game_over = true;
    assert_eq!(settle(&mut game, &GAME_KEY, &player(9), &mut ticket).unwrap_err(), FlipError::NotFullyCranked);
    crank(&mut game, &GAME_KEY, &mut ticket).unwrap();
    assert_eq!(game.tier_counts[5], 1);
    assert_eq!(settle(&mut game, &GAME_KEY, &player(8), &mut ticket).unwrap_err(), FlipError::PlayerMismatch);
    assert_eq!(settle(&mut game, &[0u8; 32], &player(9), &mut ticket).unwrap_err(), FlipError::TicketGameMismatch);
    assert_eq!(settle(&mut game, &GAME_KEY, &player(9), &mut ticket).unwrap(), 990_000);
    assert!(ticket.settled);
    assert_eq!(game.tickets_alive, 0);
    assert_eq!(settle(&mut game, &GAME_KEY, &player(9), &mut ticket).unwrap_err(), FlipError::AlreadySettled);
    assert_eq!(game.tickets_alive, 0);
}

#[test]
fn milestone_payout_splits_tier_share() {
    let outcomes = [HEADS; 20];
    let mut predictions = [HEADS; 20];
    predictions[16] = TAILS;
    let (mut game, mut ticket) = game_with_outcomes(outcomes, 20, predictions);
    game.milestone_pool = 1_000_001;
    crank(&mut game, &GAME_KEY, &mut ticket).unwrap();
    assert_eq!(game.tier_counts[1], 1);
    game.tier_counts[1] = 3;
    assert_eq!(settle(&mut game, &GAME_KEY, &player(9), &mut ticket).unwrap(), 66_666);
    assert_eq!(game.milestone_pool, 1_000_001);
}

#[test]
fn three_entries_one_full_survivor() {
    let mut game = new_game();
    let outcomes = flip_sequence();
    let mut losing = outcomes;
    losing[0] = opposite(outcomes[0]);
    let mut losing2 = outcomes;
    losing2[9] = opposite(outcomes[9]);
    let mut winner = enter(&mut game, &GAME_KEY, &player(10), outcomes, 0).unwrap();
    let mut l1 = enter(&mut game, &GAME_KEY, &player(11), losing, 0).unwrap();
    let mut l2 = enter(&mut game, &GAME_KEY, &player(12), losing2, 0).unwrap();
    assert_eq!(game.total_entries, 3);
    assert_eq!(game.jackpot_pool, 2_970_000);
    assert_eq!(game.operator_pool, 30_000);
    flip_all(&mut game, &GAME_KEY, &AUTHORITY, SLOT, NOW).unwrap();
    for t in [&mut winner, &mut l1, &mut l2] {
        crank(&mut game, &GAME_KEY, t).unwrap();
    }
    assert_eq!((l1.score, l1.died_at_flip), (0, 1));
    assert_eq!((l2.score, l2.died_at_flip), (9, 10));
    assert_eq!(winner.score, 20);
    assert_eq!(game.tier_counts, [0, 0, 0, 0, 0, 1]);
    assert_eq!(new_round(&mut game, &AUTHORITY).unwrap_err(), FlipError::UnsettledTickets);
    assert_eq!(settle(&mut game, &GAME_KEY, &player(10), &mut winner).unwrap(), 2_970_000);
    assert_eq!(settle(&mut game, &GAME_KEY, &player(11), &mut l1).unwrap(), 0);
    assert_eq!(settle(&mut game, &GAME_KEY, &player(12), &mut l2).unwrap(), 0);
    assert_eq!(game.tickets_alive, 0);
    let record = save_round(&game, &GAME_KEY, &AUTHORITY, NOW, 6).unwrap();
    assert_eq!((record.round, record.total_entries, record.jackpot_pool, record.winners), (0, 3, 2_970_000, 1));
    assert_eq!(record.flip_results, outcomes);
    new_round(&mut game, &AUTHORITY).unwrap();
    assert_eq!(game.jackpot_pool, 0);
    assert_eq!(game.operator_pool, 30_000);
    assert_eq!(game.round, 1);
    assert!(game.accepting_entries && !game.game_over);
    assert_eq!(game.current_flip, 0);
    assert_eq!(game.total_entries, 0);
    assert_eq!(game.tier_counts, [0u32; 6]);
    assert_eq!(game.flip_results, [0u8; 20]);
}

#[test]
fn jackpot_carries_over_without_winner() {
    let mut game = new_game();
    let outcomes = flip_sequence();
    let mut losing = outcomes;
    losing[3] = opposite(outcomes[3]);
    let mut t = enter(&mut game, &GAME_KEY, &player(10), losing, 0).unwrap();
    flip_all(&mut game, &GAME_KEY, &AUTHORITY, SLOT, NOW).unwrap();
    crank(&mut game, &GAME_KEY, &mut t).unwrap();
    assert_eq!(settle(&mut game, &GAME_KEY, &player(10), &mut t).unwrap(), 0);
    new_round(&mut game, &AUTHORITY).unwrap();
    assert_eq!(game.jackpot_pool, 990_000);
    enter(&mut game, &GAME_KEY, &player(10), outcomes, 0).unwrap();
    assert_eq!(game.jackpot_pool, 1_980_000);
}

#[test]
fn new_round_guards() {
    let mut game = new_game();
    assert_eq!(new_round(&mut game, &AUTHORITY).unwrap_err(), FlipError::GameNotOver);
    assert_eq!(save_round(&game, &GAME_KEY, &AUTHORITY, NOW, 0).unwrap_err(), FlipError::GameNotOver);
    game.current_flip = 20;
    game.game_over = true;
    game.accepting_entries = false;
    game.tickets_alive = 1;
    assert_eq!(new_round(&mut game, &player(2)).unwrap_err(), FlipError::Unauthorized);
    assert_eq!(save_round(&game, &GAME_KEY, &player(2), NOW, 0).unwrap_err(), FlipError::Unauthorized);
    assert_eq!(new_round(&mut game, &AUTHORITY).unwrap_err(), FlipError::UnsettledTickets);
    assert_eq!(game.round, 0);
}

#[test]
fn stale_round_ticket_is_rejected() {
    let mut game = new_game();
    let outcomes = flip_sequence();
    let mut t = enter(&mut game, &GAME_KEY, &player(10), outcomes, 0).unwrap();
    t.round = 5;
    flip(&mut game, &GAME_KEY, &AUTHORITY, SLOT, NOW).unwrap();
    assert_eq!(crank(&mut game, &GAME_KEY, &mut t).unwrap_err(), FlipError::TicketGameMismatch);
}

#[test]
fn withdraw_fees_bounds() {
    let mut game = new_game();
    enter(&mut game, &GAME_KEY, &player(4), [HEADS; 20], 0).unwrap();
    assert_eq!(withdraw_fees(&mut game, &AUTHORITY, 10_001).unwrap_err(), FlipError::InsufficientFees);
    assert_eq!(withdraw_fees(&mut game, &player(4), 1).unwrap_err(), FlipError::Unauthorized);
    withdraw_fees(&mut game, &AUTHORITY, 4_000).unwrap();
    assert_eq!(game.operator_pool, 6_000);
    assert_eq!(game.jackpot_pool, 990_000);
}

#[test]
fn keys_compare_bytewise() {
    let mut k = [1u8; 32];
    assert!(same_key(&k, &[1u8; 32]));
    k[31] = 0;
    assert!(!same_key(&k, &[1u8; 32]));
}

#[test]
fn error_messages() {
    assert_eq!(FlipError::UnsettledTickets.message(), "All tickets must be settled before starting a new round");
    assert_eq!(FlipError::Unauthorized.message(), "Unauthorized");
}

#[test]
fn pools_account_for_every_fee() {
    let mut game = new_game();
    for b in 0..4u8 {
        enter(&mut game, &GAME_KEY, &player(20 + b), [TAILS; 20], 0).unwrap();
    }
    let total = game.jackpot_pool + game.milestone_pool + game.operator_pool;
    assert_eq!(total, 4_000_000);
    withdraw_fees(&mut game, &AUTHORITY, 25_000).unwrap();
    let total = game.jackpot_pool + game.milestone_pool + game.operator_pool;
    assert_eq!(total, 3_975_000);
    flip_all(&mut game, &GAME_KEY, &AUTHORITY, SLOT, NOW).unwrap();
    let total = game.jackpot_pool + game.milestone_pool + game.operator_pool;
    assert_eq!(total, 3_975_000);
}

#[test]
fn state_checks() {
    let mut game = new_game();
    let mut t = enter(&mut game, &GAME_KEY, &player(4), [HEADS; 20], 0).unwrap();
    assert!(game_state_valid(&game));
    assert!(ticket_state_valid(&t, &game));
    flip_all(&mut game, &GAME_KEY, &AUTHORITY, SLOT, NOW).unwrap();
    assert!(game_state_valid(&game));
    assert!(ticket_state_valid(&t, &game));
    crank(&mut game, &GAME_KEY, &mut t).unwrap();
    assert!(ticket_state_valid(&t, &game));
    let mut forged = t;
    forged.score = forged.score.wrapping_add(1);
    assert!(!ticket_state_valid(&forged, &game));
    let mut broken = game;
    broken.flip_results[3] = 0;
    assert!(!game_state_valid(&broken));
    let mut reopened = game;
    reopened.accepting_entries = true;
    assert!(!game_state_valid(&reopened));
}

#[test]
fn full_survivor_with_zero_count_divides_by_one() {
    let outcomes = [HEADS; 20];
    let (mut game, mut ticket) = game_with_outcomes(outcomes, 20, [HEADS; 20]);
    ticket.score = 20;
    ticket.last_cranked_flip = 20;
    assert_eq!(game.tier_counts[5], 0);
    assert_eq!(settle(&mut game, &GAME_KEY, &player(9), &mut ticket).unwrap(), 990_000);
    assert_eq!(game.jackpot_pool, 990_000);
    assert_eq!(game.tickets_alive, 0);
}

#[test]
fn milestone_ticket_with_zero_count_divides_by_one() {
    let outcomes = [HEADS; 20];
    let mut predictions = [HEADS; 20];
    predictions[15] = TAILS;
    let (mut game, mut ticket) = game_with_outcomes(outcomes, 20, predictions);
    game.milestone_pool = 10_000;
    ticket.alive = false;
    ticket.score = 15;
    ticket.died_at_flip = 16;
    ticket.last_cranked_flip = 20;
    game.tickets_alive = 0;
    assert_eq!(game.tier_counts[0], 0);
    assert_eq!(settle(&mut game, &GAME_KEY, &player(9), &mut ticket).unwrap(), 2_000);
}

#[test]
fn message_of_each_rejection_kind() {
    assert_eq!(FlipError::EntriesClosed.message(), "Entries are closed");
    assert_eq!(FlipError::InvalidPrediction.message(), "Invalid prediction: must be 1 (H) or 2 (T)");
    assert_eq!(FlipError::InsufficientFees.message(), "Insufficient operator fees");
}
