//! The round aggregate, the per-participant ticket, the archive record and the
//! typed rejections of the engine.

use vstd::prelude::*;
use crate::rules::{is_side, HEADS, TAILS, TOTAL_FLIPS};

verus! {

/// An account address or signer identity, as its 32 bytes.
pub type Key = [u8; 32];

/// Authoritative state of the current round.
#[derive(Clone, Copy, Debug)]
pub struct Game {
    pub authority: Key,
    pub usdc_mint: Key,
    pub vault: Key,
    pub bump: u8,
    pub vault_bump: u8,
    /// Number of flips revealed this round.
    pub current_flip: u8,
    /// Revealed outcomes; only the first `current_flip` are meaningful.
    pub flip_results: [u8; 20],
    pub milestone_pool: u64,
    pub jackpot_pool: u64,
    pub operator_pool: u64,
    pub total_entries: u32,
    pub tickets_alive: u32,
    /// One counter per milestone tier, then the full-survival counter.
    pub tier_counts: [u32; 6],
    pub game_over: bool,
    pub accepting_entries: bool,
    pub round: u8,
}

/// One participant's entry in one round.
#[derive(Clone, Copy, Debug)]
pub struct Ticket {
    /// Address of the round aggregate the ticket belongs to.
    pub game: Key,
    pub player: Key,
    pub round: u8,
    pub predictions: [u8; 20],
    pub alive: bool,
    /// Length of the prefix of predictions matched so far.
    pub score: u8,
    /// Number of revealed flips already applied to the ticket.
    pub last_cranked_flip: u8,
    /// 1-based flip of the first mismatch, or 0.
    pub died_at_flip: u8,
    pub settled: bool,
    pub bump: u8,
}

/// Immutable snapshot of a closed round.
#[derive(Clone, Copy, Debug)]
pub struct RoundResult {
    pub game: Key,
    pub round: u8,
    pub flip_results: [u8; 20],
    pub total_entries: u32,
    pub jackpot_pool: u64,
    pub winners: u32,
    pub timestamp: i64,
    pub bump: u8,
}

/// Why an operation was rejected.
#[derive(Clone, Copy, Debug, PartialEq, Eq, Structural)]
pub enum FlipError {
    EntriesClosed,
    GameAlreadyStarted,
    InvalidPrediction,
    AllFlipsDone,
    GameOver,
    NoEntries,
    Unauthorized,
    NoFlipsYet,
    TicketDead,
    AlreadyCranked,
    NotFullyCranked,
    AlreadySettled,
    GameNotOver,
    TicketGameMismatch,
    PlayerMismatch,
    InsufficientFees,
    UnsettledTickets,
}

/// Number of leading positions among the first `n` where `p` and `o` agree.
pub open spec fn prefix_len(p: Seq<u8>, o: Seq<u8>, n: nat) -> nat
    decreases n,
{
    if n == 0 {
        0
    } else if prefix_len(p, o, (n - 1) as nat) < n - 1 {
        prefix_len(p, o, (n - 1) as nat)
    } else if p[n - 1] == o[n - 1] {
        n
    } else {
        (n - 1) as nat
    }
}

/// Once a mismatch has been seen, later steps do not change the prefix length.
pub proof fn lemma_prefix_len_stable(p: Seq<u8>, o: Seq<u8>, m: nat, n: nat)
    requires
        m <= n,
        prefix_len(p, o, m) < m,
    ensures
        prefix_len(p, o, n) == prefix_len(p, o, m),
    decreases n - m,
{
    if n > m {
        lemma_prefix_len_stable(p, o, m, (n - 1) as nat);
    }
}

/// The prefix length never exceeds the number of steps looked at.
pub proof fn lemma_prefix_len_bound(p: Seq<u8>, o: Seq<u8>, n: nat)
    ensures
        prefix_len(p, o, n) <= n,
    decreases n,
{
    if n > 0 {
        lemma_prefix_len_bound(p, o, (n - 1) as nat);
    }
}

/// Human-readable description of each rejection.
pub open spec fn message_text(e: FlipError) -> Seq<char> {
    match e {
        FlipError::EntriesClosed => "Entries are closed"@,
        FlipError::GameAlreadyStarted => "Game has already started"@,
        FlipError::InvalidPrediction => "Invalid prediction: must be 1 (H) or 2 (T)"@,
        FlipError::AllFlipsDone => "All flips have been executed"@,
        FlipError::GameOver => "Game is over"@,
        FlipError::NoEntries => "No entries in the game"@,
        FlipError::Unauthorized => "Unauthorized"@,
        FlipError::NoFlipsYet => "No flips yet"@,
        FlipError::TicketDead => "Ticket is dead"@,
        FlipError::AlreadyCranked => "Already cranked"@,
        FlipError::NotFullyCranked => "Not fully cranked"@,
        FlipError::AlreadySettled => "Already settled"@,
        FlipError::GameNotOver => "Game not over"@,
        FlipError::TicketGameMismatch => "Ticket/game mismatch"@,
        FlipError::PlayerMismatch => "Player mismatch"@,
        FlipError::InsufficientFees => "Insufficient operator fees"@,
        FlipError::UnsettledTickets => "All tickets must be settled before starting a new round"@,
    }
}

impl FlipError {
    /// Human-readable description of the rejection.
    pub fn message(&self) -> (r: String)
        ensures
            r@ == message_text(*self),
    {
        match self {
            FlipError::EntriesClosed => "Entries are closed".to_owned(),
            FlipError::GameAlreadyStarted => "Game has already started".to_owned(),
            FlipError::InvalidPrediction => "Invalid prediction: must be 1 (H) or 2 (T)".to_owned(),
            FlipError::AllFlipsDone => "All flips have been executed".to_owned(),
            FlipError::GameOver => "Game is over".to_owned(),
            FlipError::NoEntries => "No entries in the game".to_owned(),
            FlipError::Unauthorized => "Unauthorized".to_owned(),
            FlipError::NoFlipsYet => "No flips yet".to_owned(),
            FlipError::TicketDead => "Ticket is dead".to_owned(),
            FlipError::AlreadyCranked => "Already cranked".to_owned(),
            FlipError::NotFullyCranked => "Not fully cranked".to_owned(),
            FlipError::AlreadySettled => "Already settled".to_owned(),
            FlipError::GameNotOver => "Game not over".to_owned(),
            FlipError::TicketGameMismatch => "Ticket/game mismatch".to_owned(),
            FlipError::PlayerMismatch => "Player mismatch".to_owned(),
            FlipError::InsufficientFees => "Insufficient operator fees".to_owned(),
            FlipError::UnsettledTickets => "All tickets must be settled before starting a new round".to_owned(),
        }
    }
}

impl Game {
    /// The outcomes revealed so far.
    pub open spec fn revealed(&self) -> Seq<u8> {
        self.flip_results@.take(self.current_flip as int)
    }

    /// Sum of the three pool balances.
    pub open spec fn pools_total(&self) -> int {
        self.jackpot_pool + self.milestone_pool + self.operator_pool
    }

    /// Round-level invariants: reveal count in range, entries closed once
    /// revealing began, round over exactly when every flip is revealed, and
    /// every revealed outcome heads or tails.
    pub open spec fn wf(&self) -> bool {
        &&& self.current_flip <= TOTAL_FLIPS
        &&& self.game_over == (self.current_flip == TOTAL_FLIPS)
        &&& self.current_flip > 0 ==> !self.accepting_entries
        &&& forall|i: int| 0 <= i < self.current_flip ==> #[trigger] is_side(self.flip_results[i])
    }
}

impl Ticket {
    /// Every prediction is heads or tails.
    pub open spec fn predictions_valid(&self) -> bool {
        forall|i: int| 0 <= i < 20 ==> #[trigger] is_side(self.predictions[i])
    }

    /// The ticket's score, liveness and elimination step agree with the first
    /// `last_cranked_flip` outcomes revealed in `g`, and a settled ticket has
    /// been cranked through the whole round.
    pub open spec fn synced(&self, g: &Game) -> bool {
        let n = prefix_len(self.predictions@, g.flip_results@, self.last_cranked_flip as nat);
        &&& self.predictions_valid()
        &&& self.last_cranked_flip <= g.current_flip
        &&& self.score == n
        &&& self.alive == (n == self.last_cranked_flip)
        &&& self.died_at_flip == (if self.alive { 0 } else { n + 1 })
        &&& self.settled ==> self.last_cranked_flip == TOTAL_FLIPS
    }
}

/// Compares two keys byte by byte.
pub fn same_key(a: &Key, b: &Key) -> (r: bool)
    ensures
        r == (a@ == b@),
{
    let mut i: usize = 0;
    while i < 32
        invariant
            i <= 32,
            forall|j: int| 0 <= j < i ==> a@[j] == b@[j],
        decreases 32 - i,
    {
        if a[i] != b[i] {
            return false;
        }
        i = i + 1;
    }
    assert(a@ =~= b@);
    true
}

/// Checks the round-level invariants of `g`.
pub fn game_state_valid(g: &Game) -> (r: bool)
    ensures
        r == g.wf(),
{
    if g.current_flip > TOTAL_FLIPS || g.game_over != (g.current_flip == TOTAL_FLIPS) {
        return false;
    }
    if g.current_flip > 0 && g.accepting_entries {
        return false;
    }
    let n = g.current_flip as usize;
    let mut i: usize = 0;
    while i < n
        invariant
            i <= n,
            n == g.current_flip,
            n <= 20,
            forall|j: int| 0 <= j < i ==> #[trigger] is_side(g.flip_results[j]),
        decreases n - i,
    {
        let v = g.flip_results[i];
        if !(v == HEADS || v == TAILS) {
            assert(!is_side(g.flip_results[i as int]));
            return false;
        }
        i = i + 1;
    }
    true
}

/// Checks that `t` agrees with the outcomes revealed in `g`.
pub fn ticket_state_valid(t: &Ticket, g: &Game) -> (r: bool)
    requires
        g.wf(),
    ensures
        r == t.synced(g),
{
    let mut i: usize = 0;
    while i < 20
        invariant
            i <= 20,
            forall|j: int| 0 <= j < i ==> #[trigger] is_side(t.predictions[j]),
        decreases 20 - i,
    {
        let v = t.predictions[i];
        if !(v == HEADS || v == TAILS) {
            assert(!is_side(t.predictions[i as int]));
            return false;
        }
        i = i + 1;
    }
    if t.last_cranked_flip > g.current_flip {
        return false;
    }
    let ghost p = t.predictions@;
    let ghost o = g.flip_results@;
    let end = t.last_cranked_flip as usize;
    let mut matched: u8 = 0;
    let mut k: usize = 0;
    while k < end
        invariant
            k <= end,
            end <= 20,
            end == t.last_cranked_flip,
            p == t.predictions@,
            o == g.flip_results@,
            matched <= k,
            matched == prefix_len(p, o, k as nat),
        decreases end - k,
    {
        if matched as usize == k && t.predictions[k] == g.flip_results[k] {
            matched = matched + 1;
        }
        k = k + 1;
    }
    let alive = matched as usize == end;
    let died: u8 = if alive { 0 } else { matched + 1 };
    t.score == matched && t.alive == alive && t.died_at_flip == died && (!t.settled || t.last_cranked_flip == TOTAL_FLIPS)
}

} // verus!
