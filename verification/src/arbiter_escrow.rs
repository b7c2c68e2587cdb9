//! Multi-sig arbiter escrow for high-stakes chess match disputes.
//!
//! Two players stake an equal amount of a token into escrow. If the result of
//! the match is agreed, the admin can settle it immediately and the winner
//! takes the whole pot. If a player raises a cheating allegation,
//! [`ArbiterEscrowContract::dispute_match`] freezes the payout and opens a
//! 48-hour arbitration window during which the three appointed Fair Play
//! Arbiters vote. A 2-of-3 majority releases the pot to the rightful winner
//! or refunds both players.
//!
//! If the arbiters fail to reach a 2-of-3 majority, the funds stay frozen and
//! a time-locked fallback becomes available 7 days after the dispute was
//! raised, returning each player's original stake.

use vstd::prelude::*;

use crate::host::{Address, Effect, Table};

verus! {

// =============================================================================
// CONSTANTS
// =============================================================================

/// Arbitration window opened by [`ArbiterEscrowContract::dispute_match`], in
/// seconds: 48 hours.
///
/// Once a match is disputed, the payout is frozen and the appointed Fair Play
/// Arbiters have this long to record their votes.
pub const ARBITRATION_WINDOW_SECS: u64 = 172_800;

/// Time-locked fallback deadline, measured from the moment the match was
/// disputed, in seconds: 7 days. If the arbiters have not produced a 2-of-3
/// majority by then the escrow can be unwound and both players receive their
/// original stake back.
pub const FALLBACK_TIMEOUT_SECS: u64 = 604_800;

/// Votes required from the arbiter panel to settle a disputed match (2-of-3).
pub const QUORUM: u32 = 2;

/// Number of Fair Play Arbiters appointed per match.
pub const ARBITER_COUNT: u32 = 3;

// =============================================================================
// ERRORS
// =============================================================================

/// Structured error codes for [`ArbiterEscrowContract`].
#[derive(Copy, Clone, Debug, Eq, PartialEq, PartialOrd, Ord, Structural)]
pub enum EscrowError {
    /// Contract has already been initialized
    AlreadyInitialized,
    /// Contract has not been initialized yet
    NotInitialized,
    /// Caller is not the contract admin
    NotAdmin,
    /// An escrow for this match id already exists
    EscrowAlreadyExists,
    /// No escrow exists for this match id
    EscrowNotFound,
    /// Stake amount must be a positive integer
    InvalidAmount,
    /// Winner / player address is not valid for this escrow
    InvalidPlayer,
    /// The three arbiters must be distinct, non-player addresses
    InvalidArbiterPanel,
    /// Operation is not valid for the escrow's current status
    InvalidStatus,
    /// Caller is neither a player nor the admin
    NotParticipant,
    /// This player has already funded their side of the escrow
    AlreadyFunded,
    /// Caller is not one of the arbiters appointed for this match
    UnauthorizedArbiter,
    /// This arbiter has already cast a vote for this match
    AlreadyVoted,
    /// The 48-hour arbitration window has closed; no more votes are accepted
    ArbitrationWindowClosed,
    /// The 2-of-3 arbiter threshold has not been reached yet
    ThresholdNotMet,
    /// The 7-day fallback timelock has not elapsed yet
    FallbackNotElapsed,
    /// A 2-of-3 majority exists, so the fallback cannot be used: resolve instead
    ResolutionAvailable,
    /// Caller is not allowed to perform this operation
    Unauthorized,
}

impl EscrowError {
    /// The number of the error, from 1 on in the order above.
    pub open spec fn number(self) -> u32 {
        match self {
            EscrowError::AlreadyInitialized => 1,
            EscrowError::NotInitialized => 2,
            EscrowError::NotAdmin => 3,
            EscrowError::EscrowAlreadyExists => 4,
            EscrowError::EscrowNotFound => 5,
            EscrowError::InvalidAmount => 6,
            EscrowError::InvalidPlayer => 7,
            EscrowError::InvalidArbiterPanel => 8,
            EscrowError::InvalidStatus => 9,
            EscrowError::NotParticipant => 10,
            EscrowError::AlreadyFunded => 11,
            EscrowError::UnauthorizedArbiter => 12,
            EscrowError::AlreadyVoted => 13,
            EscrowError::ArbitrationWindowClosed => 14,
            EscrowError::ThresholdNotMet => 15,
            EscrowError::FallbackNotElapsed => 16,
            EscrowError::ResolutionAvailable => 17,
            EscrowError::Unauthorized => 18,
        }
    }

    /// The number that stands for the error on the ledger.
    pub fn code(self) -> (r: u32)
        ensures
            r == self.number(),
    {
        match self {
            EscrowError::AlreadyInitialized => 1,
            EscrowError::NotInitialized => 2,
            EscrowError::NotAdmin => 3,
            EscrowError::EscrowAlreadyExists => 4,
            EscrowError::EscrowNotFound => 5,
            EscrowError::InvalidAmount => 6,
            EscrowError::InvalidPlayer => 7,
            EscrowError::InvalidArbiterPanel => 8,
            EscrowError::InvalidStatus => 9,
            EscrowError::NotParticipant => 10,
            EscrowError::AlreadyFunded => 11,
            EscrowError::UnauthorizedArbiter => 12,
            EscrowError::AlreadyVoted => 13,
            EscrowError::ArbitrationWindowClosed => 14,
            EscrowError::ThresholdNotMet => 15,
            EscrowError::FallbackNotElapsed => 16,
            EscrowError::ResolutionAvailable => 17,
            EscrowError::Unauthorized => 18,
        }
    }
}

// =============================================================================
// TYPES
// =============================================================================

/// Lifecycle status of a match escrow.
#[derive(Clone, Copy, Debug, PartialEq, Eq, Structural)]
pub enum EscrowStatus {
    /// Created; waiting for both players to deposit their stake
    AwaitingFunding,
    /// Both stakes are locked and the match can be settled
    Funded,
    /// A dispute is open: payout is frozen for arbitration
    Disputed,
    /// Funds have been released or refunded; the escrow is closed
    Resolved,
}

impl EscrowStatus {
    /// The number of the status: how far the escrow has come.
    pub open spec fn number(self) -> u32 {
        match self {
            EscrowStatus::AwaitingFunding => 1,
            EscrowStatus::Funded => 2,
            EscrowStatus::Disputed => 3,
            EscrowStatus::Resolved => 4,
        }
    }

    /// The number that stands for the status on the ledger.
    pub fn code(self) -> (r: u32)
        ensures
            r == self.number(),
    {
        match self {
            EscrowStatus::AwaitingFunding => 1,
            EscrowStatus::Funded => 2,
            EscrowStatus::Disputed => 3,
            EscrowStatus::Resolved => 4,
        }
    }
}

/// The three ways an arbiter can vote on a disputed match.
#[derive(Clone, Copy, Debug, PartialEq, Eq, Structural)]
pub enum VoteChoice {
    /// Release the pot to player A
    PlayerA,
    /// Release the pot to player B
    PlayerB,
    /// Refund each player their original stake
    Refund,
}

impl VoteChoice {
    /// The number of the choice.
    pub open spec fn number(self) -> u32 {
        match self {
            VoteChoice::PlayerA => 1,
            VoteChoice::PlayerB => 2,
            VoteChoice::Refund => 3,
        }
    }

    /// The number that stands for the choice on the ledger.
    pub fn code(self) -> (r: u32)
        ensures
            r == self.number(),
    {
        match self {
            VoteChoice::PlayerA => 1,
            VoteChoice::PlayerB => 2,
            VoteChoice::Refund => 3,
        }
    }
}

/// Full state of a single match escrow.
#[derive(Clone, Copy, Debug, PartialEq, Eq)]
pub struct MatchEscrow {
    pub match_id: u64,
    pub token: Address,
    pub player_a: Address,
    pub player_b: Address,
    /// Amount each player must deposit
    pub stake: i128,
    /// Total amount currently locked (2 * stake once fully funded)
    pub pot: i128,
    pub funded_a: bool,
    pub funded_b: bool,
    pub arbiter_1: Address,
    pub arbiter_2: Address,
    pub arbiter_3: Address,
    pub status: EscrowStatus,
    /// Ledger timestamp at which the dispute was raised (0 if never disputed)
    pub dispute_started_at: u64,
    /// End of the 48-hour arbitration window (0 if never disputed)
    pub arbitration_deadline: u64,
    /// Deadline of the 7-day time-locked fallback (0 if never disputed)
    pub fallback_deadline: u64,
    pub votes_for_a: u32,
    pub votes_for_b: u32,
    pub votes_for_refund: u32,
    /// Winning outcome once resolved
    pub winning_choice: Option<VoteChoice>,
    pub resolved_at: u64,
}

/// Storage keys for the contract.
#[derive(Clone, Copy, Debug, PartialEq, Eq, Structural)]
pub enum DataKey {
    Admin,
    Escrow(u64),
    /// Recorded vote for a given match and arbiter (presence blocks double votes)
    ArbiterVote(u64, Address),
}

/// An entry of the contract's storage.
#[derive(Clone, Copy, Debug, PartialEq, Eq)]
pub enum Entry {
    Admin(Address),
    Escrow(MatchEscrow),
    ArbiterVote(u64, Address, VoteChoice),
}

impl Entry {
    /// The key of an entry.
    pub open spec fn key_of(self) -> DataKey {
        match self {
            Entry::Admin(_) => DataKey::Admin,
            Entry::Escrow(escrow) => DataKey::Escrow(escrow.match_id),
            Entry::ArbiterVote(match_id, arbiter, _) => DataKey::ArbiterVote(match_id, arbiter),
        }
    }

    /// The key an entry is stored under.
    pub fn key(&self) -> (r: DataKey)
        ensures
            r == self.key_of(),
    {
        match self {
            Entry::Admin(_) => DataKey::Admin,
            Entry::Escrow(escrow) => DataKey::Escrow(escrow.match_id),
            Entry::ArbiterVote(match_id, arbiter, _) => DataKey::ArbiterVote(*match_id, *arbiter),
        }
    }
}

/// What the contract publishes.
#[derive(Clone, Copy, Debug, PartialEq, Eq)]
pub enum EscrowEvent {
    Init { admin: Address },
    AdminTransferred { new_admin: Address },
    Created { match_id: u64, player_a: Address, player_b: Address, stake: i128, token: Address },
    Arbiters { match_id: u64, arbiter_1: Address, arbiter_2: Address, arbiter_3: Address },
    Funded { match_id: u64, player: Address, stake: i128, pot: i128 },
    Ready { match_id: u64, pot: i128 },
    Payout { match_id: u64, to: Address, amount: i128 },
    Settled { match_id: u64, winner: Address },
    Refunded { match_id: u64, player_a: Address, player_b: Address, stake: i128 },
    Disputed {
        match_id: u64,
        caller: Address,
        arbitration_deadline: u64,
        fallback_deadline: u64,
    },
    Voted {
        match_id: u64,
        arbiter: Address,
        choice: u32,
        votes_for_a: u32,
        votes_for_b: u32,
        votes_for_refund: u32,
    },
    Resolved { match_id: u64, choice: u32, caller: Address },
    FallbackExecuted { match_id: u64, player_a: Address, player_b: Address, stake: i128 },
}

impl EscrowEvent {
    /// The topic of an event.
    pub open spec fn topic_text(self) -> Seq<char> {
        match self {
            EscrowEvent::Init { .. } => "init"@,
            EscrowEvent::AdminTransferred { .. } => "adm_xfer"@,
            EscrowEvent::Created { .. } => "created"@,
            EscrowEvent::Arbiters { .. } => "arbiters"@,
            EscrowEvent::Funded { .. } => "funded"@,
            EscrowEvent::Ready { .. } => "ready"@,
            EscrowEvent::Payout { .. } => "payout"@,
            EscrowEvent::Settled { .. } => "settle"@,
            EscrowEvent::Refunded { .. } => "refund"@,
            EscrowEvent::Disputed { .. } => "dispute"@,
            EscrowEvent::Voted { .. } => "vote"@,
            EscrowEvent::Resolved { .. } => "resolved"@,
            EscrowEvent::FallbackExecuted { .. } => "fallback"@,
        }
    }

    /// The symbol an event is published under.
    pub fn topic(&self) -> (r: &'static str)
        ensures
            r@ == self.topic_text(),
    {
        match self {
            EscrowEvent::Init { .. } => "init",
            EscrowEvent::AdminTransferred { .. } => "adm_xfer",
            EscrowEvent::Created { .. } => "created",
            EscrowEvent::Arbiters { .. } => "arbiters",
            EscrowEvent::Funded { .. } => "funded",
            EscrowEvent::Ready { .. } => "ready",
            EscrowEvent::Payout { .. } => "payout",
            EscrowEvent::Settled { .. } => "settle",
            EscrowEvent::Refunded { .. } => "refund",
            EscrowEvent::Disputed { .. } => "dispute",
            EscrowEvent::Voted { .. } => "vote",
            EscrowEvent::Resolved { .. } => "resolved",
            EscrowEvent::FallbackExecuted { .. } => "fallback",
        }
    }
}

/// A step of the script an escrow call leaves to the host.
pub type EscrowEffect = Effect<Entry, EscrowEvent>;

// =============================================================================
// STATE
// =============================================================================

/// The contract's storage and what it sees of the ledger.
pub ghost struct State {
    pub admin: Option<Address>,
    pub escrows: Map<u64, MatchEscrow>,
    pub votes: Map<(u64, Address), VoteChoice>,
    /// The ledger timestamp.
    pub now: u64,
    /// The contract's own address.
    pub contract: Address,
}

/// How many sides of an escrow are funded.
pub open spec fn sides_funded(e: MatchEscrow) -> int {
    (if e.funded_a {
        1int
    } else {
        0
    }) + (if e.funded_b {
        1int
    } else {
        0
    })
}

/// Whether an address is one of the three arbiters.
pub open spec fn on_panel(e: MatchEscrow, who: Address) -> bool {
    who == e.arbiter_1 || who == e.arbiter_2 || who == e.arbiter_3
}

/// Whether an address is one of the two players.
pub open spec fn plays(e: MatchEscrow, who: Address) -> bool {
    who == e.player_a || who == e.player_b
}

/// What holds of an escrow on its own: the two players differ, the three
/// arbiters differ from each other and from the players, the pot is the stakes
/// paid in, and status, deadlines and outcome agree.
pub open spec fn escrow_well_formed(e: MatchEscrow) -> bool {
    &&& e.stake > 0
    &&& e.player_a != e.player_b
    &&& e.arbiter_1 != e.arbiter_2
    &&& e.arbiter_1 != e.arbiter_3
    &&& e.arbiter_2 != e.arbiter_3
    &&& !plays(e, e.arbiter_1)
    &&& !plays(e, e.arbiter_2)
    &&& !plays(e, e.arbiter_3)
    &&& e.pot == e.stake * sides_funded(e)
    &&& e.status == EscrowStatus::AwaitingFunding <==> !(e.funded_a && e.funded_b)
    &&& e.winning_choice is Some <==> e.status == EscrowStatus::Resolved
    &&& if e.arbitration_deadline == 0 {
        &&& e.status != EscrowStatus::Disputed
        &&& e.dispute_started_at == 0
        &&& e.fallback_deadline == 0
    } else {
        &&& e.status == EscrowStatus::Disputed || e.status == EscrowStatus::Resolved
        &&& e.arbitration_deadline == e.dispute_started_at + ARBITRATION_WINDOW_SECS
        &&& e.fallback_deadline == e.dispute_started_at + FALLBACK_TIMEOUT_SECS
    }
}

/// One where an arbiter has voted for a choice, zero otherwise.
pub open spec fn voted_for(s: State, match_id: u64, arbiter: Address, choice: VoteChoice) -> int {
    if s.votes.dom().contains((match_id, arbiter)) && s.votes[(match_id, arbiter)] == choice {
        1
    } else {
        0
    }
}

/// The number of recorded votes of the panel for a choice.
pub open spec fn tally(s: State, e: MatchEscrow, choice: VoteChoice) -> int {
    voted_for(s, e.match_id, e.arbiter_1, choice) + voted_for(s, e.match_id, e.arbiter_2, choice)
        + voted_for(s, e.match_id, e.arbiter_3, choice)
}

impl State {
    /// What holds of the storage between calls: every escrow is well formed and
    /// stored under its own match id, its tallies count the recorded votes of
    /// its panel, votes are recorded only for disputed escrows, and there are
    /// escrows only once there is an admin.
    pub open spec fn well_formed(self) -> bool {
        &&& forall|id: u64| #[trigger]
            self.escrows.dom().contains(id) ==> {
                let e = self.escrows[id];
                &&& e.match_id == id
                &&& escrow_well_formed(e)
                &&& e.votes_for_a == tally(self, e, VoteChoice::PlayerA)
                &&& e.votes_for_b == tally(self, e, VoteChoice::PlayerB)
                &&& e.votes_for_refund == tally(self, e, VoteChoice::Refund)
                &&& self.admin is Some
            }
        &&& forall|id: u64, arbiter: Address| #[trigger]
            self.votes.dom().contains((id, arbiter)) ==> {
                &&& self.escrows.dom().contains(id)
                &&& on_panel(self.escrows[id], arbiter)
                &&& self.escrows[id].arbitration_deadline != 0
            }
    }
}

/// The contract's storage, the ledger around it, and the script of the calls
/// made so far.
#[derive(Debug, Clone)]
pub struct EscrowEnv {
    pub admin: Option<Address>,
    pub escrows: Table<u64, MatchEscrow>,
    pub votes: Table<(u64, Address), VoteChoice>,
    pub now: u64,
    pub contract: Address,
    pub effects: Vec<EscrowEffect>,
}

impl View for EscrowEnv {
    type V = State;

    open spec fn view(&self) -> State {
        State {
            admin: self.admin,
            escrows: self.escrows@,
            votes: self.votes@,
            now: self.now,
            contract: self.contract,
        }
    }
}

/// What a call does: the state it leaves, the script it adds, and what it
/// returns.
pub ghost struct Step {
    pub state: State,
    pub effects: Seq<EscrowEffect>,
    pub result: Result<(), EscrowError>,
}

/// A call that fails after adding some script.
pub open spec fn fail(s: State, effects: Seq<EscrowEffect>, e: EscrowError) -> Step {
    Step { state: s, effects, result: Err(e) }
}

/// Why an address cannot act as the admin.
pub open spec fn admin_fault(s: State, who: Address) -> Option<EscrowError> {
    match s.admin {
        None => Some(EscrowError::NotInitialized),
        Some(admin) => if admin != who {
            Some(EscrowError::NotAdmin)
        } else {
            None
        },
    }
}

/// The state with one escrow set.
pub open spec fn with_escrow(s: State, e: MatchEscrow) -> State {
    State { escrows: s.escrows.insert(e.match_id, e), ..s }
}

// =============================================================================
// CALLS
// =============================================================================

/// [`ArbiterEscrowContract::initialize`].
pub open spec fn initialized(s: State, admin: Address) -> Step {
    if s.admin is Some {
        fail(s, seq![], EscrowError::AlreadyInitialized)
    } else {
        Step {
            state: State { admin: Some(admin), ..s },
            effects: seq![
                Effect::Write(Entry::Admin(admin)),
                Effect::Publish(EscrowEvent::Init { admin }),
            ],
            result: Ok(()),
        }
    }
}

/// [`ArbiterEscrowContract::transfer_admin`].
pub open spec fn admin_transferred(s: State, current_admin: Address, new_admin: Address) -> Step {
    let auth = seq![Effect::RequireAuth(current_admin)];
    match admin_fault(s, current_admin) {
        Some(e) => fail(s, auth, e),
        None => Step {
            state: State { admin: Some(new_admin), ..s },
            effects: auth + seq![
                Effect::Write(Entry::Admin(new_admin)),
                Effect::Publish(EscrowEvent::AdminTransferred { new_admin }),
            ],
            result: Ok(()),
        },
    }
}

/// An escrow as it is created.
pub open spec fn new_escrow(
    match_id: u64,
    token: Address,
    player_a: Address,
    player_b: Address,
    stake: i128,
    arbiter_1: Address,
    arbiter_2: Address,
    arbiter_3: Address,
) -> MatchEscrow {
    MatchEscrow {
        match_id,
        token,
        player_a,
        player_b,
        stake,
        pot: 0,
        funded_a: false,
        funded_b: false,
        arbiter_1,
        arbiter_2,
        arbiter_3,
        status: EscrowStatus::AwaitingFunding,
        dispute_started_at: 0,
        arbitration_deadline: 0,
        fallback_deadline: 0,
        votes_for_a: 0,
        votes_for_b: 0,
        votes_for_refund: 0,
        winning_choice: None,
        resolved_at: 0,
    }
}

/// What is wrong with the terms of a new escrow.
pub open spec fn terms_fault(s: State, e: MatchEscrow) -> Option<EscrowError> {
    if s.escrows.dom().contains(e.match_id) {
        Some(EscrowError::EscrowAlreadyExists)
    } else if e.stake <= 0 {
        Some(EscrowError::InvalidAmount)
    } else if e.player_a == e.player_b {
        Some(EscrowError::InvalidPlayer)
    } else if e.arbiter_1 == e.arbiter_2 || e.arbiter_1 == e.arbiter_3 || e.arbiter_2
        == e.arbiter_3 {
        Some(EscrowError::InvalidArbiterPanel)
    } else if plays(e, e.arbiter_1) || plays(e, e.arbiter_2) || plays(e, e.arbiter_3) {
        Some(EscrowError::InvalidArbiterPanel)
    } else {
        None
    }
}

/// [`ArbiterEscrowContract::create_escrow`], for an escrow with these terms.
pub open spec fn created(s: State, admin: Address, e: MatchEscrow) -> Step {
    let auth = seq![Effect::RequireAuth(admin)];
    match admin_fault(s, admin) {
        Some(fault) => fail(s, auth, fault),
        None => match terms_fault(s, e) {
            Some(fault) => fail(s, auth, fault),
            None => Step {
                state: with_escrow(s, e),
                effects: auth + seq![
                    Effect::Write(Entry::Escrow(e)),
                    Effect::Publish(
                        EscrowEvent::Created {
                            match_id: e.match_id,
                            player_a: e.player_a,
                            player_b: e.player_b,
                            stake: e.stake,
                            token: e.token,
                        },
                    ),
                    Effect::Publish(
                        EscrowEvent::Arbiters {
                            match_id: e.match_id,
                            arbiter_1: e.arbiter_1,
                            arbiter_2: e.arbiter_2,
                            arbiter_3: e.arbiter_3,
                        },
                    ),
                ],
                result: Ok(()),
            },
        },
    }
}

/// Why a player cannot fund an escrow.
pub open spec fn funding_fault(s: State, match_id: u64, player: Address) -> Option<EscrowError> {
    if !s.escrows.dom().contains(match_id) {
        Some(EscrowError::EscrowNotFound)
    } else {
        let e = s.escrows[match_id];
        if e.status != EscrowStatus::AwaitingFunding {
            Some(EscrowError::InvalidStatus)
        } else if !plays(e, player) {
            Some(EscrowError::NotParticipant)
        } else if (player == e.player_a && e.funded_a) || (player == e.player_b && e.funded_b) {
            Some(EscrowError::AlreadyFunded)
        } else {
            None
        }
    }
}

/// An escrow after a player has paid in their stake.
pub open spec fn with_stake(e: MatchEscrow, player: Address) -> MatchEscrow {
    let funded_a = e.funded_a || player == e.player_a;
    let funded_b = e.funded_b || player != e.player_a;
    MatchEscrow {
        funded_a,
        funded_b,
        pot: (e.pot + e.stake) as i128,
        status: if funded_a && funded_b {
            EscrowStatus::Funded
        } else {
            e.status
        },
        ..e
    }
}

/// Whether the pot can take the stake that a player is about to pay in.
pub open spec fn stake_fits(s: State, match_id: u64, player: Address) -> bool {
    funding_fault(s, match_id, player) is None ==> s.escrows[match_id].pot
        + s.escrows[match_id].stake <= i128::MAX
}

/// [`ArbiterEscrowContract::fund_escrow`]: the stake moves in, and the second
/// stake makes the escrow live.
pub open spec fn funded(s: State, match_id: u64, player: Address) -> Step {
    match funding_fault(s, match_id, player) {
        Some(fault) => fail(s, seq![], fault),
        None => {
            let before = s.escrows[match_id];
            let e = with_stake(before, player);
            Step {
                state: with_escrow(s, e),
                effects: seq![
                    Effect::RequireAuth(player),
                    Effect::Transfer {
                        token: e.token,
                        from: player,
                        to: s.contract,
                        amount: e.stake,
                    },
                    Effect::Write(Entry::Escrow(e)),
                    Effect::Publish(
                        EscrowEvent::Funded { match_id, player, stake: e.stake, pot: e.pot },
                    ),
                ] + if e.funded_a && e.funded_b {
                    seq![Effect::Publish(EscrowEvent::Ready { match_id, pot: e.pot })]
                } else {
                    seq![]
                },
                result: Ok(()),
            }
        },
    }
}

/// One payment out of the escrow.
pub open spec fn payment(s: State, e: MatchEscrow, to: Address, amount: i128) -> EscrowEffect {
    Effect::Transfer { token: e.token, from: s.contract, to, amount }
}

/// The announcement of a payment.
pub open spec fn payout(e: MatchEscrow, to: Address, amount: i128) -> EscrowEffect {
    Effect::Publish(EscrowEvent::Payout { match_id: e.match_id, to, amount })
}

/// The payments for an outcome: the whole pot to the winner, or each stake back
/// to its player.
pub open spec fn release_script(s: State, e: MatchEscrow, choice: VoteChoice) -> Seq<
    EscrowEffect,
> {
    match choice {
        VoteChoice::PlayerA => seq![
            payment(s, e, e.player_a, e.pot),
            payout(e, e.player_a, e.pot),
        ],
        VoteChoice::PlayerB => seq![
            payment(s, e, e.player_b, e.pot),
            payout(e, e.player_b, e.pot),
        ],
        VoteChoice::Refund => seq![
            payment(s, e, e.player_a, e.stake),
            payment(s, e, e.player_b, e.stake),
            payout(e, e.player_a, e.stake),
            payout(e, e.player_b, e.stake),
        ],
    }
}

/// An escrow closed with an outcome.
pub open spec fn closed_with(e: MatchEscrow, choice: VoteChoice, now: u64) -> MatchEscrow {
    MatchEscrow {
        status: EscrowStatus::Resolved,
        winning_choice: Some(choice),
        resolved_at: now,
        ..e
    }
}

/// Closes an escrow: the payments, the stored record, and an announcement.
pub open spec fn close(
    s: State,
    auth: Seq<EscrowEffect>,
    e: MatchEscrow,
    choice: VoteChoice,
    event: EscrowEvent,
) -> Step {
    let done = closed_with(e, choice, s.now);
    Step {
        state: with_escrow(s, done),
        effects: auth + release_script(s, e, choice) + seq![
            Effect::Write(Entry::Escrow(done)),
            Effect::Publish(event),
        ],
        result: Ok(()),
    }
}

/// Why an escrow cannot be used in a status.
pub open spec fn status_fault(s: State, match_id: u64, status: EscrowStatus) -> Option<
    EscrowError,
> {
    if !s.escrows.dom().contains(match_id) {
        Some(EscrowError::EscrowNotFound)
    } else if s.escrows[match_id].status != status {
        Some(EscrowError::InvalidStatus)
    } else {
        None
    }
}

/// Why the admin cannot settle an escrow.
pub open spec fn settle_fault(s: State, match_id: u64, admin: Address) -> Option<EscrowError> {
    match admin_fault(s, admin) {
        Some(fault) => Some(fault),
        None => status_fault(s, match_id, EscrowStatus::Funded),
    }
}

/// [`ArbiterEscrowContract::settle_match`].
pub open spec fn settled(s: State, match_id: u64, admin: Address, winner: Address) -> Step {
    let auth = seq![Effect::RequireAuth(admin)];
    let e = s.escrows[match_id];
    match settle_fault(s, match_id, admin) {
        Some(fault) => fail(s, auth, fault),
        None => if winner == e.player_a {
            close(s, auth, e, VoteChoice::PlayerA, EscrowEvent::Settled { match_id, winner })
        } else if winner == e.player_b {
            close(s, auth, e, VoteChoice::PlayerB, EscrowEvent::Settled { match_id, winner })
        } else {
            fail(s, auth, EscrowError::InvalidPlayer)
        },
    }
}

/// [`ArbiterEscrowContract::settle_refund`].
pub open spec fn refunded(s: State, match_id: u64, admin: Address) -> Step {
    let auth = seq![Effect::RequireAuth(admin)];
    let e = s.escrows[match_id];
    match settle_fault(s, match_id, admin) {
        Some(fault) => fail(s, auth, fault),
        None => close(
            s,
            auth,
            e,
            VoteChoice::Refund,
            EscrowEvent::Refunded {
                match_id,
                player_a: e.player_a,
                player_b: e.player_b,
                stake: e.stake,
            },
        ),
    }
}

/// Why a caller cannot dispute a match.
pub open spec fn dispute_fault(s: State, match_id: u64, caller: Address) -> Option<EscrowError> {
    match status_fault(s, match_id, EscrowStatus::Funded) {
        Some(fault) => Some(fault),
        None => match s.admin {
            None => Some(EscrowError::NotInitialized),
            Some(admin) => if !plays(s.escrows[match_id], caller) && admin != caller {
                Some(EscrowError::NotParticipant)
            } else {
                None
            },
        },
    }
}

/// Whether the deadlines of a dispute that is about to be raised can be
/// written down.
pub open spec fn deadlines_fit(s: State, match_id: u64, caller: Address) -> bool {
    dispute_fault(s, match_id, caller) is None ==> s.now + FALLBACK_TIMEOUT_SECS <= u64::MAX
}

/// An escrow under dispute.
pub open spec fn under_dispute(e: MatchEscrow, now: u64) -> MatchEscrow {
    MatchEscrow {
        status: EscrowStatus::Disputed,
        dispute_started_at: now,
        arbitration_deadline: (now + ARBITRATION_WINDOW_SECS) as u64,
        fallback_deadline: (now + FALLBACK_TIMEOUT_SECS) as u64,
        ..e
    }
}

/// [`ArbiterEscrowContract::dispute_match`].
pub open spec fn disputed(s: State, match_id: u64, caller: Address) -> Step {
    let auth = seq![Effect::RequireAuth(caller)];
    match dispute_fault(s, match_id, caller) {
        Some(fault) => fail(s, auth, fault),
        None => {
            let e = under_dispute(s.escrows[match_id], s.now);
            Step {
                state: with_escrow(s, e),
                effects: auth + seq![
                    Effect::Write(Entry::Escrow(e)),
                    Effect::Publish(
                        EscrowEvent::Disputed {
                            match_id,
                            caller,
                            arbitration_deadline: e.arbitration_deadline,
                            fallback_deadline: e.fallback_deadline,
                        },
                    ),
                ],
                result: Ok(()),
            }
        },
    }
}

/// Why an arbiter cannot vote.
pub open spec fn vote_fault(s: State, match_id: u64, arbiter: Address) -> Option<EscrowError> {
    match status_fault(s, match_id, EscrowStatus::Disputed) {
        Some(fault) => Some(fault),
        None => if !on_panel(s.escrows[match_id], arbiter) {
            Some(EscrowError::UnauthorizedArbiter)
        } else if s.now >= s.escrows[match_id].arbitration_deadline {
            Some(EscrowError::ArbitrationWindowClosed)
        } else if s.votes.dom().contains((match_id, arbiter)) {
            Some(EscrowError::AlreadyVoted)
        } else {
            None
        },
    }
}

/// An escrow with one more vote counted.
pub open spec fn with_vote(e: MatchEscrow, choice: VoteChoice) -> MatchEscrow {
    match choice {
        VoteChoice::PlayerA => MatchEscrow { votes_for_a: (e.votes_for_a + 1) as u32, ..e },
        VoteChoice::PlayerB => MatchEscrow { votes_for_b: (e.votes_for_b + 1) as u32, ..e },
        VoteChoice::Refund => MatchEscrow {
            votes_for_refund: (e.votes_for_refund + 1) as u32,
            ..e
        },
    }
}

/// [`ArbiterEscrowContract::vote`].
pub open spec fn voted(s: State, match_id: u64, arbiter: Address, choice: VoteChoice) -> Step {
    let auth = seq![Effect::RequireAuth(arbiter)];
    match vote_fault(s, match_id, arbiter) {
        Some(fault) => fail(s, auth, fault),
        None => {
            let e = with_vote(s.escrows[match_id], choice);
            Step {
                state: State {
                    votes: s.votes.insert((match_id, arbiter), choice),
                    ..with_escrow(s, e)
                },
                effects: auth + seq![
                    Effect::Write(Entry::ArbiterVote(match_id, arbiter, choice)),
                    Effect::Write(Entry::Escrow(e)),
                    Effect::Publish(
                        EscrowEvent::Voted {
                            match_id,
                            arbiter,
                            choice: choice.number(),
                            votes_for_a: e.votes_for_a,
                            votes_for_b: e.votes_for_b,
                            votes_for_refund: e.votes_for_refund,
                        },
                    ),
                ],
                result: Ok(()),
            }
        },
    }
}

/// The outcome that has reached the 2-of-3 threshold, if any.
pub open spec fn majority(e: MatchEscrow) -> Option<VoteChoice> {
    if e.votes_for_a >= QUORUM {
        Some(VoteChoice::PlayerA)
    } else if e.votes_for_b >= QUORUM {
        Some(VoteChoice::PlayerB)
    } else if e.votes_for_refund >= QUORUM {
        Some(VoteChoice::Refund)
    } else {
        None
    }
}

/// Why a caller cannot execute the arbiters' decision.
pub open spec fn resolve_fault(s: State, match_id: u64, caller: Address) -> Option<EscrowError> {
    match status_fault(s, match_id, EscrowStatus::Disputed) {
        Some(fault) => Some(fault),
        None => {
            let e = s.escrows[match_id];
            match s.admin {
                None => Some(EscrowError::NotInitialized),
                Some(admin) => if admin != caller && !plays(e, caller) && !on_panel(e, caller) {
                    Some(EscrowError::Unauthorized)
                } else if majority(e) is None {
                    Some(EscrowError::ThresholdNotMet)
                } else {
                    None
                },
            }
        },
    }
}

/// [`ArbiterEscrowContract::resolve_dispute`].
pub open spec fn resolved(s: State, match_id: u64, caller: Address) -> Step {
    let auth = seq![Effect::RequireAuth(caller)];
    match resolve_fault(s, match_id, caller) {
        Some(fault) => fail(s, auth, fault),
        None => {
            let e = s.escrows[match_id];
            let choice = majority(e)->0;
            close(
                s,
                auth,
                e,
                choice,
                EscrowEvent::Resolved { match_id, choice: choice.number(), caller },
            )
        },
    }
}

/// Why the fallback cannot be used.
pub open spec fn fallback_fault(s: State, match_id: u64) -> Option<EscrowError> {
    match status_fault(s, match_id, EscrowStatus::Disputed) {
        Some(fault) => Some(fault),
        None => if s.now < s.escrows[match_id].fallback_deadline {
            Some(EscrowError::FallbackNotElapsed)
        } else if majority(s.escrows[match_id]) is Some {
            Some(EscrowError::ResolutionAvailable)
        } else {
            None
        },
    }
}

/// [`ArbiterEscrowContract::execute_fallback`].
pub open spec fn fallen_back(s: State, match_id: u64, caller: Address) -> Step {
    let auth = seq![Effect::RequireAuth(caller)];
    match fallback_fault(s, match_id) {
        Some(fault) => fail(s, auth, fault),
        None => {
            let e = s.escrows[match_id];
            close(
                s,
                auth,
                e,
                VoteChoice::Refund,
                EscrowEvent::FallbackExecuted {
                    match_id,
                    player_a: e.player_a,
                    player_b: e.player_b,
                    stake: e.stake,
                },
            )
        },
    }
}

/// Whether a call did what a step says.
pub open spec fn took(
    before: EscrowEnv,
    after: EscrowEnv,
    result: Result<(), EscrowError>,
    step: Step,
) -> bool {
    &&& after@ == step.state
    &&& after.effects@ =~= before.effects@ + step.effects
    &&& result == step.result
}

// =============================================================================
// CONTRACT
// =============================================================================

impl EscrowEnv {
    /// The storage of a contract that was just deployed.
    pub fn new(contract: Address, now: u64) -> (r: Self)
        ensures
            r@ == (State {
                admin: None,
                escrows: Map::empty(),
                votes: Map::empty(),
                now,
                contract,
            }),
            r@.well_formed(),
            r.effects@.len() == 0,
    {
        EscrowEnv {
            admin: None,
            escrows: Table::new(),
            votes: Table::new(),
            now,
            contract,
            effects: Vec::new(),
        }
    }

    fn push(&mut self, effect: EscrowEffect)
        ensures
            final(self)@ == old(self)@,
            final(self).effects@ == old(self).effects@.push(effect),
    {
        self.effects.push(effect);
    }

    /// Stores an escrow, and says so in the script.
    fn store(&mut self, escrow: MatchEscrow)
        ensures
            final(self)@ == with_escrow(old(self)@, escrow),
            final(self).effects@ == old(self).effects@.push(Effect::Write(Entry::Escrow(escrow))),
    {
        self.escrows.set(escrow.match_id, escrow);
        self.effects.push(Effect::Write(Entry::Escrow(escrow)));
    }
}

/// One escrow as it is found in storage, with the votes recorded for its three
/// arbiters.
#[derive(Debug, Clone, Copy, PartialEq, Eq)]
pub struct StoredEscrow {
    pub escrow: MatchEscrow,
    pub vote_1: Option<VoteChoice>,
    pub vote_2: Option<VoteChoice>,
    pub vote_3: Option<VoteChoice>,
}

/// Votes with one that may have been recorded.
pub open spec fn with_recorded(
    votes: Map<(u64, Address), VoteChoice>,
    match_id: u64,
    arbiter: Address,
    vote: Option<VoteChoice>,
) -> Map<(u64, Address), VoteChoice> {
    match vote {
        Some(choice) => votes.insert((match_id, arbiter), choice),
        None => votes,
    }
}

/// The part of the contract's storage that concerns one match.
pub open spec fn loaded(
    contract: Address,
    now: u64,
    admin: Option<Address>,
    stored: Option<StoredEscrow>,
) -> State {
    match stored {
        None => State { admin, escrows: Map::empty(), votes: Map::empty(), now, contract },
        Some(x) => {
            let e = x.escrow;
            let id = e.match_id;
            State {
                admin,
                escrows: Map::<u64, MatchEscrow>::empty().insert(id, e),
                votes: with_recorded(
                    with_recorded(
                        with_recorded(Map::empty(), id, e.arbiter_1, x.vote_1),
                        id,
                        e.arbiter_2,
                        x.vote_2,
                    ),
                    id,
                    e.arbiter_3,
                    x.vote_3,
                ),
                now,
                contract,
            }
        },
    }
}

fn count_vote(vote: Option<VoteChoice>, choice: VoteChoice) -> (r: u32)
    ensures
        r == if vote == Some(choice) {
            1int
        } else {
            0
        },
{
    match vote {
        Some(v) => if v == choice {
            1
        } else {
            0
        },
        None => 0,
    }
}

fn is_player(e: &MatchEscrow, who: Address) -> (r: bool)
    ensures
        r == plays(*e, who),
{
    who == e.player_a || who == e.player_b
}

fn pot_matches(e: &MatchEscrow) -> (r: bool)
    requires
        e.stake > 0,
    ensures
        r == (e.pot == e.stake * sides_funded(*e)),
{
    if e.funded_a && e.funded_b {
        assert(e.stake * 2 == e.stake + e.stake);
        e.pot > 0 && e.pot - e.stake == e.stake
    } else if e.funded_a || e.funded_b {
        assert(e.stake * 1 == e.stake);
        e.pot == e.stake
    } else {
        assert(e.stake * 0 == 0);
        e.pot == 0
    }
}

fn deadlines_match(e: &MatchEscrow) -> (r: bool)
    ensures
        r == if e.arbitration_deadline == 0 {
            &&& e.status != EscrowStatus::Disputed
            &&& e.dispute_started_at == 0
            &&& e.fallback_deadline == 0
        } else {
            &&& e.status == EscrowStatus::Disputed || e.status == EscrowStatus::Resolved
            &&& e.arbitration_deadline == e.dispute_started_at + ARBITRATION_WINDOW_SECS
            &&& e.fallback_deadline == e.dispute_started_at + FALLBACK_TIMEOUT_SECS
        },
{
    if e.arbitration_deadline == 0 {
        e.status != EscrowStatus::Disputed && e.dispute_started_at == 0 && e.fallback_deadline == 0
    } else {
        (e.status == EscrowStatus::Disputed || e.status == EscrowStatus::Resolved)
            && e.arbitration_deadline >= ARBITRATION_WINDOW_SECS && e.arbitration_deadline
            - ARBITRATION_WINDOW_SECS == e.dispute_started_at && e.fallback_deadline
            >= FALLBACK_TIMEOUT_SECS && e.fallback_deadline - FALLBACK_TIMEOUT_SECS
            == e.dispute_started_at
    }
}

fn is_escrow_well_formed(e: &MatchEscrow) -> (r: bool)
    ensures
        r == escrow_well_formed(*e),
{
    e.stake > 0 && e.player_a != e.player_b && e.arbiter_1 != e.arbiter_2 && e.arbiter_1
        != e.arbiter_3 && e.arbiter_2 != e.arbiter_3 && !is_player(e, e.arbiter_1) && !is_player(
        e,
        e.arbiter_2,
    ) && !is_player(e, e.arbiter_3) && pot_matches(e) && (e.status
        == EscrowStatus::AwaitingFunding) == !(e.funded_a && e.funded_b)
        && e.winning_choice.is_some() == (e.status == EscrowStatus::Resolved) && deadlines_match(e)
}

/// Checks that the tallies of an escrow count the recorded votes.
fn is_stored_well_formed(x: &StoredEscrow) -> (r: bool)
    ensures
        r == (escrow_well_formed(x.escrow) && tallies_match(*x)),
{
    let e = &x.escrow;
    is_escrow_well_formed(e) && e.votes_for_a == count_vote(x.vote_1, VoteChoice::PlayerA)
        + count_vote(x.vote_2, VoteChoice::PlayerA) + count_vote(x.vote_3, VoteChoice::PlayerA)
        && e.votes_for_b == count_vote(x.vote_1, VoteChoice::PlayerB) + count_vote(
        x.vote_2,
        VoteChoice::PlayerB,
    ) + count_vote(x.vote_3, VoteChoice::PlayerB) && e.votes_for_refund == count_vote(
        x.vote_1,
        VoteChoice::Refund,
    ) + count_vote(x.vote_2, VoteChoice::Refund) + count_vote(x.vote_3, VoteChoice::Refund) && (
    e.arbitration_deadline != 0 || (x.vote_1.is_none() && x.vote_2.is_none()
        && x.vote_3.is_none()))
}

/// One where a recorded vote is for a choice.
pub open spec fn counted(vote: Option<VoteChoice>, choice: VoteChoice) -> int {
    if vote == Some(choice) {
        1
    } else {
        0
    }
}

/// Whether the tallies of a stored escrow count its recorded votes, and there
/// are votes only if it was disputed.
pub open spec fn tallies_match(x: StoredEscrow) -> bool {
    let e = x.escrow;
    &&& e.votes_for_a == counted(x.vote_1, VoteChoice::PlayerA) + counted(
        x.vote_2,
        VoteChoice::PlayerA,
    ) + counted(x.vote_3, VoteChoice::PlayerA)
    &&& e.votes_for_b == counted(x.vote_1, VoteChoice::PlayerB) + counted(
        x.vote_2,
        VoteChoice::PlayerB,
    ) + counted(x.vote_3, VoteChoice::PlayerB)
    &&& e.votes_for_refund == counted(x.vote_1, VoteChoice::Refund) + counted(
        x.vote_2,
        VoteChoice::Refund,
    ) + counted(x.vote_3, VoteChoice::Refund)
    &&& e.arbitration_deadline != 0 || (x.vote_1 is None && x.vote_2 is None && x.vote_3 is None)
}

proof fn lemma_loaded_well_formed(
    contract: Address,
    now: u64,
    admin: Option<Address>,
    x: StoredEscrow,
)
    ensures
        loaded(contract, now, admin, Some(x)).well_formed() <==> (admin is Some
            && escrow_well_formed(x.escrow) && tallies_match(x)),
{
    let s = loaded(contract, now, admin, Some(x));
    let e = x.escrow;
    let id = e.match_id;
    assert(s.escrows.dom().contains(id));
    if escrow_well_formed(e) {
        assert(s.votes.dom().contains((id, e.arbiter_1)) <==> x.vote_1 is Some);
        assert(s.votes.dom().contains((id, e.arbiter_2)) <==> x.vote_2 is Some);
        assert(s.votes.dom().contains((id, e.arbiter_3)) <==> x.vote_3 is Some);
        assert forall|c: VoteChoice| tally(s, e, c) == counted(x.vote_1, c) + counted(x.vote_2, c)
            + counted(x.vote_3, c) by {}
        if s.well_formed() && e.arbitration_deadline == 0 {
            assert(!s.votes.dom().contains((id, e.arbiter_1)));
            assert(!s.votes.dom().contains((id, e.arbiter_2)));
            assert(!s.votes.dom().contains((id, e.arbiter_3)));
        }
    }
}

fn record_vote(
    votes: &mut Table<(u64, Address), VoteChoice>,
    match_id: u64,
    arbiter: Address,
    vote: Option<VoteChoice>,
)
    ensures
        final(votes)@ == with_recorded(old(votes)@, match_id, arbiter, vote),
{
    match vote {
        Some(choice) => {
            votes.set((match_id, arbiter), choice);
        },
        None => {},
    }
}

impl EscrowEnv {
    /// Takes up what the contract's storage holds about one match. Records that
    /// the contract's own calls cannot have left behind are refused.
    pub fn load(
        contract: Address,
        now: u64,
        admin: Option<Address>,
        stored: Option<StoredEscrow>,
    ) -> (r: Option<Self>)
        ensures
            match r {
                Some(env) => {
                    &&& env@ == loaded(contract, now, admin, stored)
                    &&& env@.well_formed()
                    &&& env.effects@.len() == 0
                },
                None => !loaded(contract, now, admin, stored).well_formed(),
            },
    {
        let mut env = EscrowEnv::new(contract, now);
        env.admin = admin;
        match stored {
            None => Some(env),
            Some(x) => {
                proof {
                    lemma_loaded_well_formed(contract, now, admin, x);
                }
                if admin.is_none() || !is_stored_well_formed(&x) {
                    return None;
                }
                let id: u64 = x.escrow.match_id;
                env.escrows.set(id, x.escrow);
                record_vote(&mut env.votes, id, x.escrow.arbiter_1, x.vote_1);
                record_vote(&mut env.votes, id, x.escrow.arbiter_2, x.vote_2);
                record_vote(&mut env.votes, id, x.escrow.arbiter_3, x.vote_3);
                Some(env)
            },
        }
    }
}

impl EscrowEnv {
    /// Whether the pot can take the stake that a player is about to pay in with
    /// [`ArbiterEscrowContract::fund_escrow`].
    pub fn can_take_stake(&self, match_id: u64, player: Address) -> (r: bool)
        requires
            self@.well_formed(),
        ensures
            r == stake_fits(self@, match_id, player),
    {
        match self.escrows.get(&match_id) {
            None => true,
            Some(e) => {
                if e.status != EscrowStatus::AwaitingFunding || !is_player(e, player) || (player
                    == e.player_a && e.funded_a) || (player == e.player_b && e.funded_b) {
                    true
                } else {
                    e.pot <= i128::MAX - e.stake
                }
            },
        }
    }

    /// Whether the deadlines of a dispute that is about to be raised with
    /// [`ArbiterEscrowContract::dispute_match`] can be written down.
    pub fn can_set_deadlines(&self, match_id: u64, caller: Address) -> (r: bool)
        ensures
            r == deadlines_fit(self@, match_id, caller),
    {
        match self.escrows.get(&match_id) {
            None => true,
            Some(e) => {
                let is_admin = match self.admin {
                    None => {
                        return true;
                    },
                    Some(admin) => admin == caller,
                };
                e.status != EscrowStatus::Funded || (!is_player(e, caller) && !is_admin) || self.now
                    <= u64::MAX - FALLBACK_TIMEOUT_SECS
            },
        }
    }
}

/// The escrow contract.
pub struct ArbiterEscrowContract;

impl ArbiterEscrowContract {
    // =========================================================================
    // ADMIN
    // =========================================================================

    /// Initialize the contract with the escrow admin (the settlement authority
    /// that appoints Fair Play Arbiters per match).
    pub fn initialize(env: &mut EscrowEnv, admin: Address) -> (r: Result<(), EscrowError>)
        requires
            old(env)@.well_formed(),
        ensures
            took(*old(env), *final(env), r, initialized(old(env)@, admin)),
            final(env)@.well_formed(),
    {
        if env.admin.is_some() {
            return Err(EscrowError::AlreadyInitialized);
        }
        env.admin = Some(admin);
        env.push(Effect::Write(Entry::Admin(admin)));
        env.push(Effect::Publish(EscrowEvent::Init { admin }));
        Ok(())
    }

    /// Transfer the admin role.
    pub fn transfer_admin(
        env: &mut EscrowEnv,
        current_admin: Address,
        new_admin: Address,
    ) -> (r: Result<(), EscrowError>)
        requires
            old(env)@.well_formed(),
        ensures
            took(
                *old(env),
                *final(env),
                r,
                admin_transferred(old(env)@, current_admin, new_admin),
            ),
            final(env)@.well_formed(),
    {
        env.push(Effect::RequireAuth(current_admin));
        match Self::check_admin(env, current_admin) {
            Err(e) => {
                return Err(e);
            },
            Ok(()) => {},
        }
        env.admin = Some(new_admin);
        env.push(Effect::Write(Entry::Admin(new_admin)));
        env.push(Effect::Publish(EscrowEvent::AdminTransferred { new_admin }));
        Ok(())
    }

    /// Get the contract admin.
    pub fn get_admin(env: &EscrowEnv) -> (r: Result<Address, EscrowError>)
        ensures
            r == match env@.admin {
                Some(admin) => Ok::<Address, EscrowError>(admin),
                None => Err(EscrowError::NotInitialized),
            },
    {
        match env.admin {
            Some(admin) => Ok(admin),
            None => Err(EscrowError::NotInitialized),
        }
    }

    // =========================================================================
    // ESCROW SETUP & FUNDING
    // =========================================================================

    /// Create a match escrow and appoint its three Fair Play Arbiters.
    ///
    /// Only the admin can open an escrow. The panel must consist of three
    /// distinct addresses that are not the two players.
    pub fn create_escrow(
        env: &mut EscrowEnv,
        admin: Address,
        match_id: u64,
        token: Address,
        player_a: Address,
        player_b: Address,
        stake: i128,
        arbiter_1: Address,
        arbiter_2: Address,
        arbiter_3: Address,
    ) -> (r: Result<(), EscrowError>)
        requires
            old(env)@.well_formed(),
        ensures
            took(
                *old(env),
                *final(env),
                r,
                created(
                    old(env)@,
                    admin,
                    new_escrow(
                        match_id,
                        token,
                        player_a,
                        player_b,
                        stake,
                        arbiter_1,
                        arbiter_2,
                        arbiter_3,
                    ),
                ),
            ),
            final(env)@.well_formed(),
    {
        env.push(Effect::RequireAuth(admin));
        match Self::check_admin(env, admin) {
            Err(e) => {
                return Err(e);
            },
            Ok(()) => {},
        }
        if env.escrows.get(&match_id).is_some() {
            return Err(EscrowError::EscrowAlreadyExists);
        }
        if stake <= 0 {
            return Err(EscrowError::InvalidAmount);
        }
        if player_a == player_b {
            return Err(EscrowError::InvalidPlayer);
        }
        if arbiter_1 == arbiter_2 || arbiter_1 == arbiter_3 || arbiter_2 == arbiter_3 {
            return Err(EscrowError::InvalidArbiterPanel);
        }
        if arbiter_1 == player_a || arbiter_1 == player_b || arbiter_2 == player_a || arbiter_2
            == player_b || arbiter_3 == player_a || arbiter_3 == player_b {
            return Err(EscrowError::InvalidArbiterPanel);
        }
        let escrow = MatchEscrow {
            match_id,
            token,
            player_a,
            player_b,
            stake,
            pot: 0,
            funded_a: false,
            funded_b: false,
            arbiter_1,
            arbiter_2,
            arbiter_3,
            status: EscrowStatus::AwaitingFunding,
            dispute_started_at: 0,
            arbitration_deadline: 0,
            fallback_deadline: 0,
            votes_for_a: 0,
            votes_for_b: 0,
            votes_for_refund: 0,
            winning_choice: None,
            resolved_at: 0,
        };
        proof {
            lemma_created_keeps(env@, escrow);
        }
        env.store(escrow);
        env.push(
            Effect::Publish(EscrowEvent::Created { match_id, player_a, player_b, stake, token }),
        );
        env.push(
            Effect::Publish(EscrowEvent::Arbiters { match_id, arbiter_1, arbiter_2, arbiter_3 }),
        );
        Ok(())
    }

    /// Deposit a player's stake into the escrow.
    ///
    /// Each player must call this once. When both stakes are locked the escrow
    /// becomes `Funded` and a `ready` event is emitted.
    pub fn fund_escrow(env: &mut EscrowEnv, match_id: u64, player: Address) -> (r: Result<
        (),
        EscrowError,
    >)
        requires
            old(env)@.well_formed(),
            stake_fits(old(env)@, match_id, player),
        ensures
            took(*old(env), *final(env), r, funded(old(env)@, match_id, player)),
            final(env)@.well_formed(),
    {
        let before = match Self::read_escrow(env, match_id) {
            Err(e) => {
                return Err(e);
            },
            Ok(escrow) => escrow,
        };
        let mut escrow = before;
        if escrow.status != EscrowStatus::AwaitingFunding {
            return Err(EscrowError::InvalidStatus);
        }
        let is_a = player == escrow.player_a;
        let is_b = player == escrow.player_b;
        if !is_a && !is_b {
            return Err(EscrowError::NotParticipant);
        }
        if (is_a && escrow.funded_a) || (is_b && escrow.funded_b) {
            return Err(EscrowError::AlreadyFunded);
        }
        env.push(Effect::RequireAuth(player));
        env.push(
            Effect::Transfer {
                token: escrow.token,
                from: player,
                to: env.contract,
                amount: escrow.stake,
            },
        );
        if is_a {
            escrow.funded_a = true;
        } else {
            escrow.funded_b = true;
        }
        escrow.pot = escrow.pot + escrow.stake;
        let both_funded = escrow.funded_a && escrow.funded_b;
        if both_funded {
            escrow.status = EscrowStatus::Funded;
        }
        assert(escrow == with_stake(before, player));
        proof {
            lemma_funded_keeps(env@, match_id, player);
        }
        env.store(escrow);
        env.push(
            Effect::Publish(
                EscrowEvent::Funded { match_id, player, stake: escrow.stake, pot: escrow.pot },
            ),
        );
        if both_funded {
            env.push(Effect::Publish(EscrowEvent::Ready { match_id, pot: escrow.pot }));
        }
        Ok(())
    }

    // =========================================================================
    // UNDISPUTED SETTLEMENT (FROZEN ONCE DISPUTED)
    // =========================================================================

    /// Settle an undisputed match by attesting the winner.
    ///
    /// This is the normal fast path and is deliberately unavailable once a
    /// dispute has been raised: at that point only the arbiter panel may move
    /// the funds.
    pub fn settle_match(
        env: &mut EscrowEnv,
        match_id: u64,
        admin: Address,
        winner: Address,
    ) -> (r: Result<(), EscrowError>)
        requires
            old(env)@.well_formed(),
        ensures
            took(*old(env), *final(env), r, settled(old(env)@, match_id, admin, winner)),
            final(env)@.well_formed(),
    {
        env.push(Effect::RequireAuth(admin));
        match Self::check_admin(env, admin) {
            Err(e) => {
                return Err(e);
            },
            Ok(()) => {},
        }
        let escrow = match Self::read_in_status(env, match_id, EscrowStatus::Funded) {
            Err(e) => {
                return Err(e);
            },
            Ok(escrow) => escrow,
        };
        let choice = if winner == escrow.player_a {
            VoteChoice::PlayerA
        } else if winner == escrow.player_b {
            VoteChoice::PlayerB
        } else {
            return Err(EscrowError::InvalidPlayer);
        };
        Self::close_escrow(env, escrow, choice, EscrowEvent::Settled { match_id, winner });
        Ok(())
    }

    /// Settle an undisputed match as a draw/refund, returning each stake.
    pub fn settle_refund(env: &mut EscrowEnv, match_id: u64, admin: Address) -> (r: Result<
        (),
        EscrowError,
    >)
        requires
            old(env)@.well_formed(),
        ensures
            took(*old(env), *final(env), r, refunded(old(env)@, match_id, admin)),
            final(env)@.well_formed(),
    {
        env.push(Effect::RequireAuth(admin));
        match Self::check_admin(env, admin) {
            Err(e) => {
                return Err(e);
            },
            Ok(()) => {},
        }
        let escrow = match Self::read_in_status(env, match_id, EscrowStatus::Funded) {
            Err(e) => {
                return Err(e);
            },
            Ok(escrow) => escrow,
        };
        let event = EscrowEvent::Refunded {
            match_id,
            player_a: escrow.player_a,
            player_b: escrow.player_b,
            stake: escrow.stake,
        };
        Self::close_escrow(env, escrow, VoteChoice::Refund, event);
        Ok(())
    }

    // =========================================================================
    // DISPUTE & ARBITRATION
    // =========================================================================

    /// Raise a cheating dispute and freeze the payout.
    ///
    /// Callable by either player or the admin. Opens the 48-hour arbitration
    /// window and arms the 7-day time-locked fallback.
    pub fn dispute_match(env: &mut EscrowEnv, match_id: u64, caller: Address) -> (r: Result<
        (),
        EscrowError,
    >)
        requires
            old(env)@.well_formed(),
            deadlines_fit(old(env)@, match_id, caller),
        ensures
            took(*old(env), *final(env), r, disputed(old(env)@, match_id, caller)),
            final(env)@.well_formed(),
    {
        env.push(Effect::RequireAuth(caller));
        let mut escrow = match Self::read_in_status(env, match_id, EscrowStatus::Funded) {
            Err(e) => {
                return Err(e);
            },
            Ok(escrow) => escrow,
        };
        let admin = match Self::get_admin(env) {
            Err(e) => {
                return Err(e);
            },
            Ok(admin) => admin,
        };
        if caller != escrow.player_a && caller != escrow.player_b && admin != caller {
            return Err(EscrowError::NotParticipant);
        }
        let now: u64 = env.now;
        escrow.status = EscrowStatus::Disputed;
        escrow.dispute_started_at = now;
        escrow.arbitration_deadline = now + ARBITRATION_WINDOW_SECS;
        escrow.fallback_deadline = now + FALLBACK_TIMEOUT_SECS;
        assert(escrow == under_dispute(old(env)@.escrows[match_id], now));
        proof {
            lemma_disputed_keeps(env@, match_id);
        }
        env.store(escrow);
        env.push(
            Effect::Publish(
                EscrowEvent::Disputed {
                    match_id,
                    caller,
                    arbitration_deadline: escrow.arbitration_deadline,
                    fallback_deadline: escrow.fallback_deadline,
                },
            ),
        );
        Ok(())
    }

    /// Cast a Fair Play Arbiter's vote on a disputed match.
    ///
    /// Each appointed arbiter may vote once, and only while the 48-hour
    /// arbitration window is open. The vote is an authorised call, so a 2-of-3
    /// majority is a 2-of-3 multi-signature decision.
    pub fn vote(
        env: &mut EscrowEnv,
        match_id: u64,
        arbiter: Address,
        choice: VoteChoice,
    ) -> (r: Result<(), EscrowError>)
        requires
            old(env)@.well_formed(),
        ensures
            took(*old(env), *final(env), r, voted(old(env)@, match_id, arbiter, choice)),
            final(env)@.well_formed(),
    {
        env.push(Effect::RequireAuth(arbiter));
        let mut escrow = match Self::read_in_status(env, match_id, EscrowStatus::Disputed) {
            Err(e) => {
                return Err(e);
            },
            Ok(escrow) => escrow,
        };
        if !Self::is_arbiter(&escrow, arbiter) {
            return Err(EscrowError::UnauthorizedArbiter);
        }
        if env.now >= escrow.arbitration_deadline {
            return Err(EscrowError::ArbitrationWindowClosed);
        }
        if env.votes.get(&(match_id, arbiter)).is_some() {
            return Err(EscrowError::AlreadyVoted);
        }
        proof {
            lemma_tallies_small(env@, match_id);
            lemma_voted_keeps(env@, match_id, arbiter, choice);
        }
        env.votes.set((match_id, arbiter), choice);
        env.push(Effect::Write(Entry::ArbiterVote(match_id, arbiter, choice)));
        match choice {
            VoteChoice::PlayerA => {
                escrow.votes_for_a = escrow.votes_for_a + 1;
            },
            VoteChoice::PlayerB => {
                escrow.votes_for_b = escrow.votes_for_b + 1;
            },
            VoteChoice::Refund => {
                escrow.votes_for_refund = escrow.votes_for_refund + 1;
            },
        }
        assert(escrow == with_vote(old(env)@.escrows[match_id], choice));
        env.store(escrow);
        env.push(
            Effect::Publish(
                EscrowEvent::Voted {
                    match_id,
                    arbiter,
                    choice: choice.code(),
                    votes_for_a: escrow.votes_for_a,
                    votes_for_b: escrow.votes_for_b,
                    votes_for_refund: escrow.votes_for_refund,
                },
            ),
        );
        Ok(())
    }

    /// Execute the arbiters' decision once a 2-of-3 majority exists.
    ///
    /// Callable by the admin, either player, or one of the arbiters. Fails
    /// with [`EscrowError::ThresholdNotMet`] while fewer than two arbiters
    /// agree, which is what prevents an early release.
    pub fn resolve_dispute(env: &mut EscrowEnv, match_id: u64, caller: Address) -> (r: Result<
        (),
        EscrowError,
    >)
        requires
            old(env)@.well_formed(),
        ensures
            took(*old(env), *final(env), r, resolved(old(env)@, match_id, caller)),
            final(env)@.well_formed(),
    {
        env.push(Effect::RequireAuth(caller));
        let escrow = match Self::read_in_status(env, match_id, EscrowStatus::Disputed) {
            Err(e) => {
                return Err(e);
            },
            Ok(escrow) => escrow,
        };
        let admin = match Self::get_admin(env) {
            Err(e) => {
                return Err(e);
            },
            Ok(admin) => admin,
        };
        let allowed = admin == caller || caller == escrow.player_a || caller == escrow.player_b
            || Self::is_arbiter(&escrow, caller);
        if !allowed {
            return Err(EscrowError::Unauthorized);
        }
        let choice = match Self::quorum_choice(&escrow) {
            Some(choice) => choice,
            None => {
                return Err(EscrowError::ThresholdNotMet);
            },
        };
        let event = EscrowEvent::Resolved { match_id, choice: choice.code(), caller };
        Self::close_escrow(env, escrow, choice, event);
        Ok(())
    }

    /// Time-locked fallback: if the arbiters failed to reach a 2-of-3 majority
    /// within 7 days of the dispute, refund each player their original stake.
    ///
    /// Permissionless by design: anyone can unwind a stalled arbitration as
    /// long as the timelock has elapsed and no majority exists.
    pub fn execute_fallback(env: &mut EscrowEnv, match_id: u64, caller: Address) -> (r: Result<
        (),
        EscrowError,
    >)
        requires
            old(env)@.well_formed(),
        ensures
            took(*old(env), *final(env), r, fallen_back(old(env)@, match_id, caller)),
            final(env)@.well_formed(),
    {
        env.push(Effect::RequireAuth(caller));
        let escrow = match Self::read_in_status(env, match_id, EscrowStatus::Disputed) {
            Err(e) => {
                return Err(e);
            },
            Ok(escrow) => escrow,
        };
        if env.now < escrow.fallback_deadline {
            return Err(EscrowError::FallbackNotElapsed);
        }
        if Self::quorum_choice(&escrow).is_some() {
            return Err(EscrowError::ResolutionAvailable);
        }
        let event = EscrowEvent::FallbackExecuted {
            match_id,
            player_a: escrow.player_a,
            player_b: escrow.player_b,
            stake: escrow.stake,
        };
        Self::close_escrow(env, escrow, VoteChoice::Refund, event);
        Ok(())
    }

    // =========================================================================
    // VIEWS
    // =========================================================================

    /// Get the full escrow record for a match.
    pub fn get_escrow(env: &EscrowEnv, match_id: u64) -> (r: Option<MatchEscrow>)
        ensures
            r == if env@.escrows.dom().contains(match_id) {
                Some(env@.escrows[match_id])
            } else {
                None
            },
    {
        match env.escrows.get(&match_id) {
            Some(escrow) => Some(*escrow),
            None => None,
        }
    }

    /// Get the vote an arbiter recorded for a match, if any.
    pub fn get_vote(env: &EscrowEnv, match_id: u64, arbiter: Address) -> (r: Option<VoteChoice>)
        ensures
            r == if env@.votes.dom().contains((match_id, arbiter)) {
                Some(env@.votes[(match_id, arbiter)])
            } else {
                None
            },
    {
        match env.votes.get(&(match_id, arbiter)) {
            Some(choice) => Some(*choice),
            None => None,
        }
    }

    /// The 48-hour arbitration window, in seconds.
    pub fn arbitration_window(_env: &EscrowEnv) -> (r: u64)
        ensures
            r == 48 * 60 * 60,
    {
        ARBITRATION_WINDOW_SECS
    }

    /// The 7-day fallback timelock, in seconds.
    pub fn fallback_timeout(_env: &EscrowEnv) -> (r: u64)
        ensures
            r == 7 * 24 * 60 * 60,
    {
        FALLBACK_TIMEOUT_SECS
    }

    /// Votes required to settle a dispute (2-of-3).
    pub fn quorum(_env: &EscrowEnv) -> (r: u32)
        ensures
            r == 2,
    {
        QUORUM
    }

    /// Number of arbiters appointed per match.
    pub fn arbiter_count(_env: &EscrowEnv) -> (r: u32)
        ensures
            r == 3,
    {
        ARBITER_COUNT
    }

    // =========================================================================
    // INTERNAL HELPERS
    // =========================================================================

    fn check_admin(env: &EscrowEnv, caller: Address) -> (r: Result<(), EscrowError>)
        ensures
            match r {
                Ok(()) => admin_fault(env@, caller) is None,
                Err(e) => admin_fault(env@, caller) == Some(e),
            },
    {
        match Self::get_admin(env) {
            Err(e) => Err(e),
            Ok(admin) => if admin != caller {
                Err(EscrowError::NotAdmin)
            } else {
                Ok(())
            },
        }
    }

    fn read_escrow(env: &EscrowEnv, match_id: u64) -> (r: Result<MatchEscrow, EscrowError>)
        ensures
            match r {
                Ok(escrow) => env@.escrows.dom().contains(match_id) && escrow
                    == env@.escrows[match_id],
                Err(e) => !env@.escrows.dom().contains(match_id) && e
                    == EscrowError::EscrowNotFound,
            },
    {
        match env.escrows.get(&match_id) {
            Some(escrow) => Ok(*escrow),
            None => Err(EscrowError::EscrowNotFound),
        }
    }

    fn read_in_status(env: &EscrowEnv, match_id: u64, status: EscrowStatus) -> (r: Result<
        MatchEscrow,
        EscrowError,
    >)
        ensures
            match r {
                Ok(escrow) => status_fault(env@, match_id, status) is None && escrow
                    == env@.escrows[match_id] && env@.escrows.dom().contains(match_id),
                Err(e) => status_fault(env@, match_id, status) == Some(e),
            },
    {
        match Self::read_escrow(env, match_id) {
            Err(e) => Err(e),
            Ok(escrow) => if escrow.status != status {
                Err(EscrowError::InvalidStatus)
            } else {
                Ok(escrow)
            },
        }
    }

    fn is_arbiter(escrow: &MatchEscrow, who: Address) -> (r: bool)
        ensures
            r == on_panel(*escrow, who),
    {
        who == escrow.arbiter_1 || who == escrow.arbiter_2 || who == escrow.arbiter_3
    }

    /// Returns the outcome that has reached the 2-of-3 threshold, if any.
    fn quorum_choice(escrow: &MatchEscrow) -> (r: Option<VoteChoice>)
        ensures
            r == majority(*escrow),
    {
        if escrow.votes_for_a >= QUORUM {
            Some(VoteChoice::PlayerA)
        } else if escrow.votes_for_b >= QUORUM {
            Some(VoteChoice::PlayerB)
        } else if escrow.votes_for_refund >= QUORUM {
            Some(VoteChoice::Refund)
        } else {
            None
        }
    }

    fn pay(env: &mut EscrowEnv, escrow: &MatchEscrow, to: Address, amount: i128)
        ensures
            final(env)@ == old(env)@,
            final(env).effects@ == old(env).effects@.push(payment(old(env)@, *escrow, to, amount)),
    {
        env.push(Effect::Transfer { token: escrow.token, from: env.contract, to, amount });
    }

    fn announce(env: &mut EscrowEnv, escrow: &MatchEscrow, to: Address, amount: i128)
        ensures
            final(env)@ == old(env)@,
            final(env).effects@ == old(env).effects@.push(payout(*escrow, to, amount)),
    {
        env.push(Effect::Publish(EscrowEvent::Payout { match_id: escrow.match_id, to, amount }));
    }

    /// Move the escrowed funds according to `choice` and emit a `payout` event
    /// per recipient for on-chain transparency.
    fn release(env: &mut EscrowEnv, escrow: &MatchEscrow, choice: VoteChoice)
        ensures
            final(env)@ == old(env)@,
            final(env).effects@ == old(env).effects@ + release_script(old(env)@, *escrow, choice),
    {
        match choice {
            VoteChoice::PlayerA => {
                Self::pay(env, escrow, escrow.player_a, escrow.pot);
                Self::announce(env, escrow, escrow.player_a, escrow.pot);
            },
            VoteChoice::PlayerB => {
                Self::pay(env, escrow, escrow.player_b, escrow.pot);
                Self::announce(env, escrow, escrow.player_b, escrow.pot);
            },
            VoteChoice::Refund => {
                Self::pay(env, escrow, escrow.player_a, escrow.stake);
                Self::pay(env, escrow, escrow.player_b, escrow.stake);
                Self::announce(env, escrow, escrow.player_a, escrow.stake);
                Self::announce(env, escrow, escrow.player_b, escrow.stake);
            },
        }
    }

    /// Pays out an escrow, stores it as resolved and announces it.
    fn close_escrow(
        env: &mut EscrowEnv,
        escrow: MatchEscrow,
        choice: VoteChoice,
        event: EscrowEvent,
    )
        requires
            old(env)@.well_formed(),
            old(env)@.escrows.dom().contains(escrow.match_id),
            old(env)@.escrows[escrow.match_id] == escrow,
            escrow.status == EscrowStatus::Funded || escrow.status == EscrowStatus::Disputed,
        ensures
            final(env)@ == close(old(env)@, seq![], escrow, choice, event).state,
            final(env).effects@ == old(env).effects@ + release_script(old(env)@, escrow, choice)
                + seq![
                Effect::Write(Entry::Escrow(closed_with(escrow, choice, old(env)@.now))),
                Effect::Publish(event),
            ],
            final(env)@.well_formed(),
    {
        proof {
            lemma_closed_keeps(env@, escrow.match_id, choice);
        }
        Self::release(env, &escrow, choice);
        let mut done = escrow;
        done.status = EscrowStatus::Resolved;
        done.winning_choice = Some(choice);
        done.resolved_at = env.now;
        env.store(done);
        env.push(Effect::Publish(event));
    }
}

// =============================================================================
// THE INVARIANT IS KEPT
// =============================================================================

/// Tallies count the votes of three arbiters.
pub proof fn lemma_tallies_small(s: State, match_id: u64)
    requires
        s.well_formed(),
        s.escrows.dom().contains(match_id),
    ensures
        s.escrows[match_id].votes_for_a + s.escrows[match_id].votes_for_b
            + s.escrows[match_id].votes_for_refund <= ARBITER_COUNT,
{
}

pub proof fn lemma_created_keeps(s: State, e: MatchEscrow)
    requires
        s.well_formed(),
        s.admin is Some,
        terms_fault(s, e) is None,
        e == new_escrow(
            e.match_id,
            e.token,
            e.player_a,
            e.player_b,
            e.stake,
            e.arbiter_1,
            e.arbiter_2,
            e.arbiter_3,
        ),
    ensures
        with_escrow(s, e).well_formed(),
{
    let t = with_escrow(s, e);
    assert(e.stake * sides_funded(e) == 0) by (nonlinear_arith)
        requires
            sides_funded(e) == 0,
    ;
    assert forall|id: u64, arbiter: Address| #[trigger]
        t.votes.dom().contains((id, arbiter)) implies t.escrows.dom().contains(id) && on_panel(
        t.escrows[id],
        arbiter,
    ) && t.escrows[id].arbitration_deadline != 0 by {
        assert(s.votes.dom().contains((id, arbiter)));
    }
    assert forall|id: u64| #[trigger] t.escrows.dom().contains(id) implies {
        let x = t.escrows[id];
        &&& x.match_id == id
        &&& escrow_well_formed(x)
        &&& x.votes_for_a == tally(t, x, VoteChoice::PlayerA)
        &&& x.votes_for_b == tally(t, x, VoteChoice::PlayerB)
        &&& x.votes_for_refund == tally(t, x, VoteChoice::Refund)
        &&& t.admin is Some
    } by {
        if id != e.match_id {
            assert(s.escrows.dom().contains(id));
        } else {
            assert(!s.votes.dom().contains((id, e.arbiter_1)));
            assert(!s.votes.dom().contains((id, e.arbiter_2)));
            assert(!s.votes.dom().contains((id, e.arbiter_3)));
        }
    }
}

/// Replacing an escrow keeps the invariant when its panel and tallies stay and
/// the new record is well formed.
proof fn lemma_replaced_keeps(s: State, e: MatchEscrow)
    requires
        s.well_formed(),
        s.escrows.dom().contains(e.match_id),
        escrow_well_formed(e),
        ({
            let before = s.escrows[e.match_id];
            &&& e.arbiter_1 == before.arbiter_1
            &&& e.arbiter_2 == before.arbiter_2
            &&& e.arbiter_3 == before.arbiter_3
            &&& e.votes_for_a == before.votes_for_a
            &&& e.votes_for_b == before.votes_for_b
            &&& e.votes_for_refund == before.votes_for_refund
            &&& before.arbitration_deadline != 0 ==> e.arbitration_deadline != 0
        }),
    ensures
        with_escrow(s, e).well_formed(),
{
    let t = with_escrow(s, e);
    assert forall|id: u64, arbiter: Address| #[trigger]
        t.votes.dom().contains((id, arbiter)) implies t.escrows.dom().contains(id) && on_panel(
        t.escrows[id],
        arbiter,
    ) && t.escrows[id].arbitration_deadline != 0 by {
        assert(s.votes.dom().contains((id, arbiter)));
    }
    assert forall|id: u64| #[trigger] t.escrows.dom().contains(id) implies {
        let x = t.escrows[id];
        &&& x.match_id == id
        &&& escrow_well_formed(x)
        &&& x.votes_for_a == tally(t, x, VoteChoice::PlayerA)
        &&& x.votes_for_b == tally(t, x, VoteChoice::PlayerB)
        &&& x.votes_for_refund == tally(t, x, VoteChoice::Refund)
        &&& t.admin is Some
    } by {
        assert(s.escrows.dom().contains(id));
    }
}

pub proof fn lemma_funded_keeps(s: State, match_id: u64, player: Address)
    requires
        s.well_formed(),
        funding_fault(s, match_id, player) is None,
        stake_fits(s, match_id, player),
    ensures
        with_escrow(s, with_stake(s.escrows[match_id], player)).well_formed(),
{
    let before = s.escrows[match_id];
    let e = with_stake(before, player);
    assert(e.pot == e.stake * sides_funded(e)) by (nonlinear_arith)
        requires
            e.pot == before.pot + before.stake,
            e.stake == before.stake,
            before.pot == before.stake * sides_funded(before),
            sides_funded(e) == sides_funded(before) + 1,
    ;
    lemma_replaced_keeps(s, e);
}

pub proof fn lemma_disputed_keeps(s: State, match_id: u64)
    requires
        s.well_formed(),
        status_fault(s, match_id, EscrowStatus::Funded) is None,
        s.now + FALLBACK_TIMEOUT_SECS <= u64::MAX,
    ensures
        with_escrow(s, under_dispute(s.escrows[match_id], s.now)).well_formed(),
{
    lemma_replaced_keeps(s, under_dispute(s.escrows[match_id], s.now));
}

pub proof fn lemma_closed_keeps(s: State, match_id: u64, choice: VoteChoice)
    requires
        s.well_formed(),
        s.escrows.dom().contains(match_id),
        s.escrows[match_id].status == EscrowStatus::Funded || s.escrows[match_id].status
            == EscrowStatus::Disputed,
    ensures
        with_escrow(s, closed_with(s.escrows[match_id], choice, s.now)).well_formed(),
{
    lemma_replaced_keeps(s, closed_with(s.escrows[match_id], choice, s.now));
}

pub proof fn lemma_voted_keeps(s: State, match_id: u64, arbiter: Address, choice: VoteChoice)
    requires
        s.well_formed(),
        vote_fault(s, match_id, arbiter) is None,
    ensures
        voted(s, match_id, arbiter, choice).state.well_formed(),
{
    let t = voted(s, match_id, arbiter, choice).state;
    let before = s.escrows[match_id];
    lemma_tallies_small(s, match_id);
    assert forall|id: u64, who: Address| #[trigger] t.votes.dom().contains((id, who)) implies {
        &&& t.escrows.dom().contains(id)
        &&& on_panel(t.escrows[id], who)
        &&& t.escrows[id].arbitration_deadline != 0
    } by {
        if (id, who) != (match_id, arbiter) {
            assert(s.votes.dom().contains((id, who)));
        }
    }
    assert forall|id: u64| #[trigger] t.escrows.dom().contains(id) implies {
        let x = t.escrows[id];
        &&& x.match_id == id
        &&& escrow_well_formed(x)
        &&& x.votes_for_a == tally(t, x, VoteChoice::PlayerA)
        &&& x.votes_for_b == tally(t, x, VoteChoice::PlayerB)
        &&& x.votes_for_refund == tally(t, x, VoteChoice::Refund)
        &&& t.admin is Some
    } by {
        assert(s.escrows.dom().contains(id));
        if id != match_id {
            let x = s.escrows[id];
            assert(forall|who: Address, c: VoteChoice|
                voted_for(t, id, who, c) == voted_for(s, id, who, c));
        }
    }
}

} // verus!
