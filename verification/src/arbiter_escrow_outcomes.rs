//! What each call of the escrow contract is for: on which storage it succeeds,
//! what it then leaves on record, and whom it pays.

use vstd::prelude::*;

use crate::arbiter_escrow::{
    admin_transferred, close, closed_with, created, deadlines_fit, disputed, fallen_back, funded,
    initialized, lemma_tallies_small, loaded, new_escrow, refunded, release_script, resolved,
    settled, stake_fits, voted, Entry, EscrowError, EscrowEvent, EscrowStatus, MatchEscrow, State,
    Step, StoredEscrow, VoteChoice, ARBITER_COUNT, ARBITRATION_WINDOW_SECS, FALLBACK_TIMEOUT_SECS,
    QUORUM,
};
use crate::host::{Address, Effect};

verus! {

// ---------------------------------------------------------------------------
// Votes and decisions
// ---------------------------------------------------------------------------

/// Whether somebody's vote for an outcome is on record.
pub open spec fn backs(s: State, id: u64, who: Address, choice: VoteChoice) -> bool {
    s.votes.dom().contains((id, who)) && s.votes[(id, who)] == choice
}

/// Whether two different arbiters have voted for an outcome.
pub open spec fn backed_twice(s: State, id: u64, choice: VoteChoice) -> bool {
    exists|first: Address, second: Address|
        first != second && #[trigger] backs(s, id, first, choice) && #[trigger] backs(
            s,
            id,
            second,
            choice,
        )
}

/// The deadlines and numbers of the contract: 48 hours to vote, 7 days until the
/// fallback, two votes of three.
pub proof fn law_terms_of_arbitration()
    ensures
        ARBITRATION_WINDOW_SECS == 48 * 60 * 60,
        FALLBACK_TIMEOUT_SECS == 7 * 24 * 60 * 60,
        QUORUM == 2,
        ARBITER_COUNT == 3,
{
}

/// Two votes decide: once two different arbiters have voted for an outcome, the
/// admin, either player and each arbiter can have it executed, and that outcome
/// is the one that goes on record.
pub proof fn law_two_votes_decide(
    s: State,
    id: u64,
    caller: Address,
    first: Address,
    second: Address,
    choice: VoteChoice,
)
    requires
        s.well_formed(),
        s.escrows.dom().contains(id),
        s.escrows[id].status == EscrowStatus::Disputed,
        first != second,
        backs(s, id, first, choice),
        backs(s, id, second, choice),
        ({
            let e = s.escrows[id];
            ||| s.admin == Some(caller)
            ||| caller == e.player_a
            ||| caller == e.player_b
            ||| caller == e.arbiter_1
            ||| caller == e.arbiter_2
            ||| caller == e.arbiter_3
        }),
    ensures
        resolved(s, id, caller).result is Ok,
        resolved(s, id, caller).state.escrows[id].winning_choice == Some(choice),
        resolved(s, id, caller).effects.contains(
            Effect::Publish(
                EscrowEvent::Resolved {
                    match_id: id,
                    choice: match choice {
                        VoteChoice::PlayerA => 1,
                        VoteChoice::PlayerB => 2,
                        VoteChoice::Refund => 3,
                    },
                    caller,
                },
            ),
        ),
{
    lemma_tallies_small(s, id);
    let step = resolved(s, id, caller);
    assert(step.effects.last() == step.effects[step.effects.len() - 1]);
}

/// Decisions have two votes behind them: what is executed is an outcome that two
/// different arbiters voted for, of a disputed match, at the request of somebody
/// concerned.
pub proof fn law_decisions_have_two_votes(s: State, id: u64, caller: Address)
    requires
        s.well_formed(),
        resolved(s, id, caller).result is Ok,
    ensures
        s.escrows.dom().contains(id),
        s.escrows[id].status == EscrowStatus::Disputed,
        ({
            let e = s.escrows[id];
            ||| s.admin == Some(caller)
            ||| caller == e.player_a
            ||| caller == e.player_b
            ||| caller == e.arbiter_1
            ||| caller == e.arbiter_2
            ||| caller == e.arbiter_3
        }),
        resolved(s, id, caller).state.escrows[id].winning_choice matches Some(choice)
            && backed_twice(s, id, choice),
{
    let e = s.escrows[id];
    assert(e.match_id == id);
    lemma_backed_twice(s, id, VoteChoice::PlayerA);
    lemma_backed_twice(s, id, VoteChoice::PlayerB);
    lemma_backed_twice(s, id, VoteChoice::Refund);
}

/// The tally of an outcome reaches two exactly when two different arbiters have
/// voted for it.
proof fn lemma_backed_twice(s: State, id: u64, choice: VoteChoice)
    requires
        s.well_formed(),
        s.escrows.dom().contains(id),
    ensures
        backed_twice(s, id, choice) <==> (match choice {
            VoteChoice::PlayerA => s.escrows[id].votes_for_a,
            VoteChoice::PlayerB => s.escrows[id].votes_for_b,
            VoteChoice::Refund => s.escrows[id].votes_for_refund,
        }) >= 2,
{
    let e = s.escrows[id];
    assert(e.match_id == id);
    if backs(s, id, e.arbiter_1, choice) && backs(s, id, e.arbiter_2, choice) {
    } else if backs(s, id, e.arbiter_1, choice) && backs(s, id, e.arbiter_3, choice) {
    } else if backs(s, id, e.arbiter_2, choice) && backs(s, id, e.arbiter_3, choice) {
    }
}

/// Why a decision is not executed: there is no such match, it is not disputed,
/// the caller is not concerned, or no outcome has two votes, in this order.
pub proof fn law_refused_resolutions(s: State, id: u64, caller: Address)
    requires
        s.well_formed(),
    ensures
        ({
            let e = s.escrows[id];
            let concerned = {
                ||| s.admin == Some(caller)
                ||| caller == e.player_a
                ||| caller == e.player_b
                ||| caller == e.arbiter_1
                ||| caller == e.arbiter_2
                ||| caller == e.arbiter_3
            };
            let decided = {
                ||| backed_twice(s, id, VoteChoice::PlayerA)
                ||| backed_twice(s, id, VoteChoice::PlayerB)
                ||| backed_twice(s, id, VoteChoice::Refund)
            };
            resolved(s, id, caller).result == if !s.escrows.dom().contains(id) {
                Err::<(), EscrowError>(EscrowError::EscrowNotFound)
            } else if e.status != EscrowStatus::Disputed {
                Err(EscrowError::InvalidStatus)
            } else if !concerned {
                Err(EscrowError::Unauthorized)
            } else if !decided {
                Err(EscrowError::ThresholdNotMet)
            } else {
                Ok(())
            }
        }),
{
    if s.escrows.dom().contains(id) {
        assert(s.escrows[id].match_id == id);
        lemma_backed_twice(s, id, VoteChoice::PlayerA);
        lemma_backed_twice(s, id, VoteChoice::PlayerB);
        lemma_backed_twice(s, id, VoteChoice::Refund);
    }
}

/// A vote counts once, for what it says: the three arbiters of a disputed match
/// can each vote, once, for 48 hours from the dispute, and a vote adds one to
/// the tally of its outcome and to no other.
pub proof fn law_votes_count_for_what_they_say(
    s: State,
    id: u64,
    arbiter: Address,
    choice: VoteChoice,
)
    requires
        s.well_formed(),
    ensures
        ({
            let e = s.escrows[id];
            let step = voted(s, id, arbiter, choice);
            step.result == if !s.escrows.dom().contains(id) {
                Err::<(), EscrowError>(EscrowError::EscrowNotFound)
            } else if e.status != EscrowStatus::Disputed {
                Err(EscrowError::InvalidStatus)
            } else if arbiter != e.arbiter_1 && arbiter != e.arbiter_2 && arbiter != e.arbiter_3 {
                Err(EscrowError::UnauthorizedArbiter)
            } else if s.now >= e.dispute_started_at + 48 * 60 * 60 {
                Err(EscrowError::ArbitrationWindowClosed)
            } else if s.votes.dom().contains((id, arbiter)) {
                Err(EscrowError::AlreadyVoted)
            } else {
                Ok(())
            }
        }),
        voted(s, id, arbiter, choice).result is Ok ==> {
            let e = s.escrows[id];
            let after = voted(s, id, arbiter, choice).state;
            let f = after.escrows[id];
            &&& backs(after, id, arbiter, choice)
            &&& after.votes.remove((id, arbiter)) == s.votes.remove((id, arbiter))
            &&& f.votes_for_a == e.votes_for_a + (if choice is PlayerA {
                1int
            } else {
                0
            })
            &&& f.votes_for_b == e.votes_for_b + (if choice is PlayerB {
                1int
            } else {
                0
            })
            &&& f.votes_for_refund == e.votes_for_refund + (if choice is Refund {
                1int
            } else {
                0
            })
            &&& f == (MatchEscrow {
                votes_for_a: f.votes_for_a,
                votes_for_b: f.votes_for_b,
                votes_for_refund: f.votes_for_refund,
                ..e
            })
            &&& after.admin == s.admin
            &&& voted(s, id, arbiter, choice).effects == seq![
                Effect::RequireAuth(arbiter),
                Effect::Write(Entry::ArbiterVote(id, arbiter, choice)),
                Effect::Write(Entry::Escrow(f)),
                Effect::Publish(
                    EscrowEvent::Voted {
                        match_id: id,
                        arbiter,
                        choice: match choice {
                            VoteChoice::PlayerA => 1,
                            VoteChoice::PlayerB => 2,
                            VoteChoice::Refund => 3,
                        },
                        votes_for_a: f.votes_for_a,
                        votes_for_b: f.votes_for_b,
                        votes_for_refund: f.votes_for_refund,
                    },
                ),
            ]
        },
{
    if s.escrows.dom().contains(id) {
        assert(s.escrows[id].match_id == id);
        lemma_tallies_small(s, id);
    }
    if voted(s, id, arbiter, choice).result is Ok {
        let after = voted(s, id, arbiter, choice).state;
        assert(after.votes.remove((id, arbiter)) =~= s.votes.remove((id, arbiter)));
    }
}

/// The fallback: anyone can undo a disputed match from 7 days after the dispute
/// on, unless two arbiters agree on an outcome.
pub proof fn law_fallback_undoes_stalled_disputes(s: State, id: u64, caller: Address)
    requires
        s.well_formed(),
    ensures
        ({
            let e = s.escrows[id];
            let decided = {
                ||| backed_twice(s, id, VoteChoice::PlayerA)
                ||| backed_twice(s, id, VoteChoice::PlayerB)
                ||| backed_twice(s, id, VoteChoice::Refund)
            };
            fallen_back(s, id, caller).result == if !s.escrows.dom().contains(id) {
                Err::<(), EscrowError>(EscrowError::EscrowNotFound)
            } else if e.status != EscrowStatus::Disputed {
                Err(EscrowError::InvalidStatus)
            } else if s.now < e.dispute_started_at + 7 * 24 * 60 * 60 {
                Err(EscrowError::FallbackNotElapsed)
            } else if decided {
                Err(EscrowError::ResolutionAvailable)
            } else {
                Ok(())
            }
        }),
        fallen_back(s, id, caller).result is Ok ==> {
            &&& fallen_back(s, id, caller).state.escrows[id].winning_choice == Some(
                VoteChoice::Refund,
            )
            &&& fallen_back(s, id, caller).effects.contains(
                Effect::Publish(
                    EscrowEvent::FallbackExecuted {
                        match_id: id,
                        player_a: s.escrows[id].player_a,
                        player_b: s.escrows[id].player_b,
                        stake: s.escrows[id].stake,
                    },
                ),
            )
        },
{
    if s.escrows.dom().contains(id) {
        assert(s.escrows[id].match_id == id);
        lemma_backed_twice(s, id, VoteChoice::PlayerA);
        lemma_backed_twice(s, id, VoteChoice::PlayerB);
        lemma_backed_twice(s, id, VoteChoice::Refund);
    }
    let step = fallen_back(s, id, caller);
    if step.result is Ok {
        assert(step.effects.last() == step.effects[step.effects.len() - 1]);
    }
}

// ---------------------------------------------------------------------------
// Opening, funding, settling and disputing
// ---------------------------------------------------------------------------

/// The admin is set once, by the initialization, and hands the role on to
/// whomever they name.
pub proof fn law_the_admin_is_who_was_named(s: State, who: Address, next: Address)
    ensures
        initialized(s, who).result == if s.admin is Some {
            Err::<(), EscrowError>(EscrowError::AlreadyInitialized)
        } else {
            Ok(())
        },
        s.admin is None ==> initialized(s, who).state == (State { admin: Some(who), ..s }),
        s.admin is None ==> initialized(s, who).effects.contains(
            Effect::Publish(EscrowEvent::Init { admin: who }),
        ),
        admin_transferred(s, who, next).result == match s.admin {
            None => Err::<(), EscrowError>(EscrowError::NotInitialized),
            Some(admin) => if admin == who {
                Ok(())
            } else {
                Err(EscrowError::NotAdmin)
            },
        },
        s.admin == Some(who) ==> admin_transferred(s, who, next).state == (State {
            admin: Some(next),
            ..s
        }),
        s.admin == Some(who) ==> admin_transferred(s, who, next).effects.contains(
            Effect::Publish(EscrowEvent::AdminTransferred { new_admin: next }),
        ),
{
    if s.admin is None {
        assert(initialized(s, who).effects[1] == Effect::<Entry, EscrowEvent>::Publish(
            EscrowEvent::Init { admin: who },
        ));
    }
    if s.admin == Some(who) {
        assert(admin_transferred(s, who, next).effects[2] == Effect::<Entry, EscrowEvent>::Publish(
            EscrowEvent::AdminTransferred { new_admin: next },
        ));
    }
}

/// An escrow is opened by the admin, under a new match id, for a positive stake
/// of two different players before three different arbiters who do not play; it
/// then stands on record with these terms, without money, dispute or outcome.
pub proof fn law_escrows_open_on_their_terms(
    s: State,
    admin: Address,
    id: u64,
    token: Address,
    a: Address,
    b: Address,
    stake: i128,
    x: Address,
    y: Address,
    z: Address,
)
    ensures
        ({
            let step = created(s, admin, new_escrow(id, token, a, b, stake, x, y, z));
            &&& step.result == if s.admin is None {
                Err::<(), EscrowError>(EscrowError::NotInitialized)
            } else if s.admin != Some(admin) {
                Err(EscrowError::NotAdmin)
            } else if s.escrows.dom().contains(id) {
                Err(EscrowError::EscrowAlreadyExists)
            } else if stake <= 0 {
                Err(EscrowError::InvalidAmount)
            } else if a == b {
                Err(EscrowError::InvalidPlayer)
            } else if x == y || x == z || y == z || x == a || x == b || y == a || y == b || z == a
                || z == b {
                Err(EscrowError::InvalidArbiterPanel)
            } else {
                Ok(())
            }
            &&& step.result is Ok ==> {
                let e = step.state.escrows[id];
                &&& step.state == (State { escrows: s.escrows.insert(id, e), ..s })
                &&& (e.match_id, e.token, e.stake) == (id, token, stake)
                &&& (e.player_a, e.player_b) == (a, b)
                &&& (e.arbiter_1, e.arbiter_2, e.arbiter_3) == (x, y, z)
                &&& e.pot == 0 && !e.funded_a && !e.funded_b
                &&& e.status == EscrowStatus::AwaitingFunding
                &&& e.dispute_started_at == 0
                &&& e.arbitration_deadline == 0
                &&& e.fallback_deadline == 0
                &&& e.votes_for_a == 0 && e.votes_for_b == 0 && e.votes_for_refund == 0
                &&& e.winning_choice is None
                &&& e.resolved_at == 0
                &&& step.effects == seq![
                    Effect::RequireAuth(admin),
                    Effect::Write(Entry::Escrow(e)),
                    Effect::Publish(
                        EscrowEvent::Created {
                            match_id: id,
                            player_a: a,
                            player_b: b,
                            stake,
                            token,
                        },
                    ),
                    Effect::Publish(
                        EscrowEvent::Arbiters {
                            match_id: id,
                            arbiter_1: x,
                            arbiter_2: y,
                            arbiter_3: z,
                        },
                    ),
                ]
            }
        }),
{
}

/// Each player pays the stake once: the money moves from the player to the
/// contract, in the escrow's token, and the second payment makes the match live.
pub proof fn law_stakes_are_paid_once_each(s: State, id: u64, player: Address)
    requires
        s.well_formed(),
        stake_fits(s, id, player),
    ensures
        ({
            let e = s.escrows[id];
            let step = funded(s, id, player);
            &&& step.result == if !s.escrows.dom().contains(id) {
                Err::<(), EscrowError>(EscrowError::EscrowNotFound)
            } else if e.status != EscrowStatus::AwaitingFunding {
                Err(EscrowError::InvalidStatus)
            } else if player != e.player_a && player != e.player_b {
                Err(EscrowError::NotParticipant)
            } else if (player == e.player_a && e.funded_a) || (player == e.player_b
                && e.funded_b) {
                Err(EscrowError::AlreadyFunded)
            } else {
                Ok(())
            }
            &&& step.result is Ok ==> {
                let f = step.state.escrows[id];
                &&& step.state == (State { escrows: s.escrows.insert(id, f), ..s })
                &&& f == (MatchEscrow {
                    pot: f.pot,
                    funded_a: f.funded_a,
                    funded_b: f.funded_b,
                    status: f.status,
                    ..e
                })
                &&& f.pot == e.pot + e.stake
                &&& f.funded_a <==> e.funded_a || player == e.player_a
                &&& f.funded_b <==> e.funded_b || player == e.player_b
                &&& f.status == if f.funded_a && f.funded_b {
                    EscrowStatus::Funded
                } else {
                    EscrowStatus::AwaitingFunding
                }
                &&& step.effects.take(4) == seq![
                    Effect::RequireAuth(player),
                    Effect::Transfer {
                        token: e.token,
                        from: player,
                        to: s.contract,
                        amount: e.stake,
                    },
                    Effect::Write(Entry::Escrow(f)),
                    Effect::Publish(
                        EscrowEvent::Funded {
                            match_id: id,
                            player,
                            stake: e.stake,
                            pot: f.pot,
                        },
                    ),
                ]
                &&& step.effects.skip(4) == if f.funded_a && f.funded_b {
                    seq![
                        Effect::<Entry, EscrowEvent>::Publish(
                            EscrowEvent::Ready { match_id: id, pot: f.pot },
                        ),
                    ]
                } else {
                    seq![]
                }
            }
        }),
{
    if s.escrows.dom().contains(id) {
        assert(s.escrows[id].match_id == id);
    }
}

/// The admin settles a funded match that nobody disputes: for the player they
/// name as the winner, or for both.
pub proof fn law_the_admin_settles_funded_matches(
    s: State,
    id: u64,
    admin: Address,
    winner: Address,
)
    requires
        s.well_formed(),
    ensures
        ({
            let e = s.escrows[id];
            let fault = if s.admin is None {
                Some(EscrowError::NotInitialized)
            } else if s.admin != Some(admin) {
                Some(EscrowError::NotAdmin)
            } else if !s.escrows.dom().contains(id) {
                Some(EscrowError::EscrowNotFound)
            } else if e.status != EscrowStatus::Funded {
                Some(EscrowError::InvalidStatus)
            } else {
                None
            };
            let step = settled(s, id, admin, winner);
            let back = refunded(s, id, admin);
            &&& step.result == match fault {
                Some(fault) => Err::<(), EscrowError>(fault),
                None => if winner != e.player_a && winner != e.player_b {
                    Err(EscrowError::InvalidPlayer)
                } else {
                    Ok(())
                },
            }
            &&& step.result is Ok ==> {
                &&& step.state.escrows[id].winning_choice == if winner == e.player_a {
                    Some(VoteChoice::PlayerA)
                } else {
                    Some(VoteChoice::PlayerB)
                }
                &&& step.effects.contains(
                    Effect::Publish(EscrowEvent::Settled { match_id: id, winner }),
                )
            }
            &&& back.result == match fault {
                Some(fault) => Err::<(), EscrowError>(fault),
                None => Ok(()),
            }
            &&& back.result is Ok ==> {
                &&& back.state.escrows[id].winning_choice == Some(VoteChoice::Refund)
                &&& back.effects.contains(
                    Effect::Publish(
                        EscrowEvent::Refunded {
                            match_id: id,
                            player_a: e.player_a,
                            player_b: e.player_b,
                            stake: e.stake,
                        },
                    ),
                )
            }
        }),
{
    if s.escrows.dom().contains(id) {
        assert(s.escrows[id].match_id == id);
    }
    let step = settled(s, id, admin, winner);
    let back = refunded(s, id, admin);
    if step.result is Ok {
        assert(step.effects.last() == step.effects[step.effects.len() - 1]);
    }
    if back.result is Ok {
        assert(back.effects.last() == back.effects[back.effects.len() - 1]);
    }
}

/// A funded match can be disputed by either player or the admin: votes are then
/// taken for 48 hours, and the fallback opens after 7 days, both from now.
pub proof fn law_disputes_open_the_window(s: State, id: u64, caller: Address)
    requires
        s.well_formed(),
        deadlines_fit(s, id, caller),
    ensures
        ({
            let e = s.escrows[id];
            let step = disputed(s, id, caller);
            &&& step.result == if !s.escrows.dom().contains(id) {
                Err::<(), EscrowError>(EscrowError::EscrowNotFound)
            } else if e.status != EscrowStatus::Funded {
                Err(EscrowError::InvalidStatus)
            } else if caller != e.player_a && caller != e.player_b && s.admin != Some(caller) {
                Err(EscrowError::NotParticipant)
            } else {
                Ok(())
            }
            &&& step.result is Ok ==> {
                let f = step.state.escrows[id];
                &&& step.state == (State { escrows: s.escrows.insert(id, f), ..s })
                &&& f == (MatchEscrow {
                    status: EscrowStatus::Disputed,
                    dispute_started_at: s.now,
                    arbitration_deadline: f.arbitration_deadline,
                    fallback_deadline: f.fallback_deadline,
                    ..e
                })
                &&& f.arbitration_deadline == s.now + 48 * 60 * 60
                &&& f.fallback_deadline == s.now + 7 * 24 * 60 * 60
                &&& step.effects == seq![
                    Effect::RequireAuth(caller),
                    Effect::Write(Entry::Escrow(f)),
                    Effect::Publish(
                        EscrowEvent::Disputed {
                            match_id: id,
                            caller,
                            arbitration_deadline: f.arbitration_deadline,
                            fallback_deadline: f.fallback_deadline,
                        },
                    ),
                ]
            }
        }),
{
    if s.escrows.dom().contains(id) {
        assert(s.escrows[id].match_id == id);
    }
}

// ---------------------------------------------------------------------------
// Payouts
// ---------------------------------------------------------------------------

/// Whether a call that closed a match paid, in the match's token and out of the
/// contract, both stakes to the winner on record or each stake back to its
/// player, announced each payment, and put on record that and when the match was
/// closed, before a last announcement.
pub open spec fn pays_out(s: State, id: u64, caller: Address, step: Step) -> bool {
    let e = s.escrows[id];
    let f = step.state.escrows[id];
    let pay = |to: Address, amount: int|
        Effect::<Entry, EscrowEvent>::Transfer {
            token: e.token,
            from: s.contract,
            to,
            amount: amount as i128,
        };
    let tell = |to: Address, amount: int|
        Effect::<Entry, EscrowEvent>::Publish(
            EscrowEvent::Payout { match_id: id, to, amount: amount as i128 },
        );
    let paid = match f.winning_choice {
        Some(VoteChoice::PlayerA) => seq![
            pay(e.player_a, 2 * e.stake),
            tell(e.player_a, 2 * e.stake),
        ],
        Some(VoteChoice::PlayerB) => seq![
            pay(e.player_b, 2 * e.stake),
            tell(e.player_b, 2 * e.stake),
        ],
        Some(VoteChoice::Refund) => seq![
            pay(e.player_a, e.stake as int),
            pay(e.player_b, e.stake as int),
            tell(e.player_a, e.stake as int),
            tell(e.player_b, e.stake as int),
        ],
        None => seq![],
    };
    let auth = seq![Effect::<Entry, EscrowEvent>::RequireAuth(caller)];
    &&& 2 * e.stake <= i128::MAX
    &&& f == (MatchEscrow {
        status: EscrowStatus::Resolved,
        winning_choice: f.winning_choice,
        resolved_at: s.now,
        ..e
    })
    &&& step.state == (State { escrows: s.escrows.insert(id, f), ..s })
    &&& step.effects.len() > 0
    &&& step.effects.drop_last() == auth + paid + seq![Effect::Write(Entry::Escrow(f))]
}

proof fn lemma_close_pays_out(
    s: State,
    id: u64,
    caller: Address,
    choice: VoteChoice,
    event: EscrowEvent,
)
    requires
        s.well_formed(),
        s.escrows.dom().contains(id),
        s.escrows[id].status != EscrowStatus::AwaitingFunding,
    ensures
        pays_out(
            s,
            id,
            caller,
            close(s, seq![Effect::RequireAuth(caller)], s.escrows[id], choice, event),
        ),
{
    let e = s.escrows[id];
    assert(e.match_id == id);
    assert(e.stake * 2 == 2 * e.stake);
    let auth = seq![Effect::<Entry, EscrowEvent>::RequireAuth(caller)];
    let step = close(s, auth, e, choice, event);
    let write = seq![
        Effect::<Entry, EscrowEvent>::Write(Entry::Escrow(closed_with(e, choice, s.now))),
    ];
    assert(step.effects.drop_last() =~= auth + release_script(s, e, choice) + write);
}

/// Whatever closes a match pays out the outcome it puts on record, and nothing
/// else.
pub proof fn law_closing_pays_the_recorded_outcome(
    s: State,
    id: u64,
    caller: Address,
    winner: Address,
)
    requires
        s.well_formed(),
    ensures
        resolved(s, id, caller).result is Ok ==> pays_out(s, id, caller, resolved(s, id, caller)),
        fallen_back(s, id, caller).result is Ok ==> pays_out(
            s,
            id,
            caller,
            fallen_back(s, id, caller),
        ),
        settled(s, id, caller, winner).result is Ok ==> pays_out(
            s,
            id,
            caller,
            settled(s, id, caller, winner),
        ),
        refunded(s, id, caller).result is Ok ==> pays_out(s, id, caller, refunded(s, id, caller)),
{
    let e = s.escrows[id];
    let step = resolved(s, id, caller);
    if step.result is Ok {
        let choice = step.state.escrows[e.match_id].winning_choice->0;
        let event = EscrowEvent::Resolved { match_id: id, choice: choice.number(), caller };
        lemma_close_pays_out(s, id, caller, choice, event);
    }
    if fallen_back(s, id, caller).result is Ok {
        let event = EscrowEvent::FallbackExecuted {
            match_id: id,
            player_a: e.player_a,
            player_b: e.player_b,
            stake: e.stake,
        };
        lemma_close_pays_out(s, id, caller, VoteChoice::Refund, event);
    }
    if settled(s, id, caller, winner).result is Ok {
        let event = EscrowEvent::Settled { match_id: id, winner };
        lemma_close_pays_out(s, id, caller, VoteChoice::PlayerA, event);
        lemma_close_pays_out(s, id, caller, VoteChoice::PlayerB, event);
    }
    if refunded(s, id, caller).result is Ok {
        let event = EscrowEvent::Refunded {
            match_id: id,
            player_a: e.player_a,
            player_b: e.player_b,
            stake: e.stake,
        };
        lemma_close_pays_out(s, id, caller, VoteChoice::Refund, event);
    }
}

/// On the ledger, errors, statuses and choices stand as numbers, each from 1 on.
pub proof fn law_numbers_on_the_ledger()
    ensures
        EscrowError::AlreadyInitialized.number() == 1,
        EscrowError::NotInitialized.number() == 2,
        EscrowError::NotAdmin.number() == 3,
        EscrowError::EscrowAlreadyExists.number() == 4,
        EscrowError::EscrowNotFound.number() == 5,
        EscrowError::InvalidAmount.number() == 6,
        EscrowError::InvalidPlayer.number() == 7,
        EscrowError::InvalidArbiterPanel.number() == 8,
        EscrowError::InvalidStatus.number() == 9,
        EscrowError::NotParticipant.number() == 10,
        EscrowError::AlreadyFunded.number() == 11,
        EscrowError::UnauthorizedArbiter.number() == 12,
        EscrowError::AlreadyVoted.number() == 13,
        EscrowError::ArbitrationWindowClosed.number() == 14,
        EscrowError::ThresholdNotMet.number() == 15,
        EscrowError::FallbackNotElapsed.number() == 16,
        EscrowError::ResolutionAvailable.number() == 17,
        EscrowError::Unauthorized.number() == 18,
        EscrowStatus::AwaitingFunding.number() == 1,
        EscrowStatus::Funded.number() == 2,
        EscrowStatus::Disputed.number() == 3,
        EscrowStatus::Resolved.number() == 4,
        VoteChoice::PlayerA.number() == 1,
        VoteChoice::PlayerB.number() == 2,
        VoteChoice::Refund.number() == 3,
{
}

/// What is stored is stored under its own key: the admin under one of their own,
/// an escrow under its match, a vote under its match and arbiter.
pub proof fn law_entries_have_their_own_key(a: Entry, b: Entry)
    ensures
        a.key_of() == b.key_of() <==> match (a, b) {
            (Entry::Admin(_), Entry::Admin(_)) => true,
            (Entry::Escrow(e), Entry::Escrow(f)) => e.match_id == f.match_id,
            (Entry::ArbiterVote(m, x, _), Entry::ArbiterVote(n, y, _)) => m == n && x == y,
            _ => false,
        },
{
}

/// What the numbers of the ledger can hold decides whether a stake can be paid in
/// and a dispute raised, wherever they otherwise could.
pub proof fn law_numbers_that_fit(s: State, id: u64, who: Address)
    requires
        s.well_formed(),
        s.escrows.dom().contains(id),
    ensures
        ({
            let e = s.escrows[id];
            let can_pay = e.status == EscrowStatus::AwaitingFunding && ((who == e.player_a
                && !e.funded_a) || (who == e.player_b && !e.funded_b));
            let can_dispute = e.status == EscrowStatus::Funded && (who == e.player_a || who
                == e.player_b || s.admin == Some(who));
            &&& stake_fits(s, id, who) <==> (can_pay ==> e.pot + e.stake <= i128::MAX)
            &&& deadlines_fit(s, id, who) <==> (can_dispute ==> s.now + 7 * 24 * 60 * 60
                <= u64::MAX)
        }),
{
}

/// What is taken up about a match is what its records say: the admin, the escrow
/// under its match id, and the recorded votes of its three arbiters, no others.
pub proof fn law_records_are_taken_up(
    contract: Address,
    now: u64,
    admin: Option<Address>,
    x: StoredEscrow,
    who: Address,
    choice: VoteChoice,
)
    requires
        loaded(contract, now, admin, Some(x)).well_formed(),
    ensures
        ({
            let s = loaded(contract, now, admin, Some(x));
            let e = x.escrow;
            &&& (s.contract, s.now, s.admin) == (contract, now, admin)
            &&& s.escrows.dom() == set![e.match_id]
            &&& s.escrows[e.match_id] == e
            &&& backs(s, e.match_id, who, choice) <==> {
                ||| who == e.arbiter_1 && x.vote_1 == Some(choice)
                ||| who == e.arbiter_2 && x.vote_2 == Some(choice)
                ||| who == e.arbiter_3 && x.vote_3 == Some(choice)
            }
        }),
{
    let s = loaded(contract, now, admin, Some(x));
    assert(s.escrows.dom().contains(x.escrow.match_id));
    assert(s.escrows.dom() =~= set![x.escrow.match_id]);
}

} // verus!
