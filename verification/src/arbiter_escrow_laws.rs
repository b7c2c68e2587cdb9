//! What holds of the escrow contract over all its calls.

use vstd::prelude::*;

use crate::arbiter_escrow::{
    admin_transferred, close, closed_with, created, deadlines_fit, disputed, escrow_well_formed,
    fallen_back, funded, initialized, lemma_closed_keeps, lemma_created_keeps, lemma_disputed_keeps,
    lemma_funded_keeps, lemma_tallies_small, lemma_voted_keeps, majority, new_escrow, on_panel,
    payment, plays, refunded, release_script, resolved, settled, stake_fits, tally, voted,
    with_escrow, Entry, EscrowEffect, EscrowError, EscrowEvent, EscrowStatus, MatchEscrow, State,
    Step, VoteChoice, ARBITRATION_WINDOW_SECS, FALLBACK_TIMEOUT_SECS, QUORUM,
};
use crate::host::{Address, Effect};

verus! {

/// A call of the contract that can change its storage.
pub ghost enum Call {
    Initialize { admin: Address },
    TransferAdmin { current_admin: Address, new_admin: Address },
    CreateEscrow {
        admin: Address,
        match_id: u64,
        token: Address,
        player_a: Address,
        player_b: Address,
        stake: i128,
        arbiter_1: Address,
        arbiter_2: Address,
        arbiter_3: Address,
    },
    FundEscrow { match_id: u64, player: Address },
    SettleMatch { match_id: u64, admin: Address, winner: Address },
    SettleRefund { match_id: u64, admin: Address },
    DisputeMatch { match_id: u64, caller: Address },
    Vote { match_id: u64, arbiter: Address, choice: VoteChoice },
    ResolveDispute { match_id: u64, caller: Address },
    ExecuteFallback { match_id: u64, caller: Address },
}

/// What a call does.
pub open spec fn run(s: State, call: Call) -> Step {
    match call {
        Call::Initialize { admin } => initialized(s, admin),
        Call::TransferAdmin { current_admin, new_admin } => admin_transferred(
            s,
            current_admin,
            new_admin,
        ),
        Call::CreateEscrow {
            admin,
            match_id,
            token,
            player_a,
            player_b,
            stake,
            arbiter_1,
            arbiter_2,
            arbiter_3,
        } => created(
            s,
            admin,
            new_escrow(
                match_id,
                token,
                player_a,
                player_b,
                stake,
                arbiter_1,
                arbiter_2,
                arbiter_3,
            ),
        ),
        Call::FundEscrow { match_id, player } => funded(s, match_id, player),
        Call::SettleMatch { match_id, admin, winner } => settled(s, match_id, admin, winner),
        Call::SettleRefund { match_id, admin } => refunded(s, match_id, admin),
        Call::DisputeMatch { match_id, caller } => disputed(s, match_id, caller),
        Call::Vote { match_id, arbiter, choice } => voted(s, match_id, arbiter, choice),
        Call::ResolveDispute { match_id, caller } => resolved(s, match_id, caller),
        Call::ExecuteFallback { match_id, caller } => fallen_back(s, match_id, caller),
    }
}

/// Whether the numbers of a call fit: a pot that takes one more stake, and the
/// deadlines of a new dispute.
pub open spec fn in_range(s: State, call: Call) -> bool {
    match call {
        Call::FundEscrow { match_id, player } => stake_fits(s, match_id, player),
        Call::DisputeMatch { match_id, caller } => deadlines_fit(s, match_id, caller),
        _ => true,
    }
}

/// The match a call is about.
pub open spec fn subject(call: Call) -> Option<u64> {
    match call {
        Call::Initialize { .. } => None,
        Call::TransferAdmin { .. } => None,
        Call::CreateEscrow { match_id, .. } => Some(match_id),
        Call::FundEscrow { match_id, .. } => Some(match_id),
        Call::SettleMatch { match_id, .. } => Some(match_id),
        Call::SettleRefund { match_id, .. } => Some(match_id),
        Call::DisputeMatch { match_id, .. } => Some(match_id),
        Call::Vote { match_id, .. } => Some(match_id),
        Call::ResolveDispute { match_id, .. } => Some(match_id),
        Call::ExecuteFallback { match_id, .. } => Some(match_id),
    }
}

/// Every call keeps the storage well formed.
pub proof fn law_calls_keep_the_invariant(s: State, call: Call)
    requires
        s.well_formed(),
        in_range(s, call),
    ensures
        run(s, call).state.well_formed(),
{
    let step = run(s, call);
    if step.result is Ok {
        match call {
            Call::Initialize { .. } => {},
            Call::TransferAdmin { .. } => {},
            Call::CreateEscrow {
                match_id,
                token,
                player_a,
                player_b,
                stake,
                arbiter_1,
                arbiter_2,
                arbiter_3,
                ..
            } => {
                lemma_created_keeps(
                    s,
                    new_escrow(
                        match_id,
                        token,
                        player_a,
                        player_b,
                        stake,
                        arbiter_1,
                        arbiter_2,
                        arbiter_3,
                    ),
                );
            },
            Call::FundEscrow { match_id, player } => {
                lemma_funded_keeps(s, match_id, player);
            },
            Call::SettleMatch { match_id, .. } => {
                lemma_closed_keeps(s, match_id, VoteChoice::PlayerA);
                lemma_closed_keeps(s, match_id, VoteChoice::PlayerB);
            },
            Call::SettleRefund { match_id, .. } => {
                lemma_closed_keeps(s, match_id, VoteChoice::Refund);
            },
            Call::DisputeMatch { match_id, .. } => {
                lemma_disputed_keeps(s, match_id);
            },
            Call::Vote { match_id, arbiter, choice } => {
                lemma_voted_keeps(s, match_id, arbiter, choice);
            },
            Call::ResolveDispute { match_id, .. } => {
                lemma_closed_keeps(s, match_id, majority(s.escrows[match_id])->0);
            },
            Call::ExecuteFallback { match_id, .. } => {
                lemma_closed_keeps(s, match_id, VoteChoice::Refund);
            },
        }
    }
}

/// A call that fails changes nothing, and asks the host for nothing but
/// authorisations.
pub proof fn law_failed_calls_change_nothing(s: State, call: Call)
    requires
        run(s, call).result is Err,
    ensures
        run(s, call).state == s,
        forall|i: int|
            0 <= i < run(s, call).effects.len() ==> #[trigger] run(s, call).effects[i]
                is RequireAuth,
{
}

/// The storage with an entry set.
pub open spec fn write(s: State, entry: Entry) -> State {
    match entry {
        Entry::Admin(admin) => State { admin: Some(admin), ..s },
        Entry::Escrow(e) => with_escrow(s, e),
        Entry::ArbiterVote(match_id, arbiter, choice) => State {
            votes: s.votes.insert((match_id, arbiter), choice),
            ..s
        },
    }
}

/// The storage after the writes of a script.
pub open spec fn perform(s: State, effects: Seq<EscrowEffect>) -> State
    decreases effects.len(),
{
    if effects.len() == 0 {
        s
    } else {
        let before = perform(s, effects.drop_last());
        match effects.last() {
            Effect::Write(entry) => write(before, entry),
            _ => before,
        }
    }
}

/// Whether a script writes nothing.
spec fn writes_nothing(effects: Seq<EscrowEffect>) -> bool {
    forall|i: int| 0 <= i < effects.len() ==> !(#[trigger] effects[i] is Write)
}

proof fn lemma_perform_nothing(s: State, effects: Seq<EscrowEffect>)
    requires
        writes_nothing(effects),
    ensures
        perform(s, effects) == s,
    decreases effects.len(),
{
    if effects.len() > 0 {
        let before = effects.drop_last();
        assert forall|i: int| 0 <= i < before.len() implies !(#[trigger] before[i] is Write) by {
            assert(before[i] == effects[i]);
        }
        lemma_perform_nothing(s, before);
        assert(!(effects[effects.len() - 1] is Write));
    }
}

/// A script with one write.
proof fn lemma_one_write(s: State, effects: Seq<EscrowEffect>, w: int)
    requires
        0 <= w < effects.len(),
        effects[w] is Write,
        forall|i: int| 0 <= i < effects.len() && i != w ==> !(#[trigger] effects[i] is Write),
    ensures
        perform(s, effects) == write(s, effects[w]->Write_0),
    decreases effects.len(),
{
    let before = effects.drop_last();
    assert forall|i: int| 0 <= i < before.len() && i != w implies !(
    #[trigger] before[i] is Write) by {
        assert(before[i] == effects[i]);
    }
    if w == effects.len() - 1 {
        lemma_perform_nothing(s, before);
    } else {
        assert(before[w] == effects[w]);
        lemma_one_write(s, before, w);
        assert(!(effects[effects.len() - 1] is Write));
    }
}

/// A script with two writes next to each other.
proof fn lemma_two_writes(s: State, effects: Seq<EscrowEffect>, w: int)
    requires
        0 <= w < w + 1 < effects.len(),
        effects[w] is Write,
        effects[w + 1] is Write,
        forall|i: int|
            0 <= i < effects.len() && i != w && i != w + 1 ==> !(#[trigger] effects[i] is Write),
    ensures
        perform(s, effects) == write(write(s, effects[w]->Write_0), effects[w + 1]->Write_0),
    decreases effects.len(),
{
    let before = effects.drop_last();
    assert forall|i: int| 0 <= i < before.len() && i != w && i != w + 1 implies !(
    #[trigger] before[i] is Write) by {
        assert(before[i] == effects[i]);
    }
    assert(before[w] == effects[w]);
    if w + 1 == effects.len() - 1 {
        lemma_one_write(s, before, w);
    } else {
        assert(before[w + 1] == effects[w + 1]);
        lemma_two_writes(s, before, w);
        assert(!(effects[effects.len() - 1] is Write));
    }
}

proof fn lemma_close_writes(
    s: State,
    who: Address,
    e: MatchEscrow,
    choice: VoteChoice,
    event: EscrowEvent,
)
    ensures
        ({
            let step = close(s, seq![Effect::RequireAuth(who)], e, choice, event);
            perform(s, step.effects) == step.state
        }),
{
    let auth: Seq<EscrowEffect> = seq![Effect::RequireAuth(who)];
    let step = close(s, auth, e, choice, event);
    let script = release_script(s, e, choice);
    let effects = step.effects;
    let w = 1 + script.len();
    assert(effects[w as int] == Effect::<Entry, EscrowEvent>::Write(
        Entry::Escrow(closed_with(e, choice, s.now)),
    ));
    assert forall|i: int| 0 <= i < effects.len() && i != w implies !(
    #[trigger] effects[i] is Write) by {
        if i == 0 {
            assert(effects[i] == auth[0]);
        } else if i < w {
            assert(effects[i] == script[i - 1]);
        }
    }
    lemma_one_write(s, effects, w as int);
}

/// The writes in the script of a call account for all that it changes in
/// storage: a host that performs them ends up with the storage the call
/// describes.
pub proof fn law_writes_account_for_the_state(s: State, call: Call)
    ensures
        perform(s, run(s, call).effects) == run(s, call).state,
{
    let step = run(s, call);
    if step.result is Err {
        law_failed_calls_change_nothing(s, call);
        assert forall|i: int| 0 <= i < step.effects.len() implies !(
        #[trigger] step.effects[i] is Write) by {
            assert(step.effects[i] is RequireAuth);
        }
        lemma_perform_nothing(s, step.effects);
    } else {
        match call {
            Call::Initialize { .. } => {
                lemma_one_write(s, step.effects, 0);
            },
            Call::TransferAdmin { .. } => {
                lemma_one_write(s, step.effects, 1);
            },
            Call::CreateEscrow { .. } => {
                lemma_one_write(s, step.effects, 1);
            },
            Call::FundEscrow { .. } => {
                lemma_one_write(s, step.effects, 2);
            },
            Call::SettleMatch { match_id, admin, winner } => {
                let e = s.escrows[match_id];
                let event = EscrowEvent::Settled { match_id, winner };
                lemma_close_writes(s, admin, e, VoteChoice::PlayerA, event);
                lemma_close_writes(s, admin, e, VoteChoice::PlayerB, event);
            },
            Call::SettleRefund { match_id, admin } => {
                let e = s.escrows[match_id];
                let event = EscrowEvent::Refunded {
                    match_id,
                    player_a: e.player_a,
                    player_b: e.player_b,
                    stake: e.stake,
                };
                lemma_close_writes(s, admin, e, VoteChoice::Refund, event);
            },
            Call::DisputeMatch { .. } => {
                lemma_one_write(s, step.effects, 1);
            },
            Call::Vote { .. } => {
                lemma_two_writes(s, step.effects, 1);
            },
            Call::ResolveDispute { match_id, caller } => {
                let e = s.escrows[match_id];
                let choice = majority(e)->0;
                let event = EscrowEvent::Resolved { match_id, choice: choice.number(), caller };
                lemma_close_writes(s, caller, e, choice, event);
            },
            Call::ExecuteFallback { match_id, caller } => {
                let e = s.escrows[match_id];
                let event = EscrowEvent::FallbackExecuted {
                    match_id,
                    player_a: e.player_a,
                    player_b: e.player_b,
                    stake: e.stake,
                };
                lemma_close_writes(s, caller, e, VoteChoice::Refund, event);
            },
        }
    }
}

/// A call changes no escrow and no vote but those of the match it is about.
pub proof fn law_calls_touch_one_match(s: State, call: Call, id: u64, arbiter: Address)
    requires
        s.well_formed(),
        subject(call) != Some(id),
    ensures
        run(s, call).state.escrows.dom().contains(id) == s.escrows.dom().contains(id),
        s.escrows.dom().contains(id) ==> run(s, call).state.escrows[id] == s.escrows[id],
        run(s, call).state.votes.dom().contains((id, arbiter)) == s.votes.dom().contains(
            (id, arbiter),
        ),
        s.votes.dom().contains((id, arbiter)) ==> run(s, call).state.votes[(id, arbiter)]
            == s.votes[(id, arbiter)],
{
    if subject(call) is Some && s.escrows.dom().contains(subject(call)->0) {
        assert(s.escrows[subject(call)->0].match_id == subject(call)->0);
    }
}

// ---------------------------------------------------------------------------
// Money
// ---------------------------------------------------------------------------

/// What one step of a script moves to an address, less what it moves from it.
pub open spec fn moved(effect: EscrowEffect, who: Address) -> int {
    match effect {
        Effect::Transfer { from, to, amount, .. } => (if to == who {
            amount as int
        } else {
            0
        }) - (if from == who {
            amount as int
        } else {
            0
        }),
        _ => 0,
    }
}

/// What a script moves to an address, less what it moves from it.
pub open spec fn net(effects: Seq<EscrowEffect>, who: Address) -> int
    decreases effects.len(),
{
    if effects.len() == 0 {
        0
    } else {
        net(effects.drop_last(), who) + moved(effects.last(), who)
    }
}

/// What an escrow holds for its players.
pub open spec fn locked(s: State, id: u64) -> int {
    if s.escrows.dom().contains(id) && s.escrows[id].status != EscrowStatus::Resolved {
        s.escrows[id].pot as int
    } else {
        0
    }
}

proof fn lemma_net_add(a: Seq<EscrowEffect>, b: Seq<EscrowEffect>, who: Address)
    ensures
        net(a + b, who) == net(a, who) + net(b, who),
    decreases b.len(),
{
    if b.len() == 0 {
        assert(a + b == a);
    } else {
        lemma_net_add(a, b.drop_last(), who);
        assert((a + b).drop_last() == a + b.drop_last());
        assert((a + b).last() == b.last());
    }
}

/// Whether a script moves no money.
pub open spec fn moves_nothing(effects: Seq<EscrowEffect>) -> bool {
    forall|i: int| 0 <= i < effects.len() ==> !(#[trigger] effects[i] is Transfer)
}

proof fn lemma_net_nothing(effects: Seq<EscrowEffect>, who: Address)
    requires
        moves_nothing(effects),
    ensures
        net(effects, who) == 0,
    decreases effects.len(),
{
    if effects.len() > 0 {
        let before = effects.drop_last();
        assert forall|i: int| 0 <= i < before.len() implies !(
        #[trigger] before[i] is Transfer) by {
            assert(before[i] == effects[i]);
        }
        lemma_net_nothing(before, who);
        assert(!(effects[effects.len() - 1] is Transfer));
    }
}

proof fn lemma_net_two(a: EscrowEffect, b: EscrowEffect, who: Address)
    ensures
        net(seq![a, b], who) == moved(a, who) + moved(b, who),
{
    reveal_with_fuel(net, 3);
    assert(seq![a, b].drop_last() == seq![a]);
    assert(seq![a].drop_last() == Seq::<EscrowEffect>::empty());
}

/// What the payments of an outcome move.
proof fn lemma_release_net(s: State, e: MatchEscrow, choice: VoteChoice, who: Address)
    ensures
        net(release_script(s, e, choice), who) == match choice {
            VoteChoice::PlayerA => moved(payment(s, e, e.player_a, e.pot), who),
            VoteChoice::PlayerB => moved(payment(s, e, e.player_b, e.pot), who),
            VoteChoice::Refund => moved(payment(s, e, e.player_a, e.stake), who) + moved(
                payment(s, e, e.player_b, e.stake),
                who,
            ),
        },
{
    let script = release_script(s, e, choice);
    match choice {
        VoteChoice::Refund => {
            let pay = seq![script[0], script[1]];
            let say = seq![script[2], script[3]];
            assert(script == pay + say);
            lemma_net_add(pay, say, who);
            lemma_net_two(script[0], script[1], who);
            lemma_net_two(script[2], script[3], who);
        },
        _ => {
            assert(script == seq![script[0], script[1]]);
            lemma_net_two(script[0], script[1], who);
        },
    }
}

proof fn lemma_close_net(
    s: State,
    caller: Address,
    e: MatchEscrow,
    choice: VoteChoice,
    event: EscrowEvent,
    who: Address,
)
    ensures
        net(close(s, seq![Effect::RequireAuth(caller)], e, choice, event).effects, who) == net(
            release_script(s, e, choice),
            who,
        ),
{
    let auth: Seq<EscrowEffect> = seq![Effect::RequireAuth(caller)];
    let script = release_script(s, e, choice);
    let rest: Seq<EscrowEffect> = seq![
        Effect::Write(Entry::Escrow(closed_with(e, choice, s.now))),
        Effect::Publish(event),
    ];
    lemma_net_add(auth + script, rest, who);
    lemma_net_add(auth, script, who);
    lemma_net_nothing(auth, who);
    lemma_net_nothing(rest, who);
}

/// How a call closes an escrow: who called, with which outcome, and what is
/// announced; `None` for a call that closes none.
spec fn closing(s: State, call: Call) -> Option<(u64, Address, VoteChoice, EscrowEvent)> {
    if run(s, call).result is Err {
        None
    } else {
        match call {
            Call::SettleMatch { match_id, admin, winner } => Some(
                (
                    match_id,
                    admin,
                    if winner == s.escrows[match_id].player_a {
                        VoteChoice::PlayerA
                    } else {
                        VoteChoice::PlayerB
                    },
                    EscrowEvent::Settled { match_id, winner },
                ),
            ),
            Call::SettleRefund { match_id, admin } => Some(
                (
                    match_id,
                    admin,
                    VoteChoice::Refund,
                    EscrowEvent::Refunded {
                        match_id,
                        player_a: s.escrows[match_id].player_a,
                        player_b: s.escrows[match_id].player_b,
                        stake: s.escrows[match_id].stake,
                    },
                ),
            ),
            Call::ResolveDispute { match_id, caller } => Some(
                (
                    match_id,
                    caller,
                    majority(s.escrows[match_id])->0,
                    EscrowEvent::Resolved {
                        match_id,
                        choice: (majority(s.escrows[match_id])->0).number(),
                        caller,
                    },
                ),
            ),
            Call::ExecuteFallback { match_id, caller } => Some(
                (
                    match_id,
                    caller,
                    VoteChoice::Refund,
                    EscrowEvent::FallbackExecuted {
                        match_id,
                        player_a: s.escrows[match_id].player_a,
                        player_b: s.escrows[match_id].player_b,
                        stake: s.escrows[match_id].stake,
                    },
                ),
            ),
            _ => None,
        }
    }
}

/// A call that closes an escrow is a [`close`] with its outcome.
proof fn lemma_closing(s: State, call: Call)
    ensures
        match closing(s, call) {
            Some((id, who, choice, event)) => {
                &&& subject(call) == Some(id)
                &&& s.escrows.dom().contains(id)
                &&& s.escrows[id].status == EscrowStatus::Funded || s.escrows[id].status
                    == EscrowStatus::Disputed
                &&& run(s, call) == close(
                    s,
                    seq![Effect::RequireAuth(who)],
                    s.escrows[id],
                    choice,
                    event,
                )
            },
            None => true,
        },
{
}

/// A call that neither closes nor funds an escrow moves no money and leaves
/// the pots alone.
proof fn lemma_idle(s: State, call: Call, id: u64)
    requires
        s.well_formed(),
        closing(s, call) is None,
        !(call is FundEscrow),
    ensures
        moves_nothing(run(s, call).effects),
        locked(run(s, call).state, id) == locked(s, id),
{
    if subject(call) is Some && s.escrows.dom().contains(subject(call)->0) {
        assert(s.escrows[subject(call)->0].match_id == subject(call)->0);
    }
}

proof fn lemma_two_stakes(e: MatchEscrow)
    requires
        escrow_well_formed(e),
        e.status != EscrowStatus::AwaitingFunding,
    ensures
        e.pot == 2 * e.stake,
{
    assert(e.stake * 2 == 2 * e.stake);
}

/// Money is conserved: what a call moves into the contract, less what it moves
/// out, is by how much the escrow it is about holds more than before.
pub proof fn law_money_is_conserved(s: State, call: Call, id: u64)
    requires
        s.well_formed(),
        in_range(s, call),
        subject(call) == Some(id),
        s.escrows.dom().contains(id) ==> !plays(s.escrows[id], s.contract),
    ensures
        net(run(s, call).effects, s.contract) == locked(run(s, call).state, id) - locked(s, id),
{
    let step = run(s, call);
    lemma_closing(s, call);
    if closing(s, call) is Some {
        let (_, who, choice, event) = closing(s, call)->0;
        let e = s.escrows[id];
        assert(e.match_id == id);
        lemma_two_stakes(e);
        lemma_close_net(s, who, e, choice, event, s.contract);
        lemma_release_net(s, e, choice, s.contract);
    } else if call is FundEscrow && step.result is Ok {
        let player = call->player;
        let e = s.escrows[id];
        assert(e.match_id == id);
        let head = step.effects.take(2);
        let rest = step.effects.skip(2);
        assert(step.effects == head + rest);
        lemma_net_add(head, rest, s.contract);
        assert(head == seq![step.effects[0], step.effects[1]]);
        lemma_net_two(step.effects[0], step.effects[1], s.contract);
        lemma_net_nothing(rest, s.contract);
    } else if call is FundEscrow {
        lemma_net_nothing(step.effects, s.contract);
    } else {
        lemma_idle(s, call, id);
        lemma_net_nothing(step.effects, s.contract);
    }
}

/// When an escrow closes, the two players get the two stakes between them: the
/// winner both, or each their own. Nobody else gets anything.
pub proof fn law_payouts_follow_the_outcome(s: State, call: Call, id: u64, who: Address)
    requires
        s.well_formed(),
        in_range(s, call),
        subject(call) == Some(id),
        s.escrows.dom().contains(id),
        s.escrows[id].status != EscrowStatus::Resolved,
        run(s, call).state.escrows[id].status == EscrowStatus::Resolved,
        !plays(s.escrows[id], s.contract),
        who != s.contract,
    ensures
        ({
            let e = s.escrows[id];
            let outcome = run(s, call).state.escrows[id].winning_choice;
            net(run(s, call).effects, who) == if who == e.player_a {
                match outcome {
                    Some(VoteChoice::PlayerA) => 2 * e.stake,
                    Some(VoteChoice::PlayerB) => 0,
                    _ => e.stake as int,
                }
            } else if who == e.player_b {
                match outcome {
                    Some(VoteChoice::PlayerA) => 0,
                    Some(VoteChoice::PlayerB) => 2 * e.stake,
                    _ => e.stake as int,
                }
            } else {
                0
            }
        }),
{
    let e = s.escrows[id];
    assert(e.match_id == id);
    lemma_closing(s, call);
    if closing(s, call) is Some {
        let (_, caller, choice, event) = closing(s, call)->0;
        lemma_two_stakes(e);
        lemma_close_net(s, caller, e, choice, event, who);
        lemma_release_net(s, e, choice, who);
    } else {
        lemma_only_closing_resolves(s, call, id);
    }
}

proof fn lemma_only_closing_resolves(s: State, call: Call, id: u64)
    requires
        s.well_formed(),
        closing(s, call) is None,
        s.escrows.dom().contains(id),
        s.escrows[id].status != EscrowStatus::Resolved,
    ensures
        run(s, call).state.escrows[id].status != EscrowStatus::Resolved,
{
    assert(s.escrows[id].match_id == id);
    if subject(call) is Some && s.escrows.dom().contains(subject(call)->0) {
        assert(s.escrows[subject(call)->0].match_id == subject(call)->0);
    }
}

// ---------------------------------------------------------------------------
// Life of an escrow
// ---------------------------------------------------------------------------

/// An escrow only moves forward: from awaiting funding to funded, to disputed,
/// to resolved.
pub proof fn law_status_moves_forward(s: State, call: Call, id: u64)
    requires
        s.well_formed(),
        s.escrows.dom().contains(id),
    ensures
        run(s, call).state.escrows.dom().contains(id),
        run(s, call).state.escrows[id].status.number() >= s.escrows[id].status.number(),
{
    assert(s.escrows[id].match_id == id);
    if subject(call) is Some && s.escrows.dom().contains(subject(call)->0) {
        assert(s.escrows[subject(call)->0].match_id == subject(call)->0);
    }
}

/// A resolved escrow is closed for good: no call changes it, and no call about
/// it moves money.
pub proof fn law_resolved_is_final(s: State, call: Call, id: u64)
    requires
        s.well_formed(),
        s.escrows.dom().contains(id),
        s.escrows[id].status == EscrowStatus::Resolved,
    ensures
        run(s, call).state.escrows.dom().contains(id),
        run(s, call).state.escrows[id] == s.escrows[id],
        subject(call) == Some(id) ==> moves_nothing(run(s, call).effects),
{
    assert(s.escrows[id].match_id == id);
    if subject(call) is Some && s.escrows.dom().contains(subject(call)->0) {
        assert(s.escrows[subject(call)->0].match_id == subject(call)->0);
    }
}

/// A dispute freezes the payout: unless the call executes a 2-of-3 majority, or
/// the fallback after its deadline with no majority, a disputed escrow stays
/// disputed and no money moves.
pub proof fn law_disputes_freeze_the_payout(s: State, call: Call, id: u64)
    requires
        s.well_formed(),
        s.escrows.dom().contains(id),
        s.escrows[id].status == EscrowStatus::Disputed,
        subject(call) == Some(id),
        !(call is ResolveDispute && majority(s.escrows[id]) is Some),
        !(call is ExecuteFallback && majority(s.escrows[id]) is None && s.now
            >= s.escrows[id].fallback_deadline),
    ensures
        run(s, call).state.escrows[id].status == EscrowStatus::Disputed,
        run(s, call).state.escrows[id].pot == s.escrows[id].pot,
        moves_nothing(run(s, call).effects),
{
    assert(s.escrows[id].match_id == id);
}

/// A disputed escrow always has a way out: once the fallback deadline has
/// passed, either a player can have the majority's decision executed, or
/// anyone can execute the fallback.
pub proof fn law_disputes_can_end(s: State, id: u64, anyone: Address)
    requires
        s.well_formed(),
        s.escrows.dom().contains(id),
        s.escrows[id].status == EscrowStatus::Disputed,
        s.now >= s.escrows[id].fallback_deadline,
    ensures
        resolved(s, id, s.escrows[id].player_a).result is Ok || fallen_back(s, id, anyone).result
            is Ok,
{
}

/// The majority's decision and the fallback exclude each other: in no state can
/// both be executed.
pub proof fn law_resolution_excludes_fallback(s: State, id: u64, a: Address, b: Address)
    ensures
        !(resolved(s, id, a).result is Ok && fallen_back(s, id, b).result is Ok),
{
}

// ---------------------------------------------------------------------------
// Votes
// ---------------------------------------------------------------------------

/// At most one outcome has two of the three arbiters behind it, and that is the
/// outcome the contract takes for the majority.
pub proof fn law_majorities_are_unique(s: State, id: u64, choice: VoteChoice)
    requires
        s.well_formed(),
        s.escrows.dom().contains(id),
    ensures
        majority(s.escrows[id]) == Some(choice) <==> tally(s, s.escrows[id], choice) >= QUORUM,
{
    lemma_tallies_small(s, id);
}

/// A vote once recorded stays as it is.
pub proof fn law_votes_are_kept(s: State, call: Call, id: u64, arbiter: Address)
    requires
        s.votes.dom().contains((id, arbiter)),
    ensures
        run(s, call).state.votes.dom().contains((id, arbiter)),
        run(s, call).state.votes[(id, arbiter)] == s.votes[(id, arbiter)],
{
}

/// Whoever votes sits on the panel of a disputed match, votes while the
/// arbitration window is open, and has not voted before. The vote is then on
/// record, and the same arbiter cannot vote on the match again.
pub proof fn law_one_vote_each(
    s: State,
    id: u64,
    arbiter: Address,
    choice: VoteChoice,
    again: VoteChoice,
)
    requires
        s.well_formed(),
        voted(s, id, arbiter, choice).result is Ok,
    ensures
        s.escrows[id].status == EscrowStatus::Disputed,
        on_panel(s.escrows[id], arbiter),
        s.now < s.escrows[id].dispute_started_at + ARBITRATION_WINDOW_SECS,
        !s.votes.dom().contains((id, arbiter)),
        voted(s, id, arbiter, choice).state.votes[(id, arbiter)] == choice,
        voted(voted(s, id, arbiter, choice).state, id, arbiter, again).result == Err::<
            (),
            EscrowError,
        >(EscrowError::AlreadyVoted),
{
    assert(s.escrows[id].match_id == id);
}

/// The arbitration window closes before the fallback opens, both counted from
/// the dispute.
pub proof fn law_deadlines_are_ordered(s: State, id: u64)
    requires
        s.well_formed(),
        s.escrows.dom().contains(id),
        s.escrows[id].status == EscrowStatus::Disputed,
    ensures
        s.escrows[id].arbitration_deadline == s.escrows[id].dispute_started_at
            + ARBITRATION_WINDOW_SECS,
        s.escrows[id].fallback_deadline == s.escrows[id].dispute_started_at
            + FALLBACK_TIMEOUT_SECS,
        s.escrows[id].arbitration_deadline < s.escrows[id].fallback_deadline,
{
}

// ---------------------------------------------------------------------------
// Admin
// ---------------------------------------------------------------------------

/// The contract can be initialized once, and after that only the admin can
/// hand the role on, open an escrow or settle an undisputed match.
pub proof fn law_admin_acts_alone(s: State, call: Call)
    requires
        run(s, call).result is Ok,
    ensures
        match call {
            Call::Initialize { .. } => s.admin is None,
            Call::TransferAdmin { current_admin, .. } => s.admin == Some(current_admin),
            Call::CreateEscrow { admin, .. } => s.admin == Some(admin),
            Call::SettleMatch { admin, .. } => s.admin == Some(admin),
            Call::SettleRefund { admin, .. } => s.admin == Some(admin),
            _ => run(s, call).state.admin == s.admin,
        },
{
}

/// A successful call that changes storage asks for the authorisation of whoever
/// it acts for; only the initialization needs none.
pub proof fn law_calls_are_authorised(s: State, call: Call)
    requires
        run(s, call).result is Ok,
        !(call is Initialize),
    ensures
        run(s, call).effects[0] == Effect::<Entry, EscrowEvent>::RequireAuth(actor(call)),
{
}

/// Whoever a call acts for.
pub open spec fn actor(call: Call) -> Address {
    match call {
        Call::Initialize { admin } => admin,
        Call::TransferAdmin { current_admin, .. } => current_admin,
        Call::CreateEscrow { admin, .. } => admin,
        Call::FundEscrow { player, .. } => player,
        Call::SettleMatch { admin, .. } => admin,
        Call::SettleRefund { admin, .. } => admin,
        Call::DisputeMatch { caller, .. } => caller,
        Call::Vote { arbiter, .. } => arbiter,
        Call::ResolveDispute { caller, .. } => caller,
        Call::ExecuteFallback { caller, .. } => caller,
    }
}

} // verus!
