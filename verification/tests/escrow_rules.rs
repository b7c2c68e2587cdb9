use knightverse::arbiter_escrow::{
    ArbiterEscrowContract, DataKey, Entry, EscrowEffect, EscrowEnv, EscrowError, EscrowEvent,
    EscrowStatus, MatchEscrow, StoredEscrow, VoteChoice, ARBITRATION_WINDOW_SECS,
    FALLBACK_TIMEOUT_SECS,
};
use knightverse::host::{Address, Effect, Table};

const CONTRACT: Address = Address { id: 100 };
const TOKEN: Address = Address { id: 101 };
const ADMIN: Address = Address { id: 1 };
const ANN: Address = Address { id: 2 };
const BEA: Address = Address { id: 3 };
const X: Address = Address { id: 4 };
const Y: Address = Address { id: 5 };
const Z: Address = Address { id: 6 };
const EVE: Address = Address { id: 7 };
const NOW: u64 = 5_000;

fn create(env: &mut EscrowEnv, stake: i128, a: Address, b: Address, panel: [Address; 3]) -> Result<(), EscrowError> {
    ArbiterEscrowContract::create_escrow(
        env, ADMIN, 1, TOKEN, a, b, stake, panel[0], panel[1], panel[2],
    )
}

fn initialised() -> EscrowEnv {
    let mut env = EscrowEnv::new(CONTRACT, NOW);
    ArbiterEscrowContract::initialize(&mut env, ADMIN).unwrap();
    env
}

fn funded() -> EscrowEnv {
    let mut env = initialised();
    create(&mut env, 10, ANN, BEA, [X, Y, Z]).unwrap();
    ArbiterEscrowContract::fund_escrow(&mut env, 1, ANN).unwrap();
    ArbiterEscrowContract::fund_escrow(&mut env, 1, BEA).unwrap();
    env
}

fn disputed() -> EscrowEnv {
    let mut env = funded();
    ArbiterEscrowContract::dispute_match(&mut env, 1, ANN).unwrap();
    env
}

fn escrow(env: &EscrowEnv) -> MatchEscrow {
    ArbiterEscrowContract::get_escrow(env, 1).unwrap()
}

/// What a call adds to the script.
fn script<T>(env: &mut EscrowEnv, call: impl FnOnce(&mut EscrowEnv) -> T) -> (T, Vec<EscrowEffect>) {
    let seen = env.effects.len();
    let value = call(env);
    (value, env.effects[seen..].to_vec())
}

#[test]
fn each_refusal_has_its_error() {
    let mut env = EscrowEnv::new(CONTRACT, NOW);
    assert_eq!(ArbiterEscrowContract::get_admin(&env), Err(EscrowError::NotInitialized));
    assert_eq!(create(&mut env, 1, ANN, BEA, [X, Y, Z]), Err(EscrowError::NotInitialized));
    ArbiterEscrowContract::initialize(&mut env, ADMIN).unwrap();
    assert_eq!(
        ArbiterEscrowContract::initialize(&mut env, EVE),
        Err(EscrowError::AlreadyInitialized)
    );
    assert_eq!(
        ArbiterEscrowContract::transfer_admin(&mut env, EVE, EVE),
        Err(EscrowError::NotAdmin)
    );
    assert_eq!(create(&mut env, 0, ANN, BEA, [X, Y, Z]), Err(EscrowError::InvalidAmount));
    assert_eq!(create(&mut env, 1, ANN, ANN, [X, Y, Z]), Err(EscrowError::InvalidPlayer));
    assert_eq!(create(&mut env, 1, ANN, BEA, [X, X, Z]), Err(EscrowError::InvalidArbiterPanel));
    assert_eq!(create(&mut env, 1, ANN, BEA, [X, Y, BEA]), Err(EscrowError::InvalidArbiterPanel));
    assert_eq!(
        ArbiterEscrowContract::fund_escrow(&mut env, 1, ANN),
        Err(EscrowError::EscrowNotFound)
    );
    create(&mut env, 10, ANN, BEA, [X, Y, Z]).unwrap();
    assert_eq!(create(&mut env, 10, ANN, BEA, [X, Y, Z]), Err(EscrowError::EscrowAlreadyExists));
    assert_eq!(
        ArbiterEscrowContract::fund_escrow(&mut env, 1, EVE),
        Err(EscrowError::NotParticipant)
    );
    ArbiterEscrowContract::fund_escrow(&mut env, 1, ANN).unwrap();
    assert_eq!(
        ArbiterEscrowContract::fund_escrow(&mut env, 1, ANN),
        Err(EscrowError::AlreadyFunded)
    );
    assert_eq!(
        ArbiterEscrowContract::dispute_match(&mut env, 1, ANN),
        Err(EscrowError::InvalidStatus)
    );
    ArbiterEscrowContract::fund_escrow(&mut env, 1, BEA).unwrap();
    assert_eq!(
        ArbiterEscrowContract::settle_match(&mut env, 1, ADMIN, EVE),
        Err(EscrowError::InvalidPlayer)
    );
    assert_eq!(
        ArbiterEscrowContract::dispute_match(&mut env, 1, EVE),
        Err(EscrowError::NotParticipant)
    );
    ArbiterEscrowContract::dispute_match(&mut env, 1, BEA).unwrap();
    assert_eq!(
        ArbiterEscrowContract::vote(&mut env, 1, ANN, VoteChoice::PlayerA),
        Err(EscrowError::UnauthorizedArbiter)
    );
    ArbiterEscrowContract::vote(&mut env, 1, X, VoteChoice::PlayerA).unwrap();
    assert_eq!(
        ArbiterEscrowContract::vote(&mut env, 1, X, VoteChoice::PlayerA),
        Err(EscrowError::AlreadyVoted)
    );
    assert_eq!(
        ArbiterEscrowContract::resolve_dispute(&mut env, 1, EVE),
        Err(EscrowError::Unauthorized)
    );
    assert_eq!(
        ArbiterEscrowContract::resolve_dispute(&mut env, 1, ANN),
        Err(EscrowError::ThresholdNotMet)
    );
    assert_eq!(
        ArbiterEscrowContract::execute_fallback(&mut env, 1, EVE),
        Err(EscrowError::FallbackNotElapsed)
    );
    ArbiterEscrowContract::vote(&mut env, 1, Y, VoteChoice::PlayerA).unwrap();
    env.now = NOW + ARBITRATION_WINDOW_SECS;
    assert_eq!(
        ArbiterEscrowContract::vote(&mut env, 1, Z, VoteChoice::PlayerA),
        Err(EscrowError::ArbitrationWindowClosed)
    );
    env.now = NOW + FALLBACK_TIMEOUT_SECS;
    assert_eq!(
        ArbiterEscrowContract::execute_fallback(&mut env, 1, EVE),
        Err(EscrowError::ResolutionAvailable)
    );
}

#[test]
fn a_refused_call_leaves_the_storage_as_it_was() {
    let mut env = disputed();
    let before = escrow(&env);
    let (r, effects) =
        script(&mut env, |e| ArbiterEscrowContract::settle_match(e, 1, ADMIN, ANN));
    assert_eq!(r, Err(EscrowError::InvalidStatus));
    assert_eq!(effects, vec![Effect::RequireAuth(ADMIN)]);
    assert_eq!(escrow(&env), before);
    // Funding checks the player's place before it asks for authorisation.
    let (r, effects) = script(&mut env, |e| ArbiterEscrowContract::fund_escrow(e, 1, ANN));
    assert_eq!((r, effects), (Err(EscrowError::InvalidStatus), vec![]));
}

#[test]
fn stakes_move_in_and_the_pot_moves_out() {
    let mut env = initialised();
    create(&mut env, 10, ANN, BEA, [X, Y, Z]).unwrap();
    let (_, effects) = script(&mut env, |e| ArbiterEscrowContract::fund_escrow(e, 1, BEA));
    assert_eq!(
        effects,
        vec![
            Effect::RequireAuth(BEA),
            Effect::Transfer { token: TOKEN, from: BEA, to: CONTRACT, amount: 10 },
            Effect::Write(Entry::Escrow(escrow(&env))),
            Effect::Publish(EscrowEvent::Funded { match_id: 1, player: BEA, stake: 10, pot: 10 }),
        ]
    );
    let (_, effects) = script(&mut env, |e| ArbiterEscrowContract::fund_escrow(e, 1, ANN));
    assert_eq!(
        effects.last(),
        Some(&Effect::Publish(EscrowEvent::Ready { match_id: 1, pot: 20 }))
    );
    let (_, effects) =
        script(&mut env, |e| ArbiterEscrowContract::settle_match(e, 1, ADMIN, ANN));
    assert_eq!(
        effects,
        vec![
            Effect::RequireAuth(ADMIN),
            Effect::Transfer { token: TOKEN, from: CONTRACT, to: ANN, amount: 20 },
            Effect::Publish(EscrowEvent::Payout { match_id: 1, to: ANN, amount: 20 }),
            Effect::Write(Entry::Escrow(escrow(&env))),
            Effect::Publish(EscrowEvent::Settled { match_id: 1, winner: ANN }),
        ]
    );
    assert_eq!(escrow(&env).resolved_at, NOW);
}

#[test]
fn votes_are_announced_with_their_tallies() {
    let mut env = disputed();
    let (_, effects) =
        script(&mut env, |e| ArbiterEscrowContract::vote(e, 1, Y, VoteChoice::Refund));
    assert_eq!(
        effects,
        vec![
            Effect::RequireAuth(Y),
            Effect::Write(Entry::ArbiterVote(1, Y, VoteChoice::Refund)),
            Effect::Write(Entry::Escrow(escrow(&env))),
            Effect::Publish(EscrowEvent::Voted {
                match_id: 1,
                arbiter: Y,
                choice: 3,
                votes_for_a: 0,
                votes_for_b: 0,
                votes_for_refund: 1,
            }),
        ]
    );
    assert_eq!(ArbiterEscrowContract::get_vote(&env, 1, Y), Some(VoteChoice::Refund));
    assert_eq!(ArbiterEscrowContract::get_vote(&env, 1, X), None);
    assert_eq!(ArbiterEscrowContract::get_vote(&env, 2, Y), None);
}

#[test]
fn the_admin_role_can_be_handed_on() {
    let mut env = funded();
    let (r, effects) =
        script(&mut env, |e| ArbiterEscrowContract::transfer_admin(e, ADMIN, EVE));
    assert_eq!(r, Ok(()));
    assert_eq!(
        effects,
        vec![
            Effect::RequireAuth(ADMIN),
            Effect::Write(Entry::Admin(EVE)),
            Effect::Publish(EscrowEvent::AdminTransferred { new_admin: EVE }),
        ]
    );
    assert_eq!(ArbiterEscrowContract::get_admin(&env), Ok(EVE));
    assert_eq!(
        ArbiterEscrowContract::settle_refund(&mut env, 1, ADMIN),
        Err(EscrowError::NotAdmin)
    );
    assert_eq!(ArbiterEscrowContract::settle_refund(&mut env, 1, EVE), Ok(()));
}

#[test]
fn matches_do_not_touch_each_other() {
    let mut env = funded();
    ArbiterEscrowContract::create_escrow(&mut env, ADMIN, 2, TOKEN, BEA, EVE, 7, X, Y, Z).unwrap();
    let first = escrow(&env);
    ArbiterEscrowContract::fund_escrow(&mut env, 2, EVE).unwrap();
    assert_eq!(escrow(&env), first);
    ArbiterEscrowContract::settle_refund(&mut env, 1, ADMIN).unwrap();
    let second = ArbiterEscrowContract::get_escrow(&env, 2).unwrap();
    assert_eq!((second.pot, second.status), (7, EscrowStatus::AwaitingFunding));
}

#[test]
fn a_stored_match_is_taken_up_if_it_is_sound() {
    let mut env = disputed();
    ArbiterEscrowContract::vote(&mut env, 1, X, VoteChoice::PlayerB).unwrap();
    let stored = StoredEscrow {
        escrow: escrow(&env),
        vote_1: Some(VoteChoice::PlayerB),
        vote_2: None,
        vote_3: None,
    };
    let mut again = EscrowEnv::load(CONTRACT, NOW, Some(ADMIN), Some(stored)).unwrap();
    assert!(again.effects.is_empty());
    assert_eq!(escrow(&again), escrow(&env));
    assert_eq!(
        ArbiterEscrowContract::vote(&mut again, 1, X, VoteChoice::PlayerB),
        Err(EscrowError::AlreadyVoted)
    );
    ArbiterEscrowContract::vote(&mut again, 1, Z, VoteChoice::PlayerB).unwrap();
    assert_eq!(ArbiterEscrowContract::resolve_dispute(&mut again, 1, Z), Ok(()));
    assert_eq!(escrow(&again).winning_choice, Some(VoteChoice::PlayerB));

    assert!(EscrowEnv::load(CONTRACT, NOW, None, None).is_some());
    assert!(EscrowEnv::load(CONTRACT, NOW, None, Some(stored)).is_none());
    let unsound = StoredEscrow { vote_1: None, ..stored };
    assert!(EscrowEnv::load(CONTRACT, NOW, Some(ADMIN), Some(unsound)).is_none());
    let mut poor = stored;
    poor.escrow.pot = 19;
    assert!(EscrowEnv::load(CONTRACT, NOW, Some(ADMIN), Some(poor)).is_none());
}

#[test]
fn escrow_codes_topics_and_keys_are_stable() {
    let errors = [
        EscrowError::AlreadyInitialized,
        EscrowError::NotInitialized,
        EscrowError::NotAdmin,
        EscrowError::EscrowAlreadyExists,
        EscrowError::EscrowNotFound,
        EscrowError::InvalidAmount,
        EscrowError::InvalidPlayer,
        EscrowError::InvalidArbiterPanel,
        EscrowError::InvalidStatus,
        EscrowError::NotParticipant,
        EscrowError::AlreadyFunded,
        EscrowError::UnauthorizedArbiter,
        EscrowError::AlreadyVoted,
        EscrowError::ArbitrationWindowClosed,
        EscrowError::ThresholdNotMet,
        EscrowError::FallbackNotElapsed,
        EscrowError::ResolutionAvailable,
        EscrowError::Unauthorized,
    ];
    for (i, error) in errors.iter().enumerate() {
        assert_eq!(error.code() as usize, i + 1);
    }
    assert_eq!(EscrowStatus::AwaitingFunding.code(), 1);
    assert_eq!(EscrowStatus::Resolved.code(), 4);
    assert_eq!(VoteChoice::PlayerA.code(), 1);
    assert_eq!(VoteChoice::PlayerB.code(), 2);
    let a = ANN;
    for (event, topic) in [
        (EscrowEvent::Init { admin: a }, "init"),
        (EscrowEvent::AdminTransferred { new_admin: a }, "adm_xfer"),
        (
            EscrowEvent::Created { match_id: 1, player_a: a, player_b: a, stake: 1, token: a },
            "created",
        ),
        (
            EscrowEvent::Arbiters { match_id: 1, arbiter_1: a, arbiter_2: a, arbiter_3: a },
            "arbiters",
        ),
        (EscrowEvent::Funded { match_id: 1, player: a, stake: 1, pot: 1 }, "funded"),
        (EscrowEvent::Ready { match_id: 1, pot: 2 }, "ready"),
        (EscrowEvent::Payout { match_id: 1, to: a, amount: 1 }, "payout"),
        (EscrowEvent::Settled { match_id: 1, winner: a }, "settle"),
        (EscrowEvent::Refunded { match_id: 1, player_a: a, player_b: a, stake: 1 }, "refund"),
        (
            EscrowEvent::Disputed {
                match_id: 1,
                caller: a,
                arbitration_deadline: 1,
                fallback_deadline: 1,
            },
            "dispute",
        ),
        (EscrowEvent::Resolved { match_id: 1, choice: 1, caller: a }, "resolved"),
        (
            EscrowEvent::FallbackExecuted { match_id: 1, player_a: a, player_b: a, stake: 1 },
            "fallback",
        ),
    ] {
        assert_eq!(event.topic(), topic);
    }
    assert_eq!(Entry::Admin(a).key(), DataKey::Admin);
    assert_eq!(Entry::Escrow(escrow(&funded())).key(), DataKey::Escrow(1));
    assert_eq!(
        Entry::ArbiterVote(9, a, VoteChoice::Refund).key(),
        DataKey::ArbiterVote(9, a)
    );
}

#[test]
fn a_table_gives_back_the_last_value_set() {
    let mut table: Table<u64, &str> = Table::new();
    assert_eq!(table.get(&1), None);
    table.set(1, "a");
    table.set(2, "b");
    table.set(1, "c");
    assert_eq!((table.get(&1), table.get(&2), table.get(&3)), (Some(&"c"), Some(&"b"), None));
}

#[test]
fn a_stake_that_overfills_the_pot_is_refused_beforehand() {
    let mut env = initialised();
    create(&mut env, i128::MAX, ANN, BEA, [X, Y, Z]).unwrap();
    assert!(env.can_take_stake(1, ANN));
    ArbiterEscrowContract::fund_escrow(&mut env, 1, ANN).unwrap();
    assert!(!env.can_take_stake(1, BEA));
    assert!(env.can_take_stake(1, ANN));
    assert!(env.can_take_stake(1, EVE));
    assert!(env.can_take_stake(2, BEA));
}

#[test]
fn deadlines_beyond_the_end_of_time_are_refused_beforehand() {
    let mut env = funded();
    assert!(env.can_set_deadlines(1, ANN));
    env.now = u64::MAX - FALLBACK_TIMEOUT_SECS;
    assert!(env.can_set_deadlines(1, ANN));
    env.now += 1;
    assert!(!env.can_set_deadlines(1, ANN));
    assert!(!env.can_set_deadlines(1, ADMIN));
    assert!(env.can_set_deadlines(1, EVE));
    assert!(env.can_set_deadlines(2, ANN));
}

#[test]
fn the_writes_of_a_script_rebuild_the_storage() {
    let mut env = disputed();
    ArbiterEscrowContract::vote(&mut env, 1, X, VoteChoice::PlayerB).unwrap();
    ArbiterEscrowContract::vote(&mut env, 1, Z, VoteChoice::PlayerB).unwrap();
    ArbiterEscrowContract::resolve_dispute(&mut env, 1, EVE).unwrap_err();
    ArbiterEscrowContract::resolve_dispute(&mut env, 1, Y).unwrap();

    let mut admin = None;
    let mut stored = None;
    let mut votes = Vec::new();
    for effect in &env.effects {
        if let Effect::Write(entry) = effect {
            match entry {
                Entry::Admin(address) => admin = Some(*address),
                Entry::Escrow(escrow) => stored = Some(*escrow),
                Entry::ArbiterVote(match_id, arbiter, choice) => {
                    votes.push((*match_id, *arbiter, *choice))
                }
            }
        }
    }
    assert_eq!(admin, env.admin);
    assert_eq!(stored, ArbiterEscrowContract::get_escrow(&env, 1));
    assert_eq!(stored.unwrap().winning_choice, Some(VoteChoice::PlayerB));
    assert_eq!(votes, vec![(1, X, VoteChoice::PlayerB), (1, Z, VoteChoice::PlayerB)]);
    assert_eq!(ArbiterEscrowContract::get_vote(&env, 1, Y), None);
}
