use std::collections::HashMap;

use knightverse::arbiter_escrow::{
    ArbiterEscrowContract, EscrowEnv, EscrowError, EscrowStatus, MatchEscrow, VoteChoice,
    ARBITER_COUNT, ARBITRATION_WINDOW_SECS, FALLBACK_TIMEOUT_SECS, QUORUM,
};
use knightverse::host::{Address, Effect};

const STAKE: i128 = 1_000;
const START_TS: u64 = 1_000_000;

/// A ledger with one escrow contract and one token on it.
struct TestContext {
    env: EscrowEnv,
    balances: HashMap<u128, i128>,
    events: usize,
    contract_id: Address,
    admin: Address,
    token: Address,
    player_a: Address,
    player_b: Address,
    arbiter_1: Address,
    arbiter_2: Address,
    arbiter_3: Address,
    outsider: Address,
}

/// Makes a call as the ledger does: what it leaves to be done is done in order,
/// and a call that fails leaves nothing behind.
fn call<T>(
    ctx: &mut TestContext,
    f: impl FnOnce(&mut EscrowEnv) -> Result<T, EscrowError>,
) -> Result<T, EscrowError> {
    let mut env = ctx.env.clone();
    let seen = env.effects.len();
    let value = f(&mut env)?;
    for effect in &env.effects[seen..] {
        match effect {
            Effect::Transfer { token, from, to, amount } => {
                assert_eq!(*token, ctx.token);
                let held = ctx.balances.get(&from.id).copied().unwrap_or(0);
                assert!(held >= *amount, "insufficient balance");
                ctx.balances.insert(from.id, held - amount);
                *ctx.balances.entry(to.id).or_insert(0) += amount;
            }
            Effect::Publish(_) => ctx.events += 1,
            Effect::RequireAuth(_) | Effect::Write(_) => {}
        }
    }
    ctx.env = env;
    Ok(value)
}

fn balance_of(ctx: &TestContext, who: &Address) -> i128 {
    ctx.balances.get(&who.id).copied().unwrap_or(0)
}

fn mint(ctx: &mut TestContext, who: Address, amount: i128) {
    *ctx.balances.entry(who.id).or_insert(0) += amount;
}

fn set_timestamp(ctx: &mut TestContext, now: u64) {
    ctx.env.now = now;
}

fn setup() -> TestContext {
    let address = |id: u128| Address { id };
    let contract_id = address(100);
    let mut ctx = TestContext {
        env: EscrowEnv::new(contract_id, START_TS),
        balances: HashMap::new(),
        events: 0,
        contract_id,
        admin: address(1),
        token: address(101),
        player_a: address(2),
        player_b: address(3),
        arbiter_1: address(4),
        arbiter_2: address(5),
        arbiter_3: address(6),
        outsider: address(7),
    };
    let admin = ctx.admin;
    call(&mut ctx, |env| ArbiterEscrowContract::initialize(env, admin)).unwrap();
    ctx
}

fn create_escrow(
    ctx: &mut TestContext,
    admin: Address,
    match_id: u64,
    player_a: Address,
    player_b: Address,
    stake: i128,
    arbiter_1: Address,
    arbiter_2: Address,
    arbiter_3: Address,
) -> Result<(), EscrowError> {
    let token = ctx.token;
    call(ctx, |env| {
        ArbiterEscrowContract::create_escrow(
            env, admin, match_id, token, player_a, player_b, stake, arbiter_1, arbiter_2,
            arbiter_3,
        )
    })
}

fn create_default_escrow(ctx: &mut TestContext, match_id: u64) {
    try_create_default_escrow(ctx, match_id).unwrap();
}

fn try_create_default_escrow(ctx: &mut TestContext, match_id: u64) -> Result<(), EscrowError> {
    create_escrow(
        ctx,
        ctx.admin,
        match_id,
        ctx.player_a,
        ctx.player_b,
        STAKE,
        ctx.arbiter_1,
        ctx.arbiter_2,
        ctx.arbiter_3,
    )
}

fn fund_escrow(ctx: &mut TestContext, match_id: u64, player: Address) -> Result<(), EscrowError> {
    call(ctx, |env| ArbiterEscrowContract::fund_escrow(env, match_id, player))
}

fn fund_default_escrow(ctx: &mut TestContext, match_id: u64) {
    let (a, b) = (ctx.player_a, ctx.player_b);
    mint(ctx, a, STAKE);
    mint(ctx, b, STAKE);
    fund_escrow(ctx, match_id, a).unwrap();
    fund_escrow(ctx, match_id, b).unwrap();
}

fn dispute_match(ctx: &mut TestContext, match_id: u64, caller: Address) -> Result<(), EscrowError> {
    call(ctx, |env| ArbiterEscrowContract::dispute_match(env, match_id, caller))
}

fn dispute_default_escrow(ctx: &mut TestContext, match_id: u64) {
    dispute_match(ctx, match_id, ctx.player_a).unwrap();
}

fn settle_match(
    ctx: &mut TestContext,
    match_id: u64,
    admin: Address,
    winner: Address,
) -> Result<(), EscrowError> {
    call(ctx, |env| ArbiterEscrowContract::settle_match(env, match_id, admin, winner))
}

fn settle_refund(ctx: &mut TestContext, match_id: u64, admin: Address) -> Result<(), EscrowError> {
    call(ctx, |env| ArbiterEscrowContract::settle_refund(env, match_id, admin))
}

fn vote(
    ctx: &mut TestContext,
    match_id: u64,
    arbiter: Address,
    choice: VoteChoice,
) -> Result<(), EscrowError> {
    call(ctx, |env| ArbiterEscrowContract::vote(env, match_id, arbiter, choice))
}

fn resolve_dispute(ctx: &mut TestContext, match_id: u64, by: Address) -> Result<(), EscrowError> {
    call(ctx, |env| ArbiterEscrowContract::resolve_dispute(env, match_id, by))
}

fn execute_fallback(ctx: &mut TestContext, match_id: u64, by: Address) -> Result<(), EscrowError> {
    call(ctx, |env| ArbiterEscrowContract::execute_fallback(env, match_id, by))
}

fn get_escrow(ctx: &TestContext, match_id: u64) -> Option<MatchEscrow> {
    ArbiterEscrowContract::get_escrow(&ctx.env, match_id)
}

fn get_vote(ctx: &TestContext, match_id: u64, arbiter: Address) -> Option<VoteChoice> {
    ArbiterEscrowContract::get_vote(&ctx.env, match_id, arbiter)
}

// =============================================================================
// INITIALIZATION & CONFIG
// =============================================================================

#[test]
fn test_initialize_and_constants() {
    let ctx = setup();

    assert_eq!(ArbiterEscrowContract::get_admin(&ctx.env), Ok(ctx.admin));
    assert_eq!(ArbiterEscrowContract::arbitration_window(&ctx.env), ARBITRATION_WINDOW_SECS);
    assert_eq!(ArbiterEscrowContract::fallback_timeout(&ctx.env), FALLBACK_TIMEOUT_SECS);
    assert_eq!(ArbiterEscrowContract::quorum(&ctx.env), QUORUM);
    assert_eq!(ArbiterEscrowContract::arbiter_count(&ctx.env), ARBITER_COUNT);

    // Guard the exact window lengths.
    assert_eq!(ARBITRATION_WINDOW_SECS, 172_800); // 48 hours
    assert_eq!(FALLBACK_TIMEOUT_SECS, 604_800); // 7 days
    assert_eq!(QUORUM, 2);
}

#[test]
fn test_double_initialize_rejected() {
    let mut ctx = setup();
    let admin = ctx.admin;
    assert!(call(&mut ctx, |env| ArbiterEscrowContract::initialize(env, admin)).is_err());
}

// =============================================================================
// ESCROW CREATION & FUNDING
// =============================================================================

#[test]
fn test_create_and_fund_escrow() {
    let mut ctx = setup();
    let match_id = 1u64;
    create_default_escrow(&mut ctx, match_id);

    let escrow = get_escrow(&ctx, match_id).unwrap();
    assert_eq!(escrow.status, EscrowStatus::AwaitingFunding);
    assert_eq!(escrow.player_a, ctx.player_a);
    assert_eq!(escrow.player_b, ctx.player_b);
    assert_eq!(escrow.stake, STAKE);
    assert_eq!(escrow.pot, 0);
    assert_eq!(escrow.arbiter_1, ctx.arbiter_1);
    assert_eq!(escrow.arbiter_2, ctx.arbiter_2);
    assert_eq!(escrow.arbiter_3, ctx.arbiter_3);

    // Player A funds their side.
    let (player_a, player_b) = (ctx.player_a, ctx.player_b);
    mint(&mut ctx, player_a, STAKE);
    fund_escrow(&mut ctx, match_id, player_a).unwrap();

    let escrow = get_escrow(&ctx, match_id).unwrap();
    assert!(escrow.funded_a);
    assert!(!escrow.funded_b);
    assert_eq!(escrow.status, EscrowStatus::AwaitingFunding);
    assert_eq!(escrow.pot, STAKE);
    assert_eq!(balance_of(&ctx, &ctx.contract_id), STAKE);

    // Player B funds; the escrow is now live.
    mint(&mut ctx, player_b, STAKE);
    fund_escrow(&mut ctx, match_id, player_b).unwrap();

    let escrow = get_escrow(&ctx, match_id).unwrap();
    assert!(escrow.funded_a && escrow.funded_b);
    assert_eq!(escrow.status, EscrowStatus::Funded);
    assert_eq!(escrow.pot, STAKE * 2);
    assert_eq!(balance_of(&ctx, &ctx.contract_id), STAKE * 2);
    assert_eq!(balance_of(&ctx, &ctx.player_a), 0);
    assert_eq!(balance_of(&ctx, &ctx.player_b), 0);
}

#[test]
fn test_duplicate_escrow_rejected() {
    let mut ctx = setup();
    create_default_escrow(&mut ctx, 7);

    assert!(try_create_default_escrow(&mut ctx, 7u64).is_err());
}

#[test]
fn test_invalid_arbiter_panel_rejected() {
    let mut ctx = setup();
    let (admin, player_a, player_b) = (ctx.admin, ctx.player_a, ctx.player_b);
    let (arbiter_1, arbiter_2, arbiter_3) = (ctx.arbiter_1, ctx.arbiter_2, ctx.arbiter_3);

    // Two slots occupied by the same address.
    assert!(create_escrow(
        &mut ctx, admin, 11u64, player_a, player_b, STAKE, arbiter_1, arbiter_1, arbiter_3,
    )
    .is_err());

    // An arbiter cannot also be a player.
    assert!(create_escrow(
        &mut ctx, admin, 12u64, player_a, player_b, STAKE, player_a, arbiter_2, arbiter_3,
    )
    .is_err());
}

#[test]
fn test_non_admin_cannot_create_escrow() {
    let mut ctx = setup();
    let (outsider, player_a, player_b) = (ctx.outsider, ctx.player_a, ctx.player_b);
    let (arbiter_1, arbiter_2, arbiter_3) = (ctx.arbiter_1, ctx.arbiter_2, ctx.arbiter_3);

    assert!(create_escrow(
        &mut ctx, outsider, 13u64, player_a, player_b, STAKE, arbiter_1, arbiter_2, arbiter_3,
    )
    .is_err());
}

#[test]
fn test_invalid_stake_rejected() {
    let mut ctx = setup();
    let (admin, player_a, player_b) = (ctx.admin, ctx.player_a, ctx.player_b);
    let (arbiter_1, arbiter_2, arbiter_3) = (ctx.arbiter_1, ctx.arbiter_2, ctx.arbiter_3);

    assert!(create_escrow(
        &mut ctx, admin, 14u64, player_a, player_b, 0i128, arbiter_1, arbiter_2, arbiter_3,
    )
    .is_err());
}

#[test]
fn test_fund_twice_rejected() {
    let mut ctx = setup();
    create_default_escrow(&mut ctx, 2);

    let player_a = ctx.player_a;
    mint(&mut ctx, player_a, STAKE * 2);
    fund_escrow(&mut ctx, 2u64, player_a).unwrap();

    assert!(fund_escrow(&mut ctx, 2u64, player_a).is_err());
    assert_eq!(balance_of(&ctx, &ctx.contract_id), STAKE);
}

#[test]
fn test_only_participant_can_fund() {
    let mut ctx = setup();
    create_default_escrow(&mut ctx, 3);

    let outsider = ctx.outsider;
    assert!(fund_escrow(&mut ctx, 3u64, outsider).is_err());
}

// =============================================================================
// DISPUTE FREEZE
// =============================================================================

#[test]
fn test_dispute_opens_arbitration_and_fallback_windows() {
    let mut ctx = setup();
    let match_id = 10u64;
    create_default_escrow(&mut ctx, match_id);
    fund_default_escrow(&mut ctx, match_id);

    let before = ctx.events;
    dispute_default_escrow(&mut ctx, match_id);
    let after = ctx.events;

    // Exactly one `dispute` event is emitted.
    assert_eq!(after, before + 1);

    let escrow = get_escrow(&ctx, match_id).unwrap();
    assert_eq!(escrow.status, EscrowStatus::Disputed);
    assert_eq!(escrow.dispute_started_at, START_TS);
    assert_eq!(
        escrow.arbitration_deadline,
        START_TS + ARBITRATION_WINDOW_SECS
    );
    assert_eq!(escrow.fallback_deadline, START_TS + FALLBACK_TIMEOUT_SECS);
}

#[test]
fn test_only_participant_or_admin_can_dispute() {
    let mut ctx = setup();
    let match_id = 15u64;
    create_default_escrow(&mut ctx, match_id);
    fund_default_escrow(&mut ctx, match_id);

    let (outsider, admin) = (ctx.outsider, ctx.admin);
    assert!(dispute_match(&mut ctx, match_id, outsider).is_err());
    // Admin may raise the dispute as well.
    dispute_match(&mut ctx, match_id, admin).unwrap();
    assert_eq!(
        get_escrow(&ctx, match_id).unwrap().status,
        EscrowStatus::Disputed
    );
}

#[test]
fn test_dispute_requires_funded_escrow() {
    let mut ctx = setup();
    let match_id = 16u64;
    create_default_escrow(&mut ctx, match_id);

    // Not funded yet — cannot dispute.
    let player_a = ctx.player_a;
    assert!(dispute_match(&mut ctx, match_id, player_a).is_err());
}

#[test]
fn test_settle_blocked_while_disputed() {
    let mut ctx = setup();
    let match_id = 20u64;
    create_default_escrow(&mut ctx, match_id);
    fund_default_escrow(&mut ctx, match_id);
    dispute_default_escrow(&mut ctx, match_id);

    // Payout is frozen: even the admin cannot use the fast path.
    let (admin, player_a) = (ctx.admin, ctx.player_a);
    assert!(settle_match(&mut ctx, match_id, admin, player_a).is_err());
    assert!(settle_refund(&mut ctx, match_id, admin).is_err());
    assert_eq!(balance_of(&ctx, &ctx.contract_id), STAKE * 2);
    assert_eq!(
        get_escrow(&ctx, match_id).unwrap().status,
        EscrowStatus::Disputed
    );
}

// =============================================================================
// UNDISPUTED FAST PATH
// =============================================================================

#[test]
fn test_admin_fast_path_settle_transfers_pot() {
    let mut ctx = setup();
    let match_id = 21u64;
    create_default_escrow(&mut ctx, match_id);
    fund_default_escrow(&mut ctx, match_id);

    let (admin, player_a, player_b) = (ctx.admin, ctx.player_a, ctx.player_b);
    settle_match(&mut ctx, match_id, admin, player_b).unwrap();

    assert_eq!(balance_of(&ctx, &ctx.player_b), STAKE * 2);
    assert_eq!(balance_of(&ctx, &ctx.player_a), 0);
    assert_eq!(balance_of(&ctx, &ctx.contract_id), 0);

    let escrow = get_escrow(&ctx, match_id).unwrap();
    assert_eq!(escrow.status, EscrowStatus::Resolved);
    assert_eq!(escrow.winning_choice, Some(VoteChoice::PlayerB));

    // A resolved escrow cannot be settled twice.
    assert!(settle_match(&mut ctx, match_id, admin, player_a).is_err());
}

#[test]
fn test_admin_fast_path_refund_returns_stakes() {
    let mut ctx = setup();
    let match_id = 22u64;
    create_default_escrow(&mut ctx, match_id);
    fund_default_escrow(&mut ctx, match_id);

    let admin = ctx.admin;
    settle_refund(&mut ctx, match_id, admin).unwrap();

    assert_eq!(balance_of(&ctx, &ctx.player_a), STAKE);
    assert_eq!(balance_of(&ctx, &ctx.player_b), STAKE);
    assert_eq!(balance_of(&ctx, &ctx.contract_id), 0);
    assert_eq!(
        get_escrow(&ctx, match_id).unwrap().winning_choice,
        Some(VoteChoice::Refund)
    );
}

// =============================================================================
// ARBITER PANEL (2-OF-3)
// =============================================================================

#[test]
fn test_two_of_three_arbiters_release_to_winner() {
    let mut ctx = setup();
    let match_id = 30u64;
    create_default_escrow(&mut ctx, match_id);
    fund_default_escrow(&mut ctx, match_id);
    dispute_default_escrow(&mut ctx, match_id);

    let (arbiter_1, arbiter_2, arbiter_3) = (ctx.arbiter_1, ctx.arbiter_2, ctx.arbiter_3);
    vote(&mut ctx, match_id, arbiter_1, VoteChoice::PlayerA).unwrap();
    vote(&mut ctx, match_id, arbiter_3, VoteChoice::PlayerA).unwrap();

    let escrow = get_escrow(&ctx, match_id).unwrap();
    assert_eq!(escrow.votes_for_a, 2);
    assert_eq!(
        get_vote(&ctx, match_id, arbiter_1),
        Some(VoteChoice::PlayerA)
    );

    // The non-voting arbiter (or anyone authorized) can execute the decision.
    resolve_dispute(&mut ctx, match_id, arbiter_2).unwrap();

    assert_eq!(balance_of(&ctx, &ctx.player_a), STAKE * 2);
    assert_eq!(balance_of(&ctx, &ctx.player_b), 0);
    assert_eq!(balance_of(&ctx, &ctx.contract_id), 0);

    let escrow = get_escrow(&ctx, match_id).unwrap();
    assert_eq!(escrow.status, EscrowStatus::Resolved);
    assert_eq!(escrow.winning_choice, Some(VoteChoice::PlayerA));
}

#[test]
fn test_arbiter_refund_returns_stakes() {
    let mut ctx = setup();
    let match_id = 33u64;
    create_default_escrow(&mut ctx, match_id);
    fund_default_escrow(&mut ctx, match_id);
    dispute_default_escrow(&mut ctx, match_id);

    let (arbiter_2, arbiter_3, player_a) = (ctx.arbiter_2, ctx.arbiter_3, ctx.player_a);
    vote(&mut ctx, match_id, arbiter_2, VoteChoice::Refund).unwrap();
    vote(&mut ctx, match_id, arbiter_3, VoteChoice::Refund).unwrap();
    resolve_dispute(&mut ctx, match_id, player_a).unwrap();

    assert_eq!(balance_of(&ctx, &ctx.player_a), STAKE);
    assert_eq!(balance_of(&ctx, &ctx.player_b), STAKE);
    assert_eq!(balance_of(&ctx, &ctx.contract_id), 0);
    assert_eq!(
        get_escrow(&ctx, match_id).unwrap().winning_choice,
        Some(VoteChoice::Refund)
    );
}

#[test]
fn test_split_votes_do_not_resolve() {
    let mut ctx = setup();
    let match_id = 34u64;
    create_default_escrow(&mut ctx, match_id);
    fund_default_escrow(&mut ctx, match_id);
    dispute_default_escrow(&mut ctx, match_id);

    // 1 / 1 / 1 — nobody reaches the 2-of-3 threshold.
    let (arbiter_1, arbiter_2, arbiter_3) = (ctx.arbiter_1, ctx.arbiter_2, ctx.arbiter_3);
    vote(&mut ctx, match_id, arbiter_1, VoteChoice::PlayerA).unwrap();
    vote(&mut ctx, match_id, arbiter_2, VoteChoice::PlayerB).unwrap();
    vote(&mut ctx, match_id, arbiter_3, VoteChoice::Refund).unwrap();

    assert!(resolve_dispute(&mut ctx, match_id, arbiter_1).is_err());
    assert_eq!(balance_of(&ctx, &ctx.contract_id), STAKE * 2);
}

#[test]
fn test_resolve_before_threshold_rejected() {
    let mut ctx = setup();
    let match_id = 31u64;
    create_default_escrow(&mut ctx, match_id);
    fund_default_escrow(&mut ctx, match_id);
    dispute_default_escrow(&mut ctx, match_id);

    // A single vote is not enough to release funds.
    let (arbiter_1, arbiter_2, player_a) = (ctx.arbiter_1, ctx.arbiter_2, ctx.player_a);
    vote(&mut ctx, match_id, arbiter_1, VoteChoice::PlayerA).unwrap();
    assert!(resolve_dispute(&mut ctx, match_id, arbiter_1).is_err());
    assert_eq!(balance_of(&ctx, &ctx.contract_id), STAKE * 2);

    // The second vote completes the 2-of-3 majority.
    vote(&mut ctx, match_id, arbiter_2, VoteChoice::PlayerA).unwrap();
    resolve_dispute(&mut ctx, match_id, player_a).unwrap();
    assert_eq!(balance_of(&ctx, &ctx.player_a), STAKE * 2);
}

#[test]
fn test_double_vote_rejected() {
    let mut ctx = setup();
    let match_id = 35u64;
    create_default_escrow(&mut ctx, match_id);
    fund_default_escrow(&mut ctx, match_id);
    dispute_default_escrow(&mut ctx, match_id);

    let arbiter_1 = ctx.arbiter_1;
    vote(&mut ctx, match_id, arbiter_1, VoteChoice::PlayerA).unwrap();

    assert!(vote(&mut ctx, match_id, arbiter_1, VoteChoice::PlayerB).is_err());

    let escrow = get_escrow(&ctx, match_id).unwrap();
    assert_eq!(escrow.votes_for_a, 1);
    assert_eq!(escrow.votes_for_b, 0);
    assert_eq!(
        get_vote(&ctx, match_id, arbiter_1),
        Some(VoteChoice::PlayerA)
    );
}

#[test]
fn test_unauthorized_arbiter_vote_rejected() {
    let mut ctx = setup();
    let match_id = 36u64;
    create_default_escrow(&mut ctx, match_id);
    fund_default_escrow(&mut ctx, match_id);
    dispute_default_escrow(&mut ctx, match_id);

    // Outsider is not on the panel; the other player is not either.
    let (outsider, player_a) = (ctx.outsider, ctx.player_a);
    assert!(vote(&mut ctx, match_id, outsider, VoteChoice::PlayerA).is_err());
    assert!(vote(&mut ctx, match_id, player_a, VoteChoice::PlayerA).is_err());

    // An outsider cannot execute a resolution either.
    assert!(resolve_dispute(&mut ctx, match_id, outsider).is_err());
    assert_eq!(get_escrow(&ctx, match_id).unwrap().votes_for_a, 0);
}

#[test]
fn test_vote_after_arbitration_window_rejected() {
    let mut ctx = setup();
    let match_id = 32u64;
    create_default_escrow(&mut ctx, match_id);
    fund_default_escrow(&mut ctx, match_id);
    dispute_default_escrow(&mut ctx, match_id);

    let (arbiter_1, arbiter_2, arbiter_3) = (ctx.arbiter_1, ctx.arbiter_2, ctx.arbiter_3);
    vote(&mut ctx, match_id, arbiter_1, VoteChoice::PlayerA).unwrap();

    // One second before the deadline is still valid...
    set_timestamp(&mut ctx, START_TS + ARBITRATION_WINDOW_SECS - 1);
    vote(&mut ctx, match_id, arbiter_2, VoteChoice::PlayerA).unwrap();

    // ...but the window is closed at the deadline.
    set_timestamp(&mut ctx, START_TS + ARBITRATION_WINDOW_SECS);
    assert!(vote(&mut ctx, match_id, arbiter_3, VoteChoice::PlayerA).is_err());
}

#[test]
fn test_vote_on_undisputed_match_rejected() {
    let mut ctx = setup();
    let match_id = 37u64;
    create_default_escrow(&mut ctx, match_id);
    fund_default_escrow(&mut ctx, match_id);

    let arbiter_1 = ctx.arbiter_1;
    assert!(vote(&mut ctx, match_id, arbiter_1, VoteChoice::PlayerA).is_err());
}

// =============================================================================
// TIME-LOCKED FALLBACK
// =============================================================================

#[test]
fn test_fallback_before_timeout_rejected() {
    let mut ctx = setup();
    let match_id = 40u64;
    create_default_escrow(&mut ctx, match_id);
    fund_default_escrow(&mut ctx, match_id);
    dispute_default_escrow(&mut ctx, match_id);

    // Even at the very last second the timelock holds.
    set_timestamp(&mut ctx, START_TS + FALLBACK_TIMEOUT_SECS - 1);
    let outsider = ctx.outsider;
    assert!(execute_fallback(&mut ctx, match_id, outsider).is_err());
    assert_eq!(balance_of(&ctx, &ctx.contract_id), STAKE * 2);
}

#[test]
fn test_fallback_after_seven_days_refunds_players() {
    let mut ctx = setup();
    let match_id = 41u64;
    create_default_escrow(&mut ctx, match_id);
    fund_default_escrow(&mut ctx, match_id);
    dispute_default_escrow(&mut ctx, match_id);

    // Arbiters fail to vote. After 7 days the permissionless fallback fires.
    set_timestamp(&mut ctx, START_TS + FALLBACK_TIMEOUT_SECS);
    let outsider = ctx.outsider;
    execute_fallback(&mut ctx, match_id, outsider).unwrap();

    assert_eq!(balance_of(&ctx, &ctx.player_a), STAKE);
    assert_eq!(balance_of(&ctx, &ctx.player_b), STAKE);
    assert_eq!(balance_of(&ctx, &ctx.contract_id), 0);

    let escrow = get_escrow(&ctx, match_id).unwrap();
    assert_eq!(escrow.status, EscrowStatus::Resolved);
    assert_eq!(escrow.winning_choice, Some(VoteChoice::Refund));
    assert_eq!(escrow.resolved_at, START_TS + FALLBACK_TIMEOUT_SECS);
}

#[test]
fn test_fallback_blocked_when_quorum_reached() {
    let mut ctx = setup();
    let match_id = 42u64;
    create_default_escrow(&mut ctx, match_id);
    fund_default_escrow(&mut ctx, match_id);
    dispute_default_escrow(&mut ctx, match_id);

    let (arbiter_1, arbiter_2, arbiter_3) = (ctx.arbiter_1, ctx.arbiter_2, ctx.arbiter_3);
    vote(&mut ctx, match_id, arbiter_1, VoteChoice::PlayerB).unwrap();
    vote(&mut ctx, match_id, arbiter_2, VoteChoice::PlayerB).unwrap();

    // The majority exists, so the fallback must not be used to unwind it.
    set_timestamp(&mut ctx, START_TS + FALLBACK_TIMEOUT_SECS);
    let outsider = ctx.outsider;
    assert!(execute_fallback(&mut ctx, match_id, outsider).is_err());

    // Resolution is still possible after the timelock.
    resolve_dispute(&mut ctx, match_id, arbiter_3).unwrap();
    assert_eq!(balance_of(&ctx, &ctx.player_b), STAKE * 2);
    assert_eq!(balance_of(&ctx, &ctx.player_a), 0);
}

// =============================================================================
// EVENTS
// =============================================================================

#[test]
fn test_events_emitted_across_dispute_lifecycle() {
    let mut ctx = setup();
    let match_id = 50u64;
    let (arbiter_1, arbiter_2, player_b) = (ctx.arbiter_1, ctx.arbiter_2, ctx.player_b);

    let before_create = ctx.events;
    create_default_escrow(&mut ctx, match_id);
    // `created` + `arbiters`.
    assert_eq!(ctx.events, before_create + 2);

    fund_default_escrow(&mut ctx, match_id);
    let after_fund = ctx.events;
    // At least the two `funded` events plus the `ready` event.
    assert!(after_fund >= before_create + 5);

    let before_dispute = ctx.events;
    dispute_default_escrow(&mut ctx, match_id);
    assert_eq!(ctx.events, before_dispute + 1);

    let before_vote = ctx.events;
    vote(&mut ctx, match_id, arbiter_1, VoteChoice::PlayerA).unwrap();
    assert_eq!(ctx.events, before_vote + 1);

    vote(&mut ctx, match_id, arbiter_2, VoteChoice::PlayerA).unwrap();
    let before_resolve = ctx.events;
    resolve_dispute(&mut ctx, match_id, player_b).unwrap();
    // `payout` + `resolved` at minimum.
    assert!(ctx.events >= before_resolve + 2);
}
