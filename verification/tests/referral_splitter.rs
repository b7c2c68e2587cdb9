use knightverse::host::{Address, Effect};
use knightverse::referral_splitter::{
    DataKey, Entry, Error, ReferralEffect, ReferralEnv, ReferralEvent, ReferralSplitter,
    DEFAULT_COMMISSION_BPS, FEE_DENOMINATOR, MAX_COMMISSION_BPS,
};

const CONTRACT: Address = Address { id: 100 };
const ADMIN: Address = Address { id: 1 };
const ANN: Address = Address { id: 2 };
const BEA: Address = Address { id: 3 };
const CAM: Address = Address { id: 4 };
const TOKEN: Address = Address { id: 101 };

fn ready(commission_bps: u32) -> ReferralEnv {
    let mut env = ReferralEnv::new(CONTRACT);
    ReferralSplitter::initialize(&mut env, ADMIN, commission_bps).unwrap();
    env
}

/// What a call adds to the script.
fn script<T>(env: &mut ReferralEnv, call: impl FnOnce(&mut ReferralEnv) -> T) -> (T, Vec<ReferralEffect>) {
    let seen = env.effects.len();
    let value = call(env);
    (value, env.effects[seen..].to_vec())
}

#[test]
fn the_contract_is_initialised_once_and_in_range() {
    let mut env = ReferralEnv::new(CONTRACT);
    assert_eq!(ReferralSplitter::get_commission_bps(&env), 1_000);
    assert_eq!(DEFAULT_COMMISSION_BPS, 1_000);
    let (r, effects) = script(&mut env, |e| ReferralSplitter::initialize(e, ADMIN, 10_001));
    assert_eq!(r, Err(Error::InvalidCommission));
    assert!(effects.is_empty());
    let (r, effects) = script(&mut env, |e| ReferralSplitter::initialize(e, ADMIN, 10_000));
    assert_eq!(r, Ok(()));
    assert_eq!(
        effects,
        vec![
            Effect::RequireAuth(ADMIN),
            Effect::Write(Entry::Admin(ADMIN)),
            Effect::Write(Entry::CommissionBps(10_000)),
        ]
    );
    assert_eq!(ReferralSplitter::get_commission_bps(&env), MAX_COMMISSION_BPS);
    assert_eq!(
        ReferralSplitter::initialize(&mut env, BEA, 20_000),
        Err(Error::AlreadyInitialized)
    );
}

#[test]
fn bindings_are_permanent_and_never_to_oneself() {
    let mut env = ready(500);
    let (r, effects) = script(&mut env, |e| ReferralSplitter::register_referral(e, ANN, ANN));
    assert_eq!(r, Err(Error::SelfReferral));
    assert_eq!(effects, vec![Effect::RequireAuth(ANN)]);
    assert_eq!(ReferralSplitter::get_referrer(&env, ANN), None);

    let (r, effects) = script(&mut env, |e| ReferralSplitter::register_referral(e, ANN, BEA));
    assert_eq!(r, Ok(()));
    let entry = Entry::Referrer { referee: ANN, referrer: BEA };
    assert_eq!(effects, vec![Effect::RequireAuth(ANN), Effect::Write(entry)]);
    assert_eq!(entry.key(), DataKey::Referrer(ANN));
    assert_eq!(
        ReferralSplitter::register_referral(&mut env, ANN, CAM),
        Err(Error::AlreadyReferred)
    );
    assert_eq!(ReferralSplitter::get_referrer(&env, ANN), Some(BEA));
}

#[test]
fn wagers_credit_the_referrers_cut() {
    let mut env = ready(250);
    ReferralSplitter::register_referral(&mut env, ANN, BEA).unwrap();
    assert_eq!(ReferralSplitter::settle_wager(&mut env, ANN, 0), Err(Error::InvalidAmount));
    assert_eq!(ReferralSplitter::settle_wager(&mut env, ANN, -1), Err(Error::InvalidAmount));
    let (r, effects) = script(&mut env, |e| ReferralSplitter::settle_wager(e, ANN, 1_000));
    assert_eq!(r, Ok(25));
    assert_eq!(
        effects,
        vec![
            Effect::Write(Entry::Earnings { referrer: BEA, balance: 25 }),
            Effect::Publish(ReferralEvent::Earned { referrer: BEA, cut: 25 }),
        ]
    );
    // 39 * 250 / 10_000 rounds down to nothing, 79 * 250 / 10_000 to one.
    let (r, effects) = script(&mut env, |e| ReferralSplitter::settle_wager(e, ANN, 39));
    assert_eq!((r, effects.len()), (Ok(0), 0));
    assert_eq!(ReferralSplitter::settle_wager(&mut env, ANN, 79), Ok(1));
    // Nobody referred Cam.
    let (r, effects) = script(&mut env, |e| ReferralSplitter::settle_wager(e, CAM, 1_000));
    assert_eq!((r, effects.len()), (Ok(0), 0));
    assert_eq!(ReferralSplitter::get_earnings(&env, BEA), 26);
    assert_eq!(ReferralSplitter::get_earnings(&env, ANN), 0);
    assert_eq!(FEE_DENOMINATOR, 10_000);

    // Without a configured commission a tenth is taken.
    let mut env = ReferralEnv::new(CONTRACT);
    ReferralSplitter::register_referral(&mut env, ANN, BEA).unwrap();
    assert_eq!(ReferralSplitter::settle_wager(&mut env, ANN, 105), Ok(10));
}

#[test]
fn withdrawals_pay_the_whole_balance_once() {
    let mut env = ready(1_000);
    ReferralSplitter::register_referral(&mut env, ANN, BEA).unwrap();
    ReferralSplitter::settle_wager(&mut env, ANN, 700).unwrap();
    ReferralSplitter::settle_wager(&mut env, ANN, 300).unwrap();
    let (paid, effects) = script(&mut env, |e| ReferralSplitter::withdraw_earnings(e, BEA, TOKEN));
    assert_eq!(paid, 100);
    assert_eq!(
        effects,
        vec![
            Effect::RequireAuth(BEA),
            Effect::Write(Entry::Earnings { referrer: BEA, balance: 0 }),
            Effect::Transfer { token: TOKEN, from: CONTRACT, to: BEA, amount: 100 },
            Effect::Publish(ReferralEvent::Withdrawn { referrer: BEA, token: TOKEN, amount: 100 }),
        ]
    );
    let (paid, effects) = script(&mut env, |e| ReferralSplitter::withdraw_earnings(e, BEA, TOKEN));
    assert_eq!((paid, effects), (0, vec![Effect::RequireAuth(BEA)]));
    assert_eq!(ReferralSplitter::get_earnings(&env, BEA), 0);
}

#[test]
fn codes_topics_and_keys_are_stable() {
    for (error, code) in [
        (Error::AlreadyInitialized, 1),
        (Error::NotAdmin, 2),
        (Error::AlreadyReferred, 3),
        (Error::SelfReferral, 4),
        (Error::InvalidAmount, 5),
        (Error::InvalidCommission, 6),
    ] {
        assert_eq!(error.code(), code);
    }
    assert_eq!(ReferralEvent::Earned { referrer: ANN, cut: 1 }.topic(), "ref_earn");
    assert_eq!(
        ReferralEvent::Withdrawn { referrer: ANN, token: TOKEN, amount: 1 }.topic(),
        "ref_wd"
    );
    assert_eq!(Entry::Admin(ANN).key(), DataKey::Admin);
    assert_eq!(Entry::CommissionBps(1).key(), DataKey::CommissionBps);
    assert_eq!(Entry::Earnings { referrer: ANN, balance: 1 }.key(), DataKey::Earnings(ANN));
}

#[test]
fn a_cut_that_does_not_fit_is_refused_beforehand() {
    let mut env = ready(10_000);
    assert!(env.can_settle(ANN, i128::MAX));
    ReferralSplitter::register_referral(&mut env, ANN, BEA).unwrap();
    assert!(!env.can_settle(ANN, i128::MAX));
    assert!(env.can_settle(ANN, i128::MAX / 10_000));
    assert!(!env.can_settle(ANN, i128::MAX / 10_000 + 1));
    assert!(env.can_settle(ANN, 0));
    assert!(env.can_settle(ANN, i128::MIN));
    assert!(env.can_settle(BEA, i128::MAX));
}
