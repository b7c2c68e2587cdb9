use knightverse::host::{Address, Effect};
use knightverse::title_badge::{
    BadgeEnv, BadgeEvent, DataKey, Entry, Error, TitleBadge, TitleBadgeContract,
};

const ADMIN: Address = Address { id: 1 };
const ANN: Address = Address { id: 2 };
const BEA: Address = Address { id: 3 };

fn ready() -> BadgeEnv {
    let mut env = BadgeEnv::new(7);
    TitleBadgeContract::init(&mut env, ADMIN).unwrap();
    env
}

fn badge(title: &str, granted_at: u64, active: bool) -> TitleBadge {
    TitleBadge { title: title.to_string(), granted_at, active }
}

#[test]
fn the_registry_has_one_admin() {
    let mut env = BadgeEnv::new(7);
    assert_eq!(TitleBadgeContract::get_admin(&env), Err(Error::NotInitialized));
    assert_eq!(
        TitleBadgeContract::grant(&mut env, ADMIN, ANN, "gm".to_string()),
        Err(Error::NotInitialized)
    );
    assert_eq!(env.effects, vec![Effect::RequireAuth(ADMIN)]);
    env.effects.clear();

    assert_eq!(TitleBadgeContract::init(&mut env, ADMIN), Ok(()));
    assert_eq!(
        env.effects,
        vec![
            Effect::RequireAuth(ADMIN),
            Effect::Write(Entry::Admin(ADMIN)),
            Effect::Publish(BadgeEvent::Initialized { admin: ADMIN }),
        ]
    );
    assert_eq!(TitleBadgeContract::init(&mut env, BEA), Err(Error::AlreadyInitialized));
    assert_eq!(TitleBadgeContract::get_admin(&env), Ok(ADMIN));
    assert_eq!(
        TitleBadgeContract::grant(&mut env, BEA, ANN, "gm".to_string()),
        Err(Error::NotAdmin)
    );
    assert_eq!(TitleBadgeContract::revoke(&mut env, BEA, ANN), Err(Error::NotAdmin));
    assert_eq!(TitleBadgeContract::get(&env, ANN), None);
}

#[test]
fn a_grant_replaces_what_stood_there() {
    let mut env = ready();
    env.effects.clear();
    TitleBadgeContract::grant(&mut env, ADMIN, ANN, "fm".to_string()).unwrap();
    assert_eq!(
        env.effects,
        vec![
            Effect::RequireAuth(ADMIN),
            Effect::Write(Entry::Badge { player: ANN, badge: badge("fm", 7, true) }),
            Effect::Publish(BadgeEvent::Granted { player: ANN, title: "fm".to_string() }),
        ]
    );
    env.sequence = 9;
    TitleBadgeContract::verify(&mut env, ADMIN, ANN, "im".to_string()).unwrap();
    assert_eq!(TitleBadgeContract::get(&env, ANN), Some(badge("im", 9, true)));
    assert!(TitleBadgeContract::is_verified(&env, ANN));
    assert!(!TitleBadgeContract::is_verified(&env, BEA));
}

#[test]
fn a_revoked_badge_stays_on_record() {
    let mut env = ready();
    assert_eq!(TitleBadgeContract::revoke(&mut env, ADMIN, ANN), Err(Error::BadgeNotFound));
    TitleBadgeContract::grant(&mut env, ADMIN, ANN, "gm".to_string()).unwrap();
    env.sequence = 20;
    env.effects.clear();
    assert_eq!(TitleBadgeContract::revoke(&mut env, ADMIN, ANN), Ok(()));
    assert_eq!(
        env.effects,
        vec![
            Effect::RequireAuth(ADMIN),
            Effect::Write(Entry::Badge { player: ANN, badge: badge("gm", 7, false) }),
            Effect::Publish(BadgeEvent::Revoked { player: ANN }),
        ]
    );
    assert!(!TitleBadgeContract::is_verified(&env, ANN));
    assert_eq!(TitleBadgeContract::get(&env, ANN), Some(badge("gm", 7, false)));
    assert_eq!(TitleBadgeContract::revoke(&mut env, ADMIN, ANN), Err(Error::AlreadyRevoked));
    TitleBadgeContract::grant(&mut env, ADMIN, ANN, "gm".to_string()).unwrap();
    assert!(TitleBadgeContract::is_verified(&env, ANN));
}

#[test]
fn badge_codes_topics_and_keys_are_stable() {
    for (error, code) in [
        (Error::AlreadyInitialized, 1),
        (Error::NotInitialized, 2),
        (Error::NotAdmin, 3),
        (Error::BadgeNotFound, 4),
        (Error::AlreadyRevoked, 5),
    ] {
        assert_eq!(error.code(), code);
    }
    assert_eq!(BadgeEvent::Initialized { admin: ADMIN }.topic(), "init");
    assert_eq!(BadgeEvent::Granted { player: ANN, title: String::new() }.topic(), "grant");
    assert_eq!(BadgeEvent::Revoked { player: ANN }.topic(), "revoke");
    assert_eq!(Entry::Admin(ADMIN).key(), DataKey::Admin);
    assert_eq!(
        Entry::Badge { player: ANN, badge: badge("gm", 1, true) }.key(),
        DataKey::Badge(ANN)
    );
}
