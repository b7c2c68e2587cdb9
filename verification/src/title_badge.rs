//! Title Badge: an admin-gated registry of player titles/badges.
//!
//! A single admin (`init`) is the only address allowed to grant or revoke a
//! title. Titles are stored per player and readable via `get`. Re-granting a
//! player replaces their previous title; revoking marks the badge inactive
//! while keeping the record so history is not silently lost.

use vstd::prelude::*;

use crate::host::{Address, Effect, Table};

verus! {

/// Storage keys for the contract.
#[derive(Clone, Copy, Debug, PartialEq, Eq, Structural)]
pub enum DataKey {
    /// The admin address allowed to grant and revoke titles.
    Admin,
    /// A player's badge record.
    Badge(Address),
}

/// A player's title badge.
#[derive(Debug, PartialEq, Eq)]
pub struct TitleBadge {
    /// Short title/rank symbol, e.g. `gm`, `im`, `fm`.
    pub title: String,
    /// Ledger sequence at which the title was granted or last updated.
    pub granted_at: u64,
    /// False once an admin revokes the title.
    pub active: bool,
}

impl Clone for TitleBadge {
    fn clone(&self) -> (r: Self)
        ensures
            r == *self,
    {
        TitleBadge {
            title: self.title.clone(),
            granted_at: self.granted_at,
            active: self.active,
        }
    }
}

/// Structured error codes for the TitleBadge contract.
#[derive(Copy, Clone, Debug, Eq, PartialEq, PartialOrd, Ord, Structural)]
pub enum Error {
    /// Contract has already been initialized.
    AlreadyInitialized,
    /// Contract has not been initialized.
    NotInitialized,
    /// Caller is not the contract admin.
    NotAdmin,
    /// Player has no badge record.
    BadgeNotFound,
    /// Badge exists but is already revoked.
    AlreadyRevoked,
}

impl Error {
    /// The number of the error, from 1 on in the order above.
    pub open spec fn number(self) -> u32 {
        match self {
            Error::AlreadyInitialized => 1,
            Error::NotInitialized => 2,
            Error::NotAdmin => 3,
            Error::BadgeNotFound => 4,
            Error::AlreadyRevoked => 5,
        }
    }

    /// The number that stands for the error on the ledger.
    pub fn code(self) -> (r: u32)
        ensures
            r == self.number(),
    {
        match self {
            Error::AlreadyInitialized => 1,
            Error::NotInitialized => 2,
            Error::NotAdmin => 3,
            Error::BadgeNotFound => 4,
            Error::AlreadyRevoked => 5,
        }
    }
}

/// An entry of the contract's storage.
#[derive(Clone, Debug, PartialEq, Eq)]
pub enum Entry {
    Admin(Address),
    Badge { player: Address, badge: TitleBadge },
}

impl Entry {
    /// The key of an entry.
    pub open spec fn key_of(self) -> DataKey {
        match self {
            Entry::Admin(_) => DataKey::Admin,
            Entry::Badge { player, .. } => DataKey::Badge(player),
        }
    }

    /// The key an entry is stored under.
    pub fn key(&self) -> (r: DataKey)
        ensures
            r == self.key_of(),
    {
        match self {
            Entry::Admin(_) => DataKey::Admin,
            Entry::Badge { player, .. } => DataKey::Badge(*player),
        }
    }
}

/// What the contract publishes.
#[derive(Clone, Debug, PartialEq, Eq)]
pub enum BadgeEvent {
    Initialized { admin: Address },
    Granted { player: Address, title: String },
    Revoked { player: Address },
}

impl BadgeEvent {
    /// The topic of an event.
    pub open spec fn topic_text(self) -> Seq<char> {
        match self {
            BadgeEvent::Initialized { .. } => "init"@,
            BadgeEvent::Granted { .. } => "grant"@,
            BadgeEvent::Revoked { .. } => "revoke"@,
        }
    }

    /// The symbol an event is published under.
    pub fn topic(&self) -> (r: &'static str)
        ensures
            r@ == self.topic_text(),
    {
        match self {
            BadgeEvent::Initialized { .. } => "init",
            BadgeEvent::Granted { .. } => "grant",
            BadgeEvent::Revoked { .. } => "revoke",
        }
    }
}

/// A step of the script a call leaves to the host.
pub type BadgeEffect = Effect<Entry, BadgeEvent>;

/// The contract's storage and what it sees of the ledger.
pub ghost struct State {
    pub admin: Option<Address>,
    pub badges: Map<Address, TitleBadge>,
    /// The ledger sequence of the call.
    pub sequence: u32,
}

/// The contract's storage, the ledger around it, and the script of the calls
/// made so far.
#[derive(Debug, Clone)]
pub struct BadgeEnv {
    pub admin: Option<Address>,
    pub badges: Table<Address, TitleBadge>,
    pub sequence: u32,
    pub effects: Vec<BadgeEffect>,
}

impl View for BadgeEnv {
    type V = State;

    open spec fn view(&self) -> State {
        State { admin: self.admin, badges: self.badges@, sequence: self.sequence }
    }
}

/// What a call does: the state it leaves, the script it adds, and what it
/// returns.
pub ghost struct Step {
    pub state: State,
    pub effects: Seq<BadgeEffect>,
    pub result: Result<(), Error>,
}

/// Why an address cannot act as the admin, if it cannot.
pub open spec fn admin_fault(s: State, caller: Address) -> Option<Error> {
    match s.admin {
        None => Some(Error::NotInitialized),
        Some(admin) => if admin == caller {
            None
        } else {
            Some(Error::NotAdmin)
        },
    }
}

/// The state with a player's badge set.
pub open spec fn with_badge(s: State, player: Address, badge: TitleBadge) -> State {
    State { badges: s.badges.insert(player, badge), ..s }
}

/// [`TitleBadgeContract::init`].
pub open spec fn initialized(s: State, admin: Address) -> Step {
    if s.admin is Some {
        Step { state: s, effects: seq![], result: Err(Error::AlreadyInitialized) }
    } else {
        Step {
            state: State { admin: Some(admin), ..s },
            effects: seq![
                Effect::RequireAuth(admin),
                Effect::Write(Entry::Admin(admin)),
                Effect::Publish(BadgeEvent::Initialized { admin }),
            ],
            result: Ok(()),
        }
    }
}

/// [`TitleBadgeContract::grant`].
pub open spec fn granted(s: State, admin: Address, player: Address, title: String) -> Step {
    let auth = seq![Effect::RequireAuth(admin)];
    match admin_fault(s, admin) {
        Some(e) => Step { state: s, effects: auth, result: Err(e) },
        None => {
            let badge = TitleBadge { title, granted_at: s.sequence as u64, active: true };
            Step {
                state: with_badge(s, player, badge),
                effects: auth + seq![
                    Effect::Write(Entry::Badge { player, badge }),
                    Effect::Publish(BadgeEvent::Granted { player, title }),
                ],
                result: Ok(()),
            }
        },
    }
}

/// [`TitleBadgeContract::revoke`].
pub open spec fn revoked(s: State, admin: Address, player: Address) -> Step {
    let auth = seq![Effect::RequireAuth(admin)];
    match admin_fault(s, admin) {
        Some(e) => Step { state: s, effects: auth, result: Err(e) },
        None => if !s.badges.dom().contains(player) {
            Step { state: s, effects: auth, result: Err(Error::BadgeNotFound) }
        } else if !s.badges[player].active {
            Step { state: s, effects: auth, result: Err(Error::AlreadyRevoked) }
        } else {
            let badge = TitleBadge { active: false, ..s.badges[player] };
            Step {
                state: with_badge(s, player, badge),
                effects: auth + seq![
                    Effect::Write(Entry::Badge { player, badge }),
                    Effect::Publish(BadgeEvent::Revoked { player }),
                ],
                result: Ok(()),
            }
        },
    }
}

/// Whether a player holds an active badge.
pub open spec fn verified(s: State, player: Address) -> bool {
    s.badges.dom().contains(player) && s.badges[player].active
}

/// Whether a call left the state and script a step says.
pub open spec fn took(before: BadgeEnv, after: BadgeEnv, step: Step) -> bool {
    &&& after@ == step.state
    &&& after.effects@ =~= before.effects@ + step.effects
}

impl BadgeEnv {
    /// The storage of a contract that was just deployed.
    pub fn new(sequence: u32) -> (r: Self)
        ensures
            r@ == (State { admin: None, badges: Map::empty(), sequence }),
            r.effects@.len() == 0,
    {
        BadgeEnv { admin: None, badges: Table::new(), sequence, effects: Vec::new() }
    }
}

/// The title contract.
pub struct TitleBadgeContract;

impl TitleBadgeContract {
    /// Initialize the registry with a single admin. Can only be called once.
    pub fn init(env: &mut BadgeEnv, admin: Address) -> (r: Result<(), Error>)
        ensures
            took(*old(env), *final(env), initialized(old(env)@, admin)),
            r == initialized(old(env)@, admin).result,
    {
        if env.admin.is_some() {
            return Err(Error::AlreadyInitialized);
        }
        env.effects.push(Effect::RequireAuth(admin));
        env.admin = Some(admin);
        env.effects.push(Effect::Write(Entry::Admin(admin)));
        env.effects.push(Effect::Publish(BadgeEvent::Initialized { admin }));
        Ok(())
    }

    /// Grant `player` the title `title`, replacing any previous title.
    ///
    /// Admin-gated. Emits a `grant` event.
    pub fn grant(env: &mut BadgeEnv, admin: Address, player: Address, title: String) -> (r: Result<
        (),
        Error,
    >)
        ensures
            took(*old(env), *final(env), granted(old(env)@, admin, player, title)),
            r == granted(old(env)@, admin, player, title).result,
    {
        env.effects.push(Effect::RequireAuth(admin));
        match Self::check_admin(env, &admin) {
            Ok(()) => {},
            Err(e) => {
                return Err(e);
            },
        }
        let badge = TitleBadge {
            title: title.clone(),
            granted_at: env.sequence as u64,
            active: true,
        };
        env.badges.set(player, badge.clone());
        env.effects.push(Effect::Write(Entry::Badge { player, badge }));
        env.effects.push(Effect::Publish(BadgeEvent::Granted { player, title }));
        Ok(())
    }

    /// Alias for [`Self::grant`].
    pub fn verify(env: &mut BadgeEnv, admin: Address, player: Address, title: String) -> (r: Result<
        (),
        Error,
    >)
        ensures
            took(*old(env), *final(env), granted(old(env)@, admin, player, title)),
            r == granted(old(env)@, admin, player, title).result,
    {
        Self::grant(env, admin, player, title)
    }

    /// Revoke `player`'s badge.
    ///
    /// Admin-gated. Fails if the player has no badge or theirs is already
    /// revoked, so a revocation cannot be silently repeated.
    pub fn revoke(env: &mut BadgeEnv, admin: Address, player: Address) -> (r: Result<(), Error>)
        ensures
            took(*old(env), *final(env), revoked(old(env)@, admin, player)),
            r == revoked(old(env)@, admin, player).result,
    {
        env.effects.push(Effect::RequireAuth(admin));
        match Self::check_admin(env, &admin) {
            Ok(()) => {},
            Err(e) => {
                return Err(e);
            },
        }
        let mut badge = match env.badges.get(&player) {
            Some(badge) => badge.clone(),
            None => {
                return Err(Error::BadgeNotFound);
            },
        };
        if !badge.active {
            return Err(Error::AlreadyRevoked);
        }
        badge.active = false;
        env.badges.set(player, badge.clone());
        env.effects.push(Effect::Write(Entry::Badge { player, badge }));
        env.effects.push(Effect::Publish(BadgeEvent::Revoked { player }));
        Ok(())
    }

    /// Return a player's badge record, if one exists.
    pub fn get(env: &BadgeEnv, player: Address) -> (r: Option<TitleBadge>)
        ensures
            r == if env@.badges.dom().contains(player) {
                Some(env@.badges[player])
            } else {
                None
            },
    {
        match env.badges.get(&player) {
            Some(badge) => Some(badge.clone()),
            None => None,
        }
    }

    /// Return whether a player currently holds an active badge.
    pub fn is_verified(env: &BadgeEnv, player: Address) -> (r: bool)
        ensures
            r == verified(env@, player),
    {
        match Self::get(env, player) {
            Some(badge) => badge.active,
            None => false,
        }
    }

    /// Return the configured admin address.
    pub fn get_admin(env: &BadgeEnv) -> (r: Result<Address, Error>)
        ensures
            r == match env@.admin {
                Some(admin) => Ok(admin),
                None => Err(Error::NotInitialized),
            },
    {
        match env.admin {
            Some(admin) => Ok(admin),
            None => Err(Error::NotInitialized),
        }
    }

    /// Fail unless `caller` is the registered admin.
    fn check_admin(env: &BadgeEnv, caller: &Address) -> (r: Result<(), Error>)
        ensures
            r == match admin_fault(env@, *caller) {
                None => Ok(()),
                Some(e) => Err(e),
            },
    {
        match env.admin {
            None => Err(Error::NotInitialized),
            Some(admin) => {
                if admin != *caller {
                    Err(Error::NotAdmin)
                } else {
                    Ok(())
                }
            },
        }
    }
}

// ---------------------------------------------------------------------------
// Laws
// ---------------------------------------------------------------------------

/// A call of the contract that can change its storage.
pub ghost enum Call {
    Init { admin: Address },
    Grant { admin: Address, player: Address, title: String },
    Revoke { admin: Address, player: Address },
}

/// What a call does.
pub open spec fn run(s: State, call: Call) -> Step {
    match call {
        Call::Init { admin } => initialized(s, admin),
        Call::Grant { admin, player, title } => granted(s, admin, player, title),
        Call::Revoke { admin, player } => revoked(s, admin, player),
    }
}

/// Who makes a call.
pub open spec fn caller(call: Call) -> Address {
    match call {
        Call::Init { admin } => admin,
        Call::Grant { admin, .. } => admin,
        Call::Revoke { admin, .. } => admin,
    }
}

/// A call that fails changes nothing.
pub proof fn law_failed_calls_change_nothing(s: State, call: Call)
    requires
        run(s, call).result is Err,
    ensures
        run(s, call).state == s,
        forall|i: int|
            0 <= i < run(s, call).effects.len() ==> #[trigger] run(s, call).effects[i]
                is RequireAuth,
{
}

/// There is one admin, for good: once set, no call changes it.
pub proof fn law_the_admin_stays(s: State, call: Call)
    requires
        s.admin is Some,
    ensures
        run(s, call).state.admin == s.admin,
{
}

/// Only the admin, with their authorisation, changes a badge.
pub proof fn law_only_the_admin_changes_badges(s: State, call: Call)
    requires
        run(s, call).state.badges != s.badges,
    ensures
        s.admin == Some(caller(call)),
        run(s, call).effects.len() > 0,
        run(s, call).effects[0] == Effect::<Entry, BadgeEvent>::RequireAuth(caller(call)),
{
}

/// A call about one player leaves every other player's badge as it was.
pub proof fn law_calls_touch_one_player(s: State, call: Call, other: Address)
    requires
        match call {
            Call::Init { .. } => true,
            Call::Grant { player, .. } => player != other,
            Call::Revoke { player, .. } => player != other,
        },
    ensures
        run(s, call).state.badges.dom().contains(other) == s.badges.dom().contains(other),
        s.badges.dom().contains(other) ==> run(s, call).state.badges[other] == s.badges[other],
{
}

/// History is kept: no call removes a record, and a revoked badge keeps its
/// title and when it was granted.
pub proof fn law_records_are_kept(s: State, call: Call, player: Address)
    requires
        s.badges.dom().contains(player),
    ensures
        run(s, call).state.badges.dom().contains(player),
        call is Revoke ==> run(s, call).state.badges[player].title == s.badges[player].title
            && run(s, call).state.badges[player].granted_at == s.badges[player].granted_at,
{
}

/// A grant, whatever stood there before, leaves the player with that title,
/// active, as of the ledger's sequence.
pub proof fn law_grants_replace(s: State, admin: Address, player: Address, title: String)
    requires
        s.admin == Some(admin),
    ensures
        granted(s, admin, player, title).result is Ok,
        verified(granted(s, admin, player, title).state, player),
        granted(s, admin, player, title).state.badges[player].title == title,
        granted(s, admin, player, title).state.badges[player].granted_at == s.sequence,
{
}

/// An active badge can be revoked, once: the second revocation is refused, and
/// a new grant makes the badge active again.
pub proof fn law_revocations_are_not_repeated(
    s: State,
    admin: Address,
    player: Address,
    title: String,
)
    requires
        s.admin == Some(admin),
        verified(s, player),
    ensures
        ({
            let first = revoked(s, admin, player);
            let second = revoked(first.state, admin, player);
            let again = granted(first.state, admin, player, title);
            &&& first.result is Ok
            &&& !verified(first.state, player)
            &&& second.result == Err::<(), Error>(Error::AlreadyRevoked)
            &&& again.result is Ok
            &&& verified(again.state, player)
        }),
{
}

/// The first to be named is the admin, and everybody hears of it; a second
/// initialization is refused.
pub proof fn law_the_admin_is_who_was_named(s: State, admin: Address)
    ensures
        initialized(s, admin).result == if s.admin is Some {
            Err::<(), Error>(Error::AlreadyInitialized)
        } else {
            Ok(())
        },
        s.admin is None ==> {
            &&& initialized(s, admin).state == (State { admin: Some(admin), ..s })
            &&& initialized(s, admin).effects == seq![
                Effect::RequireAuth(admin),
                Effect::Write(Entry::Admin(admin)),
                Effect::Publish(BadgeEvent::Initialized { admin }),
            ]
        },
{
}

/// The admin, and only the admin, gives any player any title, and everybody
/// hears of it.
pub proof fn law_grants_give_the_title(s: State, admin: Address, player: Address, title: String)
    ensures
        ({
            let step = granted(s, admin, player, title);
            let badge = TitleBadge { title, granted_at: s.sequence as u64, active: true };
            &&& step.result == match s.admin {
                None => Err::<(), Error>(Error::NotInitialized),
                Some(a) => if a == admin {
                    Ok(())
                } else {
                    Err(Error::NotAdmin)
                },
            }
            &&& step.result is Ok ==> {
                &&& step.state == (State { badges: s.badges.insert(player, badge), ..s })
                &&& step.effects == seq![
                    Effect::RequireAuth(admin),
                    Effect::Write(Entry::Badge { player, badge }),
                    Effect::Publish(BadgeEvent::Granted { player, title }),
                ]
            }
        }),
{
}

/// The admin, and only the admin, revokes an active badge, which stays on record
/// as it was but for being active; everybody hears of it.
pub proof fn law_revocations_end_the_badge(s: State, admin: Address, player: Address)
    ensures
        ({
            let step = revoked(s, admin, player);
            let badge = TitleBadge {
                title: s.badges[player].title,
                granted_at: s.badges[player].granted_at,
                active: false,
            };
            &&& step.result == match (s.admin, s.badges.get(player)) {
                (None, _) => Err::<(), Error>(Error::NotInitialized),
                (Some(a), found) => if a != admin {
                    Err(Error::NotAdmin)
                } else {
                    match found {
                        None => Err(Error::BadgeNotFound),
                        Some(old_badge) => if old_badge.active {
                            Ok(())
                        } else {
                            Err(Error::AlreadyRevoked)
                        },
                    }
                },
            }
            &&& step.result is Ok ==> {
                &&& step.state == (State { badges: s.badges.insert(player, badge), ..s })
                &&& step.effects == seq![
                    Effect::RequireAuth(admin),
                    Effect::Write(Entry::Badge { player, badge }),
                    Effect::Publish(BadgeEvent::Revoked { player }),
                ]
            }
        }),
{
}

/// A player is verified exactly while the record of their badge says it is
/// active.
pub proof fn law_verified_means_active(s: State, player: Address)
    ensures
        verified(s, player) <==> (s.badges.get(player) matches Some(badge) && badge.active),
{
}

/// The numbers of the errors follow their order, from 1 on, and no two events
/// share a topic.
pub proof fn law_errors_and_events_are_told_apart(a: BadgeEvent, b: BadgeEvent)
    ensures
        Error::AlreadyInitialized.number() == 1,
        Error::NotInitialized.number() == 2,
        Error::NotAdmin.number() == 3,
        Error::BadgeNotFound.number() == 4,
        Error::AlreadyRevoked.number() == 5,
        a.topic_text() == b.topic_text() ==> (a is Initialized <==> b is Initialized) && (
        a is Granted <==> b is Granted),
{
    reveal_strlit("init");
    reveal_strlit("grant");
    reveal_strlit("revoke");
    assert(a.topic_text() == b.topic_text() ==> a.topic_text()[0] == b.topic_text()[0]);
}

/// The storage with an entry set.
pub open spec fn written(s: State, entry: Entry) -> State {
    match entry {
        Entry::Admin(admin) => State { admin: Some(admin), ..s },
        Entry::Badge { player, badge } => with_badge(s, player, badge),
    }
}

/// The storage after the writes of a script.
pub open spec fn perform(s: State, effects: Seq<BadgeEffect>) -> State
    decreases effects.len(),
{
    if effects.len() == 0 {
        s
    } else {
        match effects[0] {
            Effect::Write(entry) => perform(written(s, entry), effects.skip(1)),
            _ => perform(s, effects.skip(1)),
        }
    }
}

/// The writes in the script of a call account for all that it changes in
/// storage: a host that performs them ends up with the storage the call
/// describes.
pub proof fn law_writes_account_for_the_state(s: State, call: Call)
    ensures
        perform(s, run(s, call).effects) == run(s, call).state,
{
    reveal_with_fuel(perform, 4);
}

} // verus!
