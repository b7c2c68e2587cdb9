//! Decentralized referral & affiliate commission splitter.
//!
//! Records permanent referee→referrer bindings and automatically splits a
//! configurable fee percentage to the referrer on every wager. Self-referral
//! loops are rejected at registration time.
//!
//! Commissions are accrued by [`ReferralSplitter::settle_wager`] and paid out
//! by [`ReferralSplitter::withdraw_earnings`], which transfers the referrer's
//! full balance and zeroes it.

use vstd::prelude::*;

use crate::host::{Address, Effect, Table};

verus! {

/// Fee denominator: commission_bps / 10_000 = commission fraction.
pub const FEE_DENOMINATOR: i128 = 10_000;

/// The commission where none was configured, in basis points.
pub const DEFAULT_COMMISSION_BPS: u32 = 1_000;

/// The highest commission that can be configured, in basis points.
pub const MAX_COMMISSION_BPS: u32 = 10_000;

/// Storage keys for the contract.
#[derive(Clone, Copy, Debug, PartialEq, Eq, Structural)]
pub enum DataKey {
    /// admin address
    Admin,
    /// referrer for a given referee address
    Referrer(Address),
    /// withdrawable commission balance for a referrer
    Earnings(Address),
    /// configurable commission in basis points (e.g. 1000 = 10%)
    CommissionBps,
}

/// Structured error codes for [`ReferralSplitter`].
#[derive(Copy, Clone, Debug, Eq, PartialEq, Structural)]
pub enum Error {
    AlreadyInitialized,
    NotAdmin,
    /// Referee already has a referrer registered
    AlreadyReferred,
    /// Self-referral is forbidden
    SelfReferral,
    InvalidAmount,
    InvalidCommission,
}

impl Error {
    /// The number of the error, from 1 on in the order above.
    pub open spec fn number(self) -> u32 {
        match self {
            Error::AlreadyInitialized => 1,
            Error::NotAdmin => 2,
            Error::AlreadyReferred => 3,
            Error::SelfReferral => 4,
            Error::InvalidAmount => 5,
            Error::InvalidCommission => 6,
        }
    }

    /// The number that stands for the error on the ledger.
    pub fn code(self) -> (r: u32)
        ensures
            r == self.number(),
    {
        match self {
            Error::AlreadyInitialized => 1,
            Error::NotAdmin => 2,
            Error::AlreadyReferred => 3,
            Error::SelfReferral => 4,
            Error::InvalidAmount => 5,
            Error::InvalidCommission => 6,
        }
    }
}

/// An entry of the contract's storage.
#[derive(Clone, Copy, Debug, PartialEq, Eq)]
pub enum Entry {
    Admin(Address),
    Referrer { referee: Address, referrer: Address },
    Earnings { referrer: Address, balance: i128 },
    CommissionBps(u32),
}

impl Entry {
    /// The key of an entry.
    pub open spec fn key_of(self) -> DataKey {
        match self {
            Entry::Admin(_) => DataKey::Admin,
            Entry::Referrer { referee, .. } => DataKey::Referrer(referee),
            Entry::Earnings { referrer, .. } => DataKey::Earnings(referrer),
            Entry::CommissionBps(_) => DataKey::CommissionBps,
        }
    }

    /// The key an entry is stored under.
    pub fn key(&self) -> (r: DataKey)
        ensures
            r == self.key_of(),
    {
        match self {
            Entry::Admin(_) => DataKey::Admin,
            Entry::Referrer { referee, .. } => DataKey::Referrer(*referee),
            Entry::Earnings { referrer, .. } => DataKey::Earnings(*referrer),
            Entry::CommissionBps(_) => DataKey::CommissionBps,
        }
    }
}

/// What the contract publishes.
#[derive(Clone, Copy, Debug, PartialEq, Eq)]
pub enum ReferralEvent {
    Earned { referrer: Address, cut: i128 },
    Withdrawn { referrer: Address, token: Address, amount: i128 },
}

impl ReferralEvent {
    /// The topic of an event.
    pub open spec fn topic_text(self) -> Seq<char> {
        match self {
            ReferralEvent::Earned { .. } => "ref_earn"@,
            ReferralEvent::Withdrawn { .. } => "ref_wd"@,
        }
    }

    /// The symbol an event is published under.
    pub fn topic(&self) -> (r: &'static str)
        ensures
            r@ == self.topic_text(),
    {
        match self {
            ReferralEvent::Earned { .. } => "ref_earn",
            ReferralEvent::Withdrawn { .. } => "ref_wd",
        }
    }
}

/// A step of the script a call leaves to the host.
pub type ReferralEffect = Effect<Entry, ReferralEvent>;

/// The contract's storage and what it sees of the ledger.
pub ghost struct State {
    pub admin: Option<Address>,
    pub commission_bps: Option<u32>,
    pub referrers: Map<Address, Address>,
    pub earnings: Map<Address, i128>,
    /// The contract's own address.
    pub contract: Address,
}

impl State {
    /// What holds of the storage between calls: the commission is at most the
    /// whole amount, nobody refers themselves, and no balance is negative.
    pub open spec fn well_formed(self) -> bool {
        &&& self.commission_bps matches Some(bps) ==> bps <= MAX_COMMISSION_BPS
        &&& forall|who: Address| #[trigger]
            self.referrers.dom().contains(who) ==> self.referrers[who] != who
        &&& forall|who: Address| #[trigger]
            self.earnings.dom().contains(who) ==> self.earnings[who] >= 0
    }
}

/// The contract's storage, the ledger around it, and the script of the calls
/// made so far.
#[derive(Debug, Clone)]
pub struct ReferralEnv {
    pub admin: Option<Address>,
    pub commission_bps: Option<u32>,
    pub referrers: Table<Address, Address>,
    pub earnings: Table<Address, i128>,
    pub contract: Address,
    pub effects: Vec<ReferralEffect>,
}

impl View for ReferralEnv {
    type V = State;

    open spec fn view(&self) -> State {
        State {
            admin: self.admin,
            commission_bps: self.commission_bps,
            referrers: self.referrers@,
            earnings: self.earnings@,
            contract: self.contract,
        }
    }
}

/// What a call does: the state it leaves, the script it adds, and what it
/// returns.
pub ghost struct Step {
    pub state: State,
    pub effects: Seq<ReferralEffect>,
    pub result: Result<i128, Error>,
}

/// The withdrawable balance of a referrer.
pub open spec fn balance_of(s: State, referrer: Address) -> i128 {
    if s.earnings.dom().contains(referrer) {
        s.earnings[referrer]
    } else {
        0
    }
}

/// The commission in force, in basis points.
pub open spec fn commission(s: State) -> u32 {
    match s.commission_bps {
        Some(bps) => bps,
        None => DEFAULT_COMMISSION_BPS,
    }
}

/// The referrer's cut of an amount.
pub open spec fn cut_of(s: State, amount: i128) -> int {
    (amount * commission(s)) / (FEE_DENOMINATOR as int)
}

/// The state with one balance set.
pub open spec fn with_balance(s: State, referrer: Address, balance: i128) -> State {
    State { earnings: s.earnings.insert(referrer, balance), ..s }
}

/// [`ReferralSplitter::initialize`].
pub open spec fn initialized(s: State, admin: Address, commission_bps: u32) -> Step {
    if s.admin is Some {
        Step { state: s, effects: seq![], result: Err(Error::AlreadyInitialized) }
    } else if commission_bps > MAX_COMMISSION_BPS {
        Step { state: s, effects: seq![], result: Err(Error::InvalidCommission) }
    } else {
        Step {
            state: State { admin: Some(admin), commission_bps: Some(commission_bps), ..s },
            effects: seq![
                Effect::RequireAuth(admin),
                Effect::Write(Entry::Admin(admin)),
                Effect::Write(Entry::CommissionBps(commission_bps)),
            ],
            result: Ok(0),
        }
    }
}

/// [`ReferralSplitter::register_referral`].
pub open spec fn registered(s: State, referee: Address, referrer: Address) -> Step {
    let auth = seq![Effect::RequireAuth(referee)];
    if referee == referrer {
        Step { state: s, effects: auth, result: Err(Error::SelfReferral) }
    } else if s.referrers.dom().contains(referee) {
        Step { state: s, effects: auth, result: Err(Error::AlreadyReferred) }
    } else {
        Step {
            state: State { referrers: s.referrers.insert(referee, referrer), ..s },
            effects: auth + seq![Effect::Write(Entry::Referrer { referee, referrer })],
            result: Ok(0),
        }
    }
}

/// Whether the numbers of a wager fit: the amount times the commission, and the
/// balance with the cut.
pub open spec fn wager_fits(s: State, referee: Address, amount: i128) -> bool {
    amount > 0 && s.referrers.dom().contains(referee) ==> {
        &&& amount * commission(s) <= i128::MAX
        &&& cut_of(s, amount) > 0 ==> balance_of(s, s.referrers[referee]) + cut_of(s, amount)
            <= i128::MAX
    }
}

/// [`ReferralSplitter::settle_wager`]: the cut is credited to the referrer, if
/// there is one and the cut is not zero.
pub open spec fn settled(s: State, referee: Address, amount: i128) -> Step {
    let cut = cut_of(s, amount) as i128;
    if amount <= 0 {
        Step { state: s, effects: seq![], result: Err(Error::InvalidAmount) }
    } else if s.referrers.dom().contains(referee) && cut > 0 {
        let referrer = s.referrers[referee];
        let balance = (balance_of(s, referrer) + cut) as i128;
        Step {
            state: with_balance(s, referrer, balance),
            effects: seq![
                Effect::Write(Entry::Earnings { referrer, balance }),
                Effect::Publish(ReferralEvent::Earned { referrer, cut }),
            ],
            result: Ok(cut),
        }
    } else {
        Step { state: s, effects: seq![], result: Ok(0) }
    }
}

/// [`ReferralSplitter::withdraw_earnings`]: the balance is zeroed before it is
/// transferred.
pub open spec fn withdrawn(s: State, referrer: Address, token: Address) -> Step {
    let auth = seq![Effect::RequireAuth(referrer)];
    let amount = balance_of(s, referrer);
    if amount <= 0 {
        Step { state: s, effects: auth, result: Ok(0) }
    } else {
        Step {
            state: with_balance(s, referrer, 0),
            effects: auth + seq![
                Effect::Write(Entry::Earnings { referrer, balance: 0 }),
                Effect::Transfer { token, from: s.contract, to: referrer, amount },
                Effect::Publish(ReferralEvent::Withdrawn { referrer, token, amount }),
            ],
            result: Ok(amount),
        }
    }
}

/// Whether a call left the state and script a step says.
pub open spec fn took(before: ReferralEnv, after: ReferralEnv, step: Step) -> bool {
    &&& after@ == step.state
    &&& after.effects@ =~= before.effects@ + step.effects
}

impl ReferralEnv {
    /// The storage of a contract that was just deployed.
    pub fn new(contract: Address) -> (r: Self)
        ensures
            r@ == (State {
                admin: None,
                commission_bps: None,
                referrers: Map::empty(),
                earnings: Map::empty(),
                contract,
            }),
            r@.well_formed(),
            r.effects@.len() == 0,
    {
        ReferralEnv {
            admin: None,
            commission_bps: None,
            referrers: Table::new(),
            earnings: Table::new(),
            contract,
            effects: Vec::new(),
        }
    }
}

impl ReferralEnv {
    /// Whether the numbers of a wager that is about to be settled with
    /// [`ReferralSplitter::settle_wager`] fit.
    pub fn can_settle(&self, referee: Address, amount: i128) -> (r: bool)
        ensures
            r == wager_fits(self@, referee, amount),
    {
        if amount <= 0 {
            return true;
        }
        let referrer = match self.referrers.get(&referee) {
            Some(referrer) => *referrer,
            None => {
                return true;
            },
        };
        let bps: u32 = ReferralSplitter::get_commission_bps(self);
        proof {
            assert(0 <= amount * bps) by (nonlinear_arith)
                requires
                    amount > 0,
                    bps >= 0,
            ;
        }
        match amount.checked_mul(bps as i128) {
            None => false,
            Some(product) => {
                let cut: i128 = product / FEE_DENOMINATOR;
                cut <= 0 || ReferralSplitter::get_earnings(self, referrer) <= i128::MAX - cut
            },
        }
    }
}

/// The referral contract.
pub struct ReferralSplitter;

impl ReferralSplitter {
    /// Initialise the contract; sets admin and commission in basis points.
    pub fn initialize(env: &mut ReferralEnv, admin: Address, commission_bps: u32) -> (r: Result<
        (),
        Error,
    >)
        ensures
            took(*old(env), *final(env), initialized(old(env)@, admin, commission_bps)),
            match r {
                Ok(()) => initialized(old(env)@, admin, commission_bps).result is Ok,
                Err(e) => initialized(old(env)@, admin, commission_bps).result == Err::<
                    i128,
                    Error,
                >(e),
            },
            old(env)@.well_formed() ==> final(env)@.well_formed(),
    {
        if env.admin.is_some() {
            return Err(Error::AlreadyInitialized);
        }
        if commission_bps > MAX_COMMISSION_BPS {
            return Err(Error::InvalidCommission);
        }
        env.effects.push(Effect::RequireAuth(admin));
        env.admin = Some(admin);
        env.effects.push(Effect::Write(Entry::Admin(admin)));
        env.commission_bps = Some(commission_bps);
        env.effects.push(Effect::Write(Entry::CommissionBps(commission_bps)));
        Ok(())
    }

    /// Register a referee→referrer binding. Permanent once set; self-referral
    /// rejected.
    pub fn register_referral(
        env: &mut ReferralEnv,
        referee: Address,
        referrer: Address,
    ) -> (r: Result<(), Error>)
        ensures
            took(*old(env), *final(env), registered(old(env)@, referee, referrer)),
            match r {
                Ok(()) => registered(old(env)@, referee, referrer).result is Ok,
                Err(e) => registered(old(env)@, referee, referrer).result == Err::<i128, Error>(e),
            },
            old(env)@.well_formed() ==> final(env)@.well_formed(),
    {
        env.effects.push(Effect::RequireAuth(referee));
        if referee == referrer {
            return Err(Error::SelfReferral);
        }
        if env.referrers.get(&referee).is_some() {
            return Err(Error::AlreadyReferred);
        }
        env.referrers.set(referee, referrer);
        env.effects.push(Effect::Write(Entry::Referrer { referee, referrer }));
        Ok(())
    }

    /// Settle a wager of `amount` stroops. Splits commission to the referrer
    /// (if one exists) and returns the referrer's cut, which is credited to
    /// their withdrawable balance.
    ///
    /// This is accounting only: the accrued balance is moved by
    /// [`ReferralSplitter::withdraw_earnings`].
    pub fn settle_wager(env: &mut ReferralEnv, referee: Address, amount: i128) -> (r: Result<
        i128,
        Error,
    >)
        requires
            wager_fits(old(env)@, referee, amount),
        ensures
            took(*old(env), *final(env), settled(old(env)@, referee, amount)),
            r == settled(old(env)@, referee, amount).result,
            old(env)@.well_formed() ==> final(env)@.well_formed(),
    {
        if amount <= 0 {
            return Err(Error::InvalidAmount);
        }
        let referrer = match env.referrers.get(&referee) {
            Some(referrer) => *referrer,
            None => {
                return Ok(0);
            },
        };
        let bps: u32 = Self::get_commission_bps(env);
        proof {
            assert(0 <= amount * bps) by (nonlinear_arith)
                requires
                    amount > 0,
                    bps >= 0,
            ;
        }
        let cut: i128 = amount * (bps as i128) / FEE_DENOMINATOR;
        if cut > 0 {
            let balance: i128 = Self::get_earnings(env, referrer) + cut;
            env.earnings.set(referrer, balance);
            env.effects.push(Effect::Write(Entry::Earnings { referrer, balance }));
            env.effects.push(Effect::Publish(ReferralEvent::Earned { referrer, cut }));
            return Ok(cut);
        }
        Ok(0)
    }

    /// Withdraw a referrer's entire accrued commission balance in `token`.
    ///
    /// Requires the referrer's authorisation and transfers the full
    /// [`ReferralSplitter::get_earnings`] balance from this contract to the
    /// referrer. The balance is zeroed *before* the transfer
    /// (checks-effects-interactions) so a repeated or re-entrant call cannot
    /// double-pay.
    ///
    /// Withdrawing with nothing accrued is a no-op that returns `0`: it does
    /// not move any funds. Returns the amount paid out.
    pub fn withdraw_earnings(env: &mut ReferralEnv, referrer: Address, token: Address) -> (r: i128)
        ensures
            took(*old(env), *final(env), withdrawn(old(env)@, referrer, token)),
            withdrawn(old(env)@, referrer, token).result == Ok::<i128, Error>(r),
            old(env)@.well_formed() ==> final(env)@.well_formed(),
    {
        env.effects.push(Effect::RequireAuth(referrer));
        let balance: i128 = Self::get_earnings(env, referrer);
        if balance <= 0 {
            return 0;
        }
        env.earnings.set(referrer, 0);
        env.effects.push(Effect::Write(Entry::Earnings { referrer, balance: 0 }));
        env.effects.push(
            Effect::Transfer { token, from: env.contract, to: referrer, amount: balance },
        );
        env.effects.push(
            Effect::Publish(ReferralEvent::Withdrawn { referrer, token, amount: balance }),
        );
        balance
    }

    /// Returns the withdrawable commission balance for a referrer.
    pub fn get_earnings(env: &ReferralEnv, referrer: Address) -> (r: i128)
        ensures
            r == balance_of(env@, referrer),
    {
        match env.earnings.get(&referrer) {
            Some(balance) => *balance,
            None => 0,
        }
    }

    /// Returns the referrer registered for a referee, if any.
    pub fn get_referrer(env: &ReferralEnv, referee: Address) -> (r: Option<Address>)
        ensures
            r == if env@.referrers.dom().contains(referee) {
                Some(env@.referrers[referee])
            } else {
                None
            },
    {
        match env.referrers.get(&referee) {
            Some(referrer) => Some(*referrer),
            None => None,
        }
    }

    /// Returns the configured commission in basis points.
    pub fn get_commission_bps(env: &ReferralEnv) -> (r: u32)
        ensures
            r == commission(env@),
    {
        match env.commission_bps {
            Some(bps) => bps,
            None => DEFAULT_COMMISSION_BPS,
        }
    }
}

// ---------------------------------------------------------------------------
// Laws
// ---------------------------------------------------------------------------

/// A call of the contract that can change its storage.
pub ghost enum Call {
    Initialize { admin: Address, commission_bps: u32 },
    RegisterReferral { referee: Address, referrer: Address },
    SettleWager { referee: Address, amount: i128 },
    WithdrawEarnings { referrer: Address, token: Address },
}

/// What a call does.
pub open spec fn run(s: State, call: Call) -> Step {
    match call {
        Call::Initialize { admin, commission_bps } => initialized(s, admin, commission_bps),
        Call::RegisterReferral { referee, referrer } => registered(s, referee, referrer),
        Call::SettleWager { referee, amount } => settled(s, referee, amount),
        Call::WithdrawEarnings { referrer, token } => withdrawn(s, referrer, token),
    }
}

/// Whether the numbers of a call fit.
pub open spec fn in_range(s: State, call: Call) -> bool {
    match call {
        Call::SettleWager { referee, amount } => wager_fits(s, referee, amount),
        _ => true,
    }
}

/// Every call keeps the storage well formed.
pub proof fn law_calls_keep_the_invariant(s: State, call: Call)
    requires
        s.well_formed(),
        in_range(s, call),
    ensures
        run(s, call).state.well_formed(),
{
}

/// A call that fails changes nothing.
pub proof fn law_failed_calls_change_nothing(s: State, call: Call)
    requires
        run(s, call).result is Err,
    ensures
        run(s, call).state == s,
        forall|i: int|
            0 <= i < run(s, call).effects.len() ==> #[trigger] run(s, call).effects[i]
                is RequireAuth,
{
}

/// A binding is permanent: once a referee has a referrer, no call changes it,
/// and a second registration is refused.
pub proof fn law_bindings_are_permanent(s: State, call: Call, referee: Address, other: Address)
    requires
        s.referrers.dom().contains(referee),
    ensures
        run(s, call).state.referrers.dom().contains(referee),
        run(s, call).state.referrers[referee] == s.referrers[referee],
        registered(s, referee, other).result is Err,
{
}

/// Nobody can refer themselves.
pub proof fn law_no_self_referral(s: State, who: Address)
    ensures
        registered(s, who, who).result == Err::<i128, Error>(Error::SelfReferral),
{
}

/// The cut of a wager is never negative and never more than the wager; it goes
/// to the referrer's balance, and to nobody else's.
pub proof fn law_cuts_come_out_of_the_wager(
    s: State,
    referee: Address,
    amount: i128,
    who: Address,
)
    requires
        s.well_formed(),
        amount > 0,
        wager_fits(s, referee, amount),
    ensures
        settled(s, referee, amount).result matches Ok(cut) && 0 <= cut <= amount && balance_of(
            settled(s, referee, amount).state,
            who,
        ) == balance_of(s, who) + (if s.referrers.dom().contains(referee) && s.referrers[referee]
            == who {
            cut as int
        } else {
            0
        }),
{
    let bps = commission(s);
    assert(0 <= amount * bps <= amount * FEE_DENOMINATOR) by (nonlinear_arith)
        requires
            amount > 0,
            0 <= bps <= FEE_DENOMINATOR,
    ;
    assert(cut_of(s, amount) <= amount);
}

/// The balance of a referrer as it is stored, zero where nothing is.
pub open spec fn stored_balance(s: State, who: Address) -> int {
    match s.earnings.get(who) {
        Some(balance) => balance as int,
        None => 0,
    }
}

/// The commission is what was configured, at most the whole wager: the contract
/// is initialized once, with an admin and a commission that both stand from then
/// on. Without one, a tenth of each wager goes to the referrer.
pub proof fn law_the_commission_is_what_was_configured(s: State, admin: Address, bps: u32)
    ensures
        initialized(s, admin, bps).result == if s.admin is Some {
            Err::<i128, Error>(Error::AlreadyInitialized)
        } else if bps > 10_000 {
            Err(Error::InvalidCommission)
        } else {
            Ok(0)
        },
        initialized(s, admin, bps).result is Ok ==> {
            &&& initialized(s, admin, bps).state == (State {
                admin: Some(admin),
                commission_bps: Some(bps),
                ..s
            })
            &&& commission(initialized(s, admin, bps).state) == bps
            &&& initialized(s, admin, bps).effects == seq![
                Effect::<Entry, ReferralEvent>::RequireAuth(admin),
                Effect::Write(Entry::Admin(admin)),
                Effect::Write(Entry::CommissionBps(bps)),
            ]
        },
        s.commission_bps is None ==> commission(s) * 10 == 10_000,
        s.commission_bps matches Some(bps) ==> commission(s) == bps,
        FEE_DENOMINATOR == 10_000,
{
}

/// A referee names any other player as their referrer, once, and that player is
/// the one on record.
pub proof fn law_referrals_name_the_referrer(s: State, referee: Address, referrer: Address)
    ensures
        registered(s, referee, referrer).result == if referee == referrer {
            Err::<i128, Error>(Error::SelfReferral)
        } else if s.referrers.dom().contains(referee) {
            Err(Error::AlreadyReferred)
        } else {
            Ok(0)
        },
        registered(s, referee, referrer).result is Ok ==> {
            &&& registered(s, referee, referrer).state == (State {
                referrers: s.referrers.insert(referee, referrer),
                ..s
            })
            &&& registered(s, referee, referrer).effects[0] == Effect::<
                Entry,
                ReferralEvent,
            >::RequireAuth(referee)
        },
{
}

/// The referrer's cut is the configured share of the wager, rounded down: it is
/// the one number whose ten-thousandfold is at most the wager times the
/// commission, and more than that less ten thousand. It is returned, credited
/// and announced, and nothing else changes. A wager is turned away only for its
/// amount, and one of a player without a referrer credits nobody.
pub proof fn law_the_cut_is_the_configured_share(s: State, referee: Address, amount: i128)
    requires
        s.well_formed(),
        wager_fits(s, referee, amount),
    ensures
        ({
            let step = settled(s, referee, amount);
            let bps = match s.commission_bps {
                Some(bps) => bps as int,
                None => 1_000,
            };
            match (step.result, s.referrers.get(referee)) {
                (Err(e), _) => amount <= 0 && e == Error::InvalidAmount,
                (Ok(cut), None) => amount > 0 && cut == 0 && step.state == s && step.effects
                    == Seq::<ReferralEffect>::empty(),
                (Ok(cut), Some(referrer)) => {
                    let balance = stored_balance(step.state, referrer);
                    &&& amount > 0
                    &&& cut * 10_000 <= amount * bps < (cut + 1) * 10_000
                    &&& balance == stored_balance(s, referrer) + cut
                    &&& cut == 0 ==> step.state == s && step.effects == Seq::<
                        ReferralEffect,
                    >::empty()
                    &&& cut != 0 ==> {
                        &&& step.state == (State {
                            earnings: s.earnings.insert(referrer, balance as i128),
                            ..s
                        })
                        &&& step.effects == seq![
                            Effect::Write(
                                Entry::Earnings { referrer, balance: balance as i128 },
                            ),
                            Effect::Publish(ReferralEvent::Earned { referrer, cut }),
                        ]
                    }
                },
            }
        }),
{
    if amount > 0 {
        let bps = commission(s);
        assert(0 <= amount * bps) by (nonlinear_arith)
            requires
                amount > 0,
                0 <= bps,
        ;
    }
}

/// Which wagers can be settled: all whose amount times the commission, and whose
/// credit on top of the balance, can be written down.
pub proof fn law_wagers_that_fit(s: State, referee: Address, amount: i128, cut: int)
    requires
        s.well_formed(),
        amount > 0,
        s.referrers.dom().contains(referee),
        cut * 10_000 <= amount * (match s.commission_bps {
            Some(bps) => bps,
            None => 1_000,
        }) < (cut + 1) * 10_000,
    ensures
        wager_fits(s, referee, amount) <==> amount * (match s.commission_bps {
            Some(bps) => bps,
            None => 1_000,
        }) <= i128::MAX && stored_balance(s, s.referrers[referee]) + cut <= i128::MAX,
{
    let bps = commission(s);
    assert(0 <= amount * bps) by (nonlinear_arith)
        requires
            amount > 0,
            0 <= bps,
    ;
    assert(cut_of(s, amount) == cut);
}

/// A withdrawal moves the whole balance, in the token asked for, out of the
/// contract to the referrer, and leaves every other balance alone; with nothing
/// to withdraw no money moves.
pub proof fn law_withdrawals_move_the_balance(s: State, referrer: Address, token: Address)
    requires
        s.well_formed(),
    ensures
        ({
            let step = withdrawn(s, referrer, token);
            let amount = stored_balance(s, referrer) as i128;
            let auth = seq![Effect::<Entry, ReferralEvent>::RequireAuth(referrer)];
            &&& step.result == Ok::<i128, Error>(amount)
            &&& balance_of(s, referrer) == amount
            &&& amount == 0 ==> step.state == s && step.effects == auth
            &&& amount != 0 ==> {
                &&& step.state == (State { earnings: s.earnings.insert(referrer, 0), ..s })
                &&& step.effects == auth + seq![
                    Effect::Write(Entry::Earnings { referrer, balance: 0 }),
                    Effect::Transfer { token, from: s.contract, to: referrer, amount },
                    Effect::Publish(ReferralEvent::Withdrawn { referrer, token, amount }),
                ]
            }
        }),
{
}

/// What is paid out is what was accrued: a withdrawal pays the referrer the
/// whole balance, and leaves nothing for a second one.
pub proof fn law_withdrawals_pay_once(s: State, referrer: Address, token: Address, again: Address)
    requires
        s.well_formed(),
    ensures
        ({
            let first = withdrawn(s, referrer, token);
            let second = withdrawn(first.state, referrer, again);
            &&& first.result == Ok::<i128, Error>(balance_of(s, referrer))
            &&& balance_of(first.state, referrer) == 0
            &&& second.result == Ok::<i128, Error>(0)
            &&& second.state == first.state
            &&& second.effects == seq![Effect::<Entry, ReferralEvent>::RequireAuth(referrer)]
        }),
{
}

/// The balance is zeroed before the money moves, and the money moves only with
/// the referrer's authorisation.
pub proof fn law_zeroed_before_paid(s: State, referrer: Address, token: Address, i: int)
    requires
        0 <= i < withdrawn(s, referrer, token).effects.len(),
        withdrawn(s, referrer, token).effects[i] is Transfer,
    ensures
        ({
            let effects = withdrawn(s, referrer, token).effects;
            &&& effects[0] == Effect::<Entry, ReferralEvent>::RequireAuth(referrer)
            &&& exists|j: int|
                0 <= j < i && effects[j] == Effect::<Entry, ReferralEvent>::Write(
                    Entry::Earnings { referrer, balance: 0 },
                )
            &&& effects[i] == Effect::<Entry, ReferralEvent>::Transfer {
                token,
                from: s.contract,
                to: referrer,
                amount: balance_of(s, referrer),
            }
        }),
{
    let effects = withdrawn(s, referrer, token).effects;
    assert(effects[1] == Effect::<Entry, ReferralEvent>::Write(
        Entry::Earnings { referrer, balance: 0 },
    ));
}

/// Only a withdrawal moves money, and only a wager or a withdrawal changes a
/// balance.
pub proof fn law_balances_change_only_by_wager_or_withdrawal(s: State, call: Call, who: Address)
    ensures
        !(call is WithdrawEarnings) ==> forall|i: int|
            0 <= i < run(s, call).effects.len() ==> !(
            #[trigger] run(s, call).effects[i] is Transfer),
        !(call is WithdrawEarnings) && !(call is SettleWager) ==> balance_of(
            run(s, call).state,
            who,
        ) == balance_of(s, who),
        call is WithdrawEarnings && call->WithdrawEarnings_referrer != who ==> balance_of(
            run(s, call).state,
            who,
        ) == balance_of(s, who),
{
}

/// The storage with an entry set.
pub open spec fn written(s: State, entry: Entry) -> State {
    match entry {
        Entry::Admin(admin) => State { admin: Some(admin), ..s },
        Entry::Referrer { referee, referrer } => State {
            referrers: s.referrers.insert(referee, referrer),
            ..s
        },
        Entry::Earnings { referrer, balance } => with_balance(s, referrer, balance),
        Entry::CommissionBps(bps) => State { commission_bps: Some(bps), ..s },
    }
}

/// The storage after the writes of a script.
pub open spec fn perform(s: State, effects: Seq<ReferralEffect>) -> State
    decreases effects.len(),
{
    if effects.len() == 0 {
        s
    } else {
        match effects[0] {
            Effect::Write(entry) => perform(written(s, entry), effects.skip(1)),
            _ => perform(s, effects.skip(1)),
        }
    }
}

/// The writes in the script of a call account for all that it changes in
/// storage: a host that performs them ends up with the storage the call
/// describes.
pub proof fn law_writes_account_for_the_state(s: State, call: Call)
    ensures
        perform(s, run(s, call).effects) == run(s, call).state,
{
    reveal_with_fuel(perform, 5);
}

/// On the ledger the errors stand as numbers, from 1 on, and what is stored is
/// stored under its own key.
pub proof fn law_numbers_and_keys_on_the_ledger(a: Entry, b: Entry)
    ensures
        Error::AlreadyInitialized.number() == 1,
        Error::NotAdmin.number() == 2,
        Error::AlreadyReferred.number() == 3,
        Error::SelfReferral.number() == 4,
        Error::InvalidAmount.number() == 5,
        Error::InvalidCommission.number() == 6,
        a.key_of() == b.key_of() <==> match (a, b) {
            (Entry::Admin(_), Entry::Admin(_)) => true,
            (Entry::CommissionBps(_), Entry::CommissionBps(_)) => true,
            (Entry::Referrer { referee: x, .. }, Entry::Referrer { referee: y, .. }) => x == y,
            (Entry::Earnings { referrer: x, .. }, Entry::Earnings { referrer: y, .. }) => x == y,
            _ => false,
        },
{
}

} // verus!
