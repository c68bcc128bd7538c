//! The lending pool: positions, reserves, health-factor computation and
//! the liquidation engine. The whole protocol state is one explicit store
//! passed by reference into every operation; a rejected call leaves it
//! untouched.

use vstd::prelude::*;

use crate::ledger::{
    amount_of, amounts_bounded, balance_lookup, balance_set, has_key, lemma_amount_of_absent,
    lemma_amount_of_bounded, unique_keys, BalanceEntry,
};
use crate::math::{expected_seized, spec_seized};
use crate::registry::{
    collateral_factor_of, find_reserve, has_reserve, lemma_find_reserve_push,
    liquidation_bonus_of, price_of, reserve_index, reserve_ok, reserve_replace,
    reserves_bounded, total_reserve_of, unique_assets, ReserveConfig, ReserveEntry,
};
use crate::types::{
    Asset, ProtocolError, BALANCE_CAP, BPS_SCALE, CLOSE_FACTOR_BPS, FP_ONE, HF_INFINITE,
    PRICE_CAP, RESERVE_CAP, RESERVE_LIMIT,
};

verus! {

/// The event recorded for every successful liquidation, exactly once,
/// and never for a failed attempt.
#[derive(Clone, Copy, PartialEq, Eq, Structural, Debug)]
pub struct LiquidationEvent {
    pub liquidator: u64,
    pub borrower: u64,
    pub debt_asset: Asset,
    pub collateral_asset: Asset,
    pub repay_amount: i128,
    pub seized_collateral: i128,
}

/// The protocol store: admin, pause flag, reserve registry, per-position
/// collateral and debt ledgers, and the liquidation event log.
pub struct LendingPool {
    pub admin: Option<u64>,
    pub paused: bool,
    pub reserves: Vec<ReserveEntry>,
    pub collateral: Vec<BalanceEntry>,
    pub debts: Vec<BalanceEntry>,
    pub events: Vec<LiquidationEvent>,
}

/// Bound on each term of the health-factor sums: one balance times one
/// price, both at their caps.
pub const VALUE_TERM_CAP: i128 = BALANCE_CAP * PRICE_CAP;

impl LendingPool {
    /// Well-formedness: unique keys everywhere, every balance within its
    /// cap and backed by a registered reserve, every reserve in range.
    pub open spec fn wf(&self) -> bool {
        &&& unique_assets(self.reserves@)
        &&& reserves_bounded(self.reserves@)
        &&& self.reserves@.len() <= RESERVE_LIMIT
        &&& unique_keys(self.collateral@)
        &&& amounts_bounded(self.collateral@)
        &&& unique_keys(self.debts@)
        &&& amounts_bounded(self.debts@)
        &&& forall|k: int|
            0 <= k < self.collateral@.len() ==> has_reserve(self.reserves@,
                (#[trigger] self.collateral@[k]).asset)
        &&& forall|k: int|
            0 <= k < self.debts@.len() ==> has_reserve(self.reserves@,
                (#[trigger] self.debts@[k]).asset)
    }
}

/// Risk-weighted collateral value of `user`: the sum, over reserves
/// flagged as collateral, of balance x price x collateral_factor / 10_000,
/// floor division per asset.
pub open spec fn weighted_collateral(rs: Seq<ReserveEntry>, col: Seq<BalanceEntry>, user: u64) -> int
    decreases rs.len(),
{
    if rs.len() == 0 {
        0
    } else {
        let r = rs.last();
        let term = if r.config.can_be_collateral {
            amount_of(col, user, r.asset) * r.price * r.config.collateral_factor / (
            BPS_SCALE as int)
        } else {
            0
        };
        weighted_collateral(rs.drop_last(), col, user) + term
    }
}

/// Debt value of `user`: the sum over reserves of balance x price.
pub open spec fn debt_value(rs: Seq<ReserveEntry>, debts: Seq<BalanceEntry>, user: u64) -> int
    decreases rs.len(),
{
    if rs.len() == 0 {
        0
    } else {
        debt_value(rs.drop_last(), debts, user) + amount_of(debts, user, rs.last().asset)
            * rs.last().price
    }
}

/// The health factor of `user`, fixed-point with seven decimals: the
/// ratio of risk-weighted collateral value to debt value. A position
/// without debt has the infinite sentinel and is never liquidatable.
pub open spec fn health_factor_of(p: LendingPool, user: u64) -> int {
    let dv = debt_value(p.reserves@, p.debts@, user);
    if dv <= 0 {
        HF_INFINITE as int
    } else {
        weighted_collateral(p.reserves@, p.collateral@, user) * (FP_ONE as int) / dv
    }
}

/// Some ledger entry mentions `user`, as collateral or as debt.
pub open spec fn position_exists(p: LendingPool, user: u64) -> bool {
    (exists|i: int|
        0 <= i < p.collateral@.len() && (#[trigger] p.collateral@[i]).user == user) || (exists|i: int|
        0 <= i < p.debts@.len() && (#[trigger] p.debts@[i]).user == user)
}

/// The health-factor sums read a reserve only through its asset,
/// configuration and price, and a ledger only through the balances
/// recorded for the user: two states that agree there agree on both
/// sums, and so on the health factor.
pub proof fn lemma_value_sums_congruence(
    rs1: Seq<ReserveEntry>,
    rs2: Seq<ReserveEntry>,
    bal1: Seq<BalanceEntry>,
    bal2: Seq<BalanceEntry>,
    user: u64,
)
    requires
        rs1.len() == rs2.len(),
        forall|k: int|
            0 <= k < rs1.len() ==> (#[trigger] rs1[k]).asset == rs2[k].asset && rs1[k].config
                == rs2[k].config && rs1[k].price == rs2[k].price,
        forall|a: Asset| #[trigger] amount_of(bal1, user, a) == amount_of(bal2, user, a),
    ensures
        weighted_collateral(rs1, bal1, user) == weighted_collateral(rs2, bal2, user),
        debt_value(rs1, bal1, user) == debt_value(rs2, bal2, user),
    decreases rs1.len(),
{
    if rs1.len() > 0 {
        assert(rs1[rs1.len() - 1] == rs1.last());
        assert(rs2[rs2.len() - 1] == rs2.last());
        assert(forall|k: int|
            0 <= k < rs1.drop_last().len() ==> #[trigger] rs1.drop_last()[k] == rs1[k]);
        assert(forall|k: int|
            0 <= k < rs2.drop_last().len() ==> #[trigger] rs2.drop_last()[k] == rs2[k]);
        lemma_value_sums_congruence(rs1.drop_last(), rs2.drop_last(), bal1, bal2, user);
        assert(amount_of(bal1, user, rs1.last().asset) == amount_of(bal2, user, rs2.last().asset));
    }
}

/// One weighted-collateral term lies in [0, VALUE_TERM_CAP].
proof fn lemma_value_term_bounded(amount: int, price: int, cf: int)
    requires
        0 <= amount <= BALANCE_CAP,
        0 <= price <= PRICE_CAP,
        0 <= cf <= 10_000,
    ensures
        0 <= amount * price * cf / (BPS_SCALE as int) <= VALUE_TERM_CAP,
{
    assert(0 <= amount * price * cf <= VALUE_TERM_CAP * 10_000) by (nonlinear_arith)
        requires
            0 <= amount <= BALANCE_CAP,
            0 <= price <= PRICE_CAP,
            0 <= cf <= 10_000,
            VALUE_TERM_CAP == BALANCE_CAP * PRICE_CAP,
    ;
    vstd::arithmetic::div_mod::lemma_div_is_ordered(0, amount * price * cf, BPS_SCALE as int);
    vstd::arithmetic::div_mod::lemma_div_is_ordered(
        amount * price * cf,
        VALUE_TERM_CAP * 10_000,
        BPS_SCALE as int,
    );
    vstd::arithmetic::div_mod::lemma_div_multiples_vanish(VALUE_TERM_CAP as int, 10_000);
}

impl LendingPool {
    /// A fresh, uninitialized store.
    pub fn new() -> (r: LendingPool)
        ensures
            r.wf(),
            r.admin is None,
            !r.paused,
            r.reserves@.len() == 0,
            r.collateral@.len() == 0,
            r.debts@.len() == 0,
            r.events@.len() == 0,
    {
        LendingPool {
            admin: Option::None,
            paused: false,
            reserves: Vec::new(),
            collateral: Vec::new(),
            debts: Vec::new(),
            events: Vec::new(),
        }
    }

    /// Records the admin. Only a store that was never initialized accepts.
    pub fn initialize(&mut self, admin: u64) -> (r: Result<(), ProtocolError>)
        requires
            old(self).wf(),
        ensures
            final(self).wf(),
            match r {
                Result::Ok(_) => old(self).admin is None && final(self).admin == Option::Some(admin)
                    && final(self).paused == old(self).paused && final(self).reserves@ == old(self).reserves@ && final(self).collateral@ == old(self).collateral@ && final(self).debts@ == old(self).debts@ && final(self).events@ == old(self).events@,
                Result::Err(e) => e == ProtocolError::AlreadyInitialized && old(self).admin
                    is Some && *final(self) == *old(self),
            },
    {
        match self.admin {
            Option::Some(_) => Result::Err(ProtocolError::AlreadyInitialized),
            Option::None => {
                self.admin = Option::Some(admin);
                Result::Ok(())
            },
        }
    }

    /// True when `caller` is the recorded admin.
    fn is_admin(&self, caller: u64) -> (r: bool)
        ensures
            r == (self.admin == Option::Some(caller)),
    {
        match self.admin {
            Option::Some(a) => a == caller,
            Option::None => false,
        }
    }

    /// Halts liquidations. Admin only.
    pub fn pause(&mut self, caller: u64) -> (r: Result<(), ProtocolError>)
        requires
            old(self).wf(),
        ensures
            final(self).wf(),
            match r {
                Result::Ok(_) => old(self).admin == Option::Some(caller) && final(self).paused
                    && final(self).admin == old(self).admin && final(self).reserves@ == old(self).reserves@ && final(self).collateral@ == old(self).collateral@ && final(self).debts@ == old(self).debts@ && final(self).events@ == old(self).events@,
                Result::Err(e) => e == ProtocolError::Unauthorized && old(self).admin
                    != Option::Some(caller) && *final(self) == *old(self),
            },
    {
        if !self.is_admin(caller) {
            return Result::Err(ProtocolError::Unauthorized);
        }
        self.paused = true;
        Result::Ok(())
    }

    /// Resumes liquidations. Admin only.
    pub fn unpause(&mut self, caller: u64) -> (r: Result<(), ProtocolError>)
        requires
            old(self).wf(),
        ensures
            final(self).wf(),
            match r {
                Result::Ok(_) => old(self).admin == Option::Some(caller) && !final(self).paused
                    && final(self).admin == old(self).admin && final(self).reserves@ == old(self).reserves@ && final(self).collateral@ == old(self).collateral@ && final(self).debts@ == old(self).debts@ && final(self).events@ == old(self).events@,
                Result::Err(e) => e == ProtocolError::Unauthorized && old(self).admin
                    != Option::Some(caller) && *final(self) == *old(self),
            },
    {
        if !self.is_admin(caller) {
            return Result::Err(ProtocolError::Unauthorized);
        }
        self.paused = false;
        Result::Ok(())
    }

    /// Current debt of `user` in `asset`.
    pub fn get_user_debt(&self, user: u64, asset: Asset) -> (r: i128)
        requires
            self.wf(),
        ensures
            r == amount_of(self.debts@, user, asset),
    {
        balance_lookup(&self.debts, user, asset)
    }

    /// Current collateral balance of `user` in `asset`.
    pub fn get_user_balance(&self, user: u64, asset: Asset) -> (r: i128)
        requires
            self.wf(),
        ensures
            r == amount_of(self.collateral@, user, asset),
    {
        balance_lookup(&self.collateral, user, asset)
    }

    /// Aggregate reserve held for `asset`.
    pub fn get_total_reserve(&self, asset: Asset) -> (r: i128)
        requires
            self.wf(),
        ensures
            r == total_reserve_of(self.reserves@, asset),
    {
        match reserve_index(&self.reserves, asset) {
            Option::Some(i) => self.reserves[i].total_reserve,
            Option::None => 0,
        }
    }

    /// The liquidation events recorded so far, oldest first.
    pub fn events(&self) -> (r: &Vec<LiquidationEvent>)
        ensures
            r@ == self.events@,
    {
        &self.events
    }

    /// The health factor of `user` under current balances, prices and
    /// collateral factors.
    pub fn get_health_factor(&self, user: u64) -> (r: i128)
        requires
            self.wf(),
        ensures
            r == health_factor_of(*self, user),
    {
        let n = self.reserves.len();
        let mut wc: i128 = 0;
        let mut dv: i128 = 0;
        let mut i: usize = 0;
        while i < n
            invariant
                self.wf(),
                n == self.reserves@.len(),
                i <= n,
                wc == weighted_collateral(self.reserves@.take(i as int), self.collateral@, user),
                dv == debt_value(self.reserves@.take(i as int), self.debts@, user),
                0 <= wc <= i * VALUE_TERM_CAP,
                0 <= dv <= i * VALUE_TERM_CAP,
            decreases n - i,
        {
            let r = self.reserves[i];
            proof {
                assert(reserve_ok(r));
                lemma_amount_of_bounded(self.collateral@, user, r.asset);
                lemma_amount_of_bounded(self.debts@, user, r.asset);
            }
            proof {
                assert((i as int + 1) * VALUE_TERM_CAP == i as int * VALUE_TERM_CAP
                    + VALUE_TERM_CAP) by (nonlinear_arith);
                assert(32 * VALUE_TERM_CAP < i128::MAX);
            }
            if r.config.can_be_collateral {
                let bal = balance_lookup(&self.collateral, user, r.asset);
                proof {
                    lemma_value_term_bounded(
                        bal as int,
                        r.price as int,
                        r.config.collateral_factor as int,
                    );
                    assert(0 <= bal * r.price <= VALUE_TERM_CAP) by (nonlinear_arith)
                        requires
                            0 <= bal <= BALANCE_CAP,
                            0 <= r.price <= PRICE_CAP,
                            VALUE_TERM_CAP == BALANCE_CAP * PRICE_CAP,
                    ;
                    assert(0 <= bal * r.price * r.config.collateral_factor <= VALUE_TERM_CAP
                        * 10_000) by (nonlinear_arith)
                        requires
                            0 <= bal <= BALANCE_CAP,
                            0 <= r.price <= PRICE_CAP,
                            0 <= r.config.collateral_factor <= 10_000,
                            VALUE_TERM_CAP == BALANCE_CAP * PRICE_CAP,
                    ;
                }
                let term: i128 = bal * r.price * (r.config.collateral_factor as i128) / 10_000;
                wc = wc + term;
            }
            let dbal = balance_lookup(&self.debts, user, r.asset);
            proof {
                assert(0 <= dbal * r.price <= VALUE_TERM_CAP) by (nonlinear_arith)
                    requires
                        0 <= dbal <= BALANCE_CAP,
                        0 <= r.price <= PRICE_CAP,
                        VALUE_TERM_CAP == BALANCE_CAP * PRICE_CAP,
                ;
            }
            let dterm: i128 = dbal * r.price;
            dv = dv + dterm;
            proof {
                assert(self.reserves@.take(i + 1 as int).drop_last() =~= self.reserves@.take(
                    i as int,
                ));
                assert(self.reserves@.take(i + 1 as int).last() == self.reserves@[i as int]);
            }
            i += 1;
        }
        proof {
            assert(self.reserves@.take(n as int) =~= self.reserves@);
        }
        if dv <= 0 {
            HF_INFINITE
        } else {
            proof {
                assert(wc * FP_ONE <= 32 * VALUE_TERM_CAP * FP_ONE);
                vstd::arithmetic::div_mod::lemma_div_is_ordered(0, wc * (FP_ONE as int), dv as int);
                vstd::arithmetic::div_mod::lemma_div_is_ordered_by_denominator(
                    wc * (FP_ONE as int),
                    1,
                    dv as int,
                );
            }
            wc * FP_ONE / dv
        }
    }

    /// True exactly when the position's health factor lies strictly
    /// below one; a health factor of exactly one is healthy.
    pub fn is_liquidatable(&self, user: u64) -> (r: bool)
        requires
            self.wf(),
        ensures
            r == (health_factor_of(*self, user) < FP_ONE),
    {
        self.get_health_factor(user) < FP_ONE
    }

    /// Registers a reserve for `asset` with price 1.0 and an empty
    /// aggregate. Admin only; an asset may be registered once.
    pub fn add_reserve(&mut self, caller: u64, asset: Asset, config: ReserveConfig) -> (r: Result<
        (),
        ProtocolError,
    >)
        requires
            old(self).wf(),
        ensures
            final(self).wf(),
            match r {
                Result::Ok(_) => {
                    &&& add_reserve_rejection(*old(self), caller, asset, config) is None
                    &&& final(self).reserves@ == old(self).reserves@.push(
                        ReserveEntry {
                            asset: asset,
                            config: config,
                            price: FP_ONE,
                            total_reserve: 0,
                        },
                    )
                    &&& forall|a: Asset|
                        #[trigger] find_reserve(final(self).reserves@, a) == if a == asset {
                            Option::Some(
                                ReserveEntry {
                                    asset: asset,
                                    config: config,
                                    price: FP_ONE,
                                    total_reserve: 0,
                                },
                            )
                        } else {
                            find_reserve(old(self).reserves@, a)
                        }
                    &&& final(self).admin == old(self).admin
                    &&& final(self).paused == old(self).paused
                    &&& final(self).collateral@ == old(self).collateral@
                    &&& final(self).debts@ == old(self).debts@
                    &&& final(self).events@ == old(self).events@
                },
                Result::Err(e) => Option::Some(e) == add_reserve_rejection(
                    *old(self),
                    caller,
                    asset,
                    config,
                ) && *final(self) == *old(self),
            },
    {
        if !self.is_admin(caller) {
            return Result::Err(ProtocolError::Unauthorized);
        }
        if config.collateral_factor > 10_000 || config.liquidation_bonus > 10_000 {
            return Result::Err(ProtocolError::InvalidConfig);
        }
        match reserve_index(&self.reserves, asset) {
            Option::Some(_) => Result::Err(ProtocolError::ReserveExists),
            Option::None => {
                if self.reserves.len() >= RESERVE_LIMIT {
                    return Result::Err(ProtocolError::RegistryFull);
                }
                let e = ReserveEntry {
                    asset: asset,
                    config: config,
                    price: FP_ONE,
                    total_reserve: 0,
                };
                proof {
                    lemma_find_reserve_push(self.reserves@, e);
                }
                let ghost pre = self.reserves@;
                self.reserves.push(e);
                proof {
                    assert(self.reserves@ == pre.push(e));
                    assert(forall|k: int|
                        0 <= k < pre.len() ==> #[trigger] self.reserves@[k] == pre[k]);
                    assert(self.reserves@.last() == e);
                    assert forall|i2: int, j2: int|
                        0 <= i2 < j2 < self.reserves@.len() implies (
                    #[trigger] self.reserves@[i2]).asset != (#[trigger] self.reserves@[j2]).asset by {
                        if j2 == self.reserves@.len() - 1 {
                            if self.reserves@[i2].asset == asset {
                                crate::registry::lemma_find_reserve_at(pre, i2);
                            }
                        }
                    }
                }
                Result::Ok(())
            },
        }
    }

    /// Adds `amount` to the collateral of `user` in `asset` and to the
    /// protocol's aggregate reserve; returns the new collateral balance.
    pub fn deposit(&mut self, caller: u64, user: u64, asset: Asset, amount: i128) -> (r: Result<
        i128,
        ProtocolError,
    >)
        requires
            old(self).wf(),
        ensures
            final(self).wf(),
            match r {
                Result::Ok(nb) => {
                    &&& deposit_rejection(*old(self), user, asset, amount) is None
                    &&& nb == amount_of(old(self).collateral@, user, asset) + amount
                    &&& forall|u: u64, a: Asset|
                        #[trigger] amount_of(final(self).collateral@, u, a) == if u == user && a
                            == asset {
                            amount_of(old(self).collateral@, u, a) + amount
                        } else {
                            amount_of(old(self).collateral@, u, a)
                        }
                    &&& forall|a: Asset|
                        #[trigger] total_reserve_of(final(self).reserves@, a) == if a == asset {
                            total_reserve_of(old(self).reserves@, a) + amount
                        } else {
                            total_reserve_of(old(self).reserves@, a)
                        }
                    &&& forall|a: Asset|
                        #[trigger] price_of(final(self).reserves@, a) == price_of(
                            old(self).reserves@,
                            a,
                        )
                    &&& forall|a: Asset|
                        #[trigger] collateral_factor_of(final(self).reserves@, a)
                            == collateral_factor_of(old(self).reserves@, a)
                    &&& forall|a: Asset|
                        #[trigger] liquidation_bonus_of(final(self).reserves@, a)
                            == liquidation_bonus_of(old(self).reserves@, a)
                    &&& forall|a: Asset|
                        #[trigger] has_reserve(final(self).reserves@, a) == has_reserve(
                            old(self).reserves@,
                            a,
                        )
                    &&& final(self).reserves@.len() == old(self).reserves@.len()
                    &&& forall|k: int|
                        0 <= k < old(self).reserves@.len() ==> (
                        #[trigger] final(self).reserves@[k]).asset == old(self).reserves@[k].asset
                            && final(self).reserves@[k].config == old(self).reserves@[k].config
                            && final(self).reserves@[k].price == old(self).reserves@[k].price
                    &&& forall|k: int|
                        0 <= k < final(self).collateral@.len() ==> has_key(
                            old(self).collateral@,
                            (#[trigger] final(self).collateral@[k]).user,
                            final(self).collateral@[k].asset,
                        ) || (final(self).collateral@[k].user == user
                            && final(self).collateral@[k].asset == asset)
                    &&& final(self).admin == old(self).admin
                    &&& final(self).paused == old(self).paused
                    &&& final(self).debts@ == old(self).debts@
                    &&& final(self).events@ == old(self).events@
                },
                Result::Err(e) => Option::Some(e) == deposit_rejection(
                    *old(self),
                    user,
                    asset,
                    amount,
                ) && *final(self) == *old(self),
            },
    {
        let _ = caller;
        if amount <= 0 {
            return Result::Err(ProtocolError::InvalidAmount);
        }
        let bal = balance_lookup(&self.collateral, user, asset);
        proof {
            lemma_amount_of_bounded(self.collateral@, user, asset);
        }
        match reserve_index(&self.reserves, asset) {
            Option::None => Result::Err(ProtocolError::ReserveNotFound),
            Option::Some(i) => {
                let re = self.reserves[i];
                proof {
                    assert(reserve_ok(re));
                }
                if bal > BALANCE_CAP - amount || re.total_reserve > RESERVE_CAP - amount {
                    return Result::Err(ProtocolError::AmountTooLarge);
                }
                let mut re2 = re;
                re2.total_reserve = re.total_reserve + amount;
                reserve_replace(&mut self.reserves, i, re2);
                balance_set(&mut self.collateral, user, asset, bal + amount);
                Result::Ok(bal + amount)
            },
        }
    }

    /// Adds `amount` to the debt of `user` in `asset`; returns the new
    /// debt balance. The funds themselves move outside this store.
    pub fn borrow(&mut self, caller: u64, user: u64, asset: Asset, amount: i128) -> (r: Result<
        i128,
        ProtocolError,
    >)
        requires
            old(self).wf(),
        ensures
            final(self).wf(),
            match r {
                Result::Ok(nb) => {
                    &&& borrow_rejection(*old(self), user, asset, amount) is None
                    &&& nb == amount_of(old(self).debts@, user, asset) + amount
                    &&& forall|u: u64, a: Asset|
                        #[trigger] amount_of(final(self).debts@, u, a) == if u == user && a
                            == asset {
                            amount_of(old(self).debts@, u, a) + amount
                        } else {
                            amount_of(old(self).debts@, u, a)
                        }
                    &&& forall|k: int|
                        0 <= k < final(self).debts@.len() ==> has_key(
                            old(self).debts@,
                            (#[trigger] final(self).debts@[k]).user,
                            final(self).debts@[k].asset,
                        ) || (final(self).debts@[k].user == user && final(self).debts@[k].asset
                            == asset)
                    &&& final(self).admin == old(self).admin
                    &&& final(self).paused == old(self).paused
                    &&& final(self).reserves@ == old(self).reserves@
                    &&& final(self).collateral@ == old(self).collateral@
                    &&& final(self).events@ == old(self).events@
                },
                Result::Err(e) => Option::Some(e) == borrow_rejection(
                    *old(self),
                    user,
                    asset,
                    amount,
                ) && *final(self) == *old(self),
            },
    {
        let _ = caller;
        if amount <= 0 {
            return Result::Err(ProtocolError::InvalidAmount);
        }
        let bal = balance_lookup(&self.debts, user, asset);
        proof {
            lemma_amount_of_bounded(self.debts@, user, asset);
        }
        match reserve_index(&self.reserves, asset) {
            Option::None => Result::Err(ProtocolError::ReserveNotFound),
            Option::Some(_) => {
                if bal > BALANCE_CAP - amount {
                    return Result::Err(ProtocolError::AmountTooLarge);
                }
                balance_set(&mut self.debts, user, asset, bal + amount);
                Result::Ok(bal + amount)
            },
        }
    }

    /// Records a new oracle price for `asset`. Admin only.
    pub fn update_asset_price(&mut self, caller: u64, asset: Asset, price: i128) -> (r: Result<
        (),
        ProtocolError,
    >)
        requires
            old(self).wf(),
        ensures
            final(self).wf(),
            match r {
                Result::Ok(_) => {
                    &&& price_rejection(*old(self), caller, asset, price) is None
                    &&& forall|a: Asset|
                        #[trigger] price_of(final(self).reserves@, a) == if a == asset {
                            price as int
                        } else {
                            price_of(old(self).reserves@, a)
                        }
                    &&& forall|a: Asset|
                        #[trigger] total_reserve_of(final(self).reserves@, a) == total_reserve_of(
                            old(self).reserves@,
                            a,
                        )
                    &&& forall|a: Asset|
                        #[trigger] collateral_factor_of(final(self).reserves@, a)
                            == collateral_factor_of(old(self).reserves@, a)
                    &&& forall|a: Asset|
                        #[trigger] liquidation_bonus_of(final(self).reserves@, a)
                            == liquidation_bonus_of(old(self).reserves@, a)
                    &&& forall|a: Asset|
                        #[trigger] has_reserve(final(self).reserves@, a) == has_reserve(
                            old(self).reserves@,
                            a,
                        )
                    &&& final(self).reserves@.len() == old(self).reserves@.len()
                    &&& forall|k: int|
                        0 <= k < old(self).reserves@.len() ==> (
                        #[trigger] final(self).reserves@[k]).asset == old(self).reserves@[k].asset
                            && final(self).reserves@[k].config == old(self).reserves@[k].config
                            && final(self).reserves@[k].total_reserve
                            == old(self).reserves@[k].total_reserve
                    &&& final(self).admin == old(self).admin
                    &&& final(self).paused == old(self).paused
                    &&& final(self).collateral@ == old(self).collateral@
                    &&& final(self).debts@ == old(self).debts@
                    &&& final(self).events@ == old(self).events@
                },
                Result::Err(e) => Option::Some(e) == price_rejection(
                    *old(self),
                    caller,
                    asset,
                    price,
                ) && *final(self) == *old(self),
            },
    {
        if !self.is_admin(caller) {
            return Result::Err(ProtocolError::Unauthorized);
        }
        if price <= 0 || price > PRICE_CAP {
            return Result::Err(ProtocolError::InvalidPrice);
        }
        match reserve_index(&self.reserves, asset) {
            Option::None => Result::Err(ProtocolError::ReserveNotFound),
            Option::Some(i) => {
                let mut re2 = self.reserves[i];
                re2.price = price;
                reserve_replace(&mut self.reserves, i, re2);
                Result::Ok(())
            },
        }
    }
}

/// The first reason to reject an `add_reserve` call, if any.
pub open spec fn add_reserve_rejection(
    p: LendingPool,
    caller: u64,
    asset: Asset,
    config: ReserveConfig,
) -> Option<ProtocolError> {
    if p.admin != Option::Some(caller) {
        Option::Some(ProtocolError::Unauthorized)
    } else if config.collateral_factor > 10_000 || config.liquidation_bonus > 10_000 {
        Option::Some(ProtocolError::InvalidConfig)
    } else if has_reserve(p.reserves@, asset) {
        Option::Some(ProtocolError::ReserveExists)
    } else if p.reserves@.len() >= RESERVE_LIMIT {
        Option::Some(ProtocolError::RegistryFull)
    } else {
        Option::None
    }
}

/// The first reason to reject a `deposit` call, if any.
pub open spec fn deposit_rejection(p: LendingPool, user: u64, asset: Asset, amount: i128) -> Option<
    ProtocolError,
> {
    if amount <= 0 {
        Option::Some(ProtocolError::InvalidAmount)
    } else if !has_reserve(p.reserves@, asset) {
        Option::Some(ProtocolError::ReserveNotFound)
    } else if amount_of(p.collateral@, user, asset) + amount > BALANCE_CAP || total_reserve_of(
        p.reserves@,
        asset,
    ) + amount > RESERVE_CAP {
        Option::Some(ProtocolError::AmountTooLarge)
    } else {
        Option::None
    }
}

/// The first reason to reject a `borrow` call, if any.
pub open spec fn borrow_rejection(p: LendingPool, user: u64, asset: Asset, amount: i128) -> Option<
    ProtocolError,
> {
    if amount <= 0 {
        Option::Some(ProtocolError::InvalidAmount)
    } else if !has_reserve(p.reserves@, asset) {
        Option::Some(ProtocolError::ReserveNotFound)
    } else if amount_of(p.debts@, user, asset) + amount > BALANCE_CAP {
        Option::Some(ProtocolError::AmountTooLarge)
    } else {
        Option::None
    }
}

impl LendingPool {
    /// True when some ledger entry, collateral or debt, mentions `user`.
    fn position_exists_exec(&self, user: u64) -> (r: bool)
        ensures
            r == position_exists(*self, user),
    {
        let n = self.collateral.len();
        let mut i: usize = 0;
        while i < n
            invariant
                n == self.collateral@.len(),
                i <= n,
                forall|k: int| 0 <= k < i ==> (#[trigger] self.collateral@[k]).user != user,
            decreases n - i,
        {
            if self.collateral[i].user == user {
                return true;
            }
            i += 1;
        }
        let m = self.debts.len();
        let mut j: usize = 0;
        while j < m
            invariant
                m == self.debts@.len(),
                j <= m,
                forall|k: int|
                    0 <= k < self.collateral@.len() ==> (#[trigger] self.collateral@[k]).user
                        != user,
                forall|k: int| 0 <= k < j ==> (#[trigger] self.debts@[k]).user != user,
            decreases m - j,
        {
            if self.debts[j].user == user {
                return true;
            }
            j += 1;
        }
        false
    }

    /// One atomic liquidation. The checks run in the engine's fixed
    /// order and the first failure wins, with the store left untouched;
    /// on success the borrower's debt falls by the repay amount, the
    /// seized collateral (repay plus bonus) moves from the borrower to
    /// the liquidator, both reserve aggregates are adjusted, and exactly
    /// one event is recorded.
    pub fn liquidate(
        &mut self,
        liquidator: u64,
        borrower: u64,
        debt_asset: Asset,
        collateral_asset: Asset,
        repay_amount: i128,
    ) -> (r: Result<i128, ProtocolError>)
        requires
            old(self).wf(),
        ensures
            final(self).wf(),
            match r {
                Result::Err(e) => Option::Some(e) == liquidation_rejection(
                    *old(self),
                    liquidator,
                    borrower,
                    debt_asset,
                    collateral_asset,
                    repay_amount,
                ) && *final(self) == *old(self),
                Result::Ok(seized) => {
                    &&& liquidation_rejection(
                        *old(self),
                        liquidator,
                        borrower,
                        debt_asset,
                        collateral_asset,
                        repay_amount,
                    ) is None
                    &&& seized == spec_seized(
                        repay_amount as int,
                        liquidation_bonus_of(old(self).reserves@, collateral_asset),
                    )
                    &&& forall|u: u64, a: Asset|
                        #[trigger] amount_of(final(self).debts@, u, a) == if u == borrower && a
                            == debt_asset {
                            amount_of(old(self).debts@, u, a) - repay_amount
                        } else {
                            amount_of(old(self).debts@, u, a)
                        }
                    &&& forall|u: u64, a: Asset|
                        #[trigger] amount_of(final(self).collateral@, u, a) == if u == borrower
                            && a == collateral_asset {
                            amount_of(old(self).collateral@, u, a) - seized
                        } else if u == liquidator && a == collateral_asset {
                            amount_of(old(self).collateral@, u, a) + seized
                        } else {
                            amount_of(old(self).collateral@, u, a)
                        }
                    &&& forall|a: Asset|
                        #[trigger] total_reserve_of(final(self).reserves@, a) == total_reserve_of(
                            old(self).reserves@,
                            a,
                        ) + (if a == debt_asset {
                            repay_amount as int
                        } else {
                            0
                        }) - (if a == collateral_asset {
                            seized as int
                        } else {
                            0
                        })
                    &&& forall|a: Asset|
                        #[trigger] price_of(final(self).reserves@, a) == price_of(
                            old(self).reserves@,
                            a,
                        )
                    &&& forall|a: Asset|
                        #[trigger] collateral_factor_of(final(self).reserves@, a)
                            == collateral_factor_of(old(self).reserves@, a)
                    &&& forall|a: Asset|
                        #[trigger] liquidation_bonus_of(final(self).reserves@, a)
                            == liquidation_bonus_of(old(self).reserves@, a)
                    &&& forall|a: Asset|
                        #[trigger] has_reserve(final(self).reserves@, a) == has_reserve(
                            old(self).reserves@,
                            a,
                        )
                    &&& final(self).reserves@.len() == old(self).reserves@.len()
                    &&& forall|k: int|
                        0 <= k < old(self).reserves@.len() ==> (
                        #[trigger] final(self).reserves@[k]).asset == old(self).reserves@[k].asset
                            && final(self).reserves@[k].config == old(self).reserves@[k].config
                            && final(self).reserves@[k].price == old(self).reserves@[k].price
                    &&& forall|k: int|
                        0 <= k < final(self).collateral@.len() ==> has_key(
                            old(self).collateral@,
                            (#[trigger] final(self).collateral@[k]).user,
                            final(self).collateral@[k].asset,
                        ) || (final(self).collateral@[k].user == liquidator
                            && final(self).collateral@[k].asset == collateral_asset)
                    &&& forall|k: int|
                        0 <= k < final(self).debts@.len() ==> has_key(
                            old(self).debts@,
                            (#[trigger] final(self).debts@[k]).user,
                            final(self).debts@[k].asset,
                        )
                    &&& final(self).admin == old(self).admin
                    &&& final(self).paused == old(self).paused
                    &&& final(self).events@ == old(self).events@.push(
                        LiquidationEvent {
                            liquidator: liquidator,
                            borrower: borrower,
                            debt_asset: debt_asset,
                            collateral_asset: collateral_asset,
                            repay_amount: repay_amount,
                            seized_collateral: seized,
                        },
                    )
                },
            },
    {
        if self.paused {
            return Result::Err(ProtocolError::ProtocolPaused);
        }
        if !self.position_exists_exec(borrower) {
            return Result::Err(ProtocolError::PositionNotFound);
        }
        let debt = balance_lookup(&self.debts, borrower, debt_asset);
        if debt <= 0 {
            return Result::Err(ProtocolError::DebtAssetMismatch);
        }
        if liquidator == borrower {
            return Result::Err(ProtocolError::SelfLiquidation);
        }
        if repay_amount <= 0 {
            return Result::Err(ProtocolError::InvalidAmount);
        }
        let col = balance_lookup(&self.collateral, borrower, collateral_asset);
        if col <= 0 {
            return Result::Err(ProtocolError::CollateralAssetMismatch);
        }
        let hf = self.get_health_factor(borrower);
        if hf >= FP_ONE {
            return Result::Err(ProtocolError::NotLiquidatable);
        }
        proof {
            lemma_amount_of_bounded(self.debts@, borrower, debt_asset);
            lemma_amount_of_bounded(self.collateral@, borrower, collateral_asset);
        }
        let max_repay = debt * CLOSE_FACTOR_BPS / BPS_SCALE;
        proof {
            vstd::arithmetic::div_mod::lemma_div_is_ordered(
                debt * (CLOSE_FACTOR_BPS as int),
                debt * (BPS_SCALE as int),
                BPS_SCALE as int,
            );
            vstd::arithmetic::div_mod::lemma_div_multiples_vanish(debt as int, BPS_SCALE as int);
            vstd::arithmetic::div_mod::lemma_div_is_ordered(
                0,
                debt * (CLOSE_FACTOR_BPS as int),
                BPS_SCALE as int,
            );
            assert(0 <= max_repay <= debt);
        }
        if repay_amount > max_repay {
            return Result::Err(ProtocolError::CloseFactorExceeded);
        }
        // The borrower holds this collateral, so its reserve is registered.
        proof {
            if !has_key(self.collateral@, borrower, collateral_asset) {
                lemma_amount_of_absent(self.collateral@, borrower, collateral_asset);
            }
            let k = choose|k: int|
                0 <= k < self.collateral@.len() && (#[trigger] self.collateral@[k]).user
                    == borrower && self.collateral@[k].asset == collateral_asset;
            assert(has_reserve(self.reserves@, self.collateral@[k].asset));
        }
        let ci = match reserve_index(&self.reserves, collateral_asset) {
            Option::Some(i) => i,
            Option::None => {
                proof {
                    assert(false);
                }
                return Result::Err(ProtocolError::ReserveNotFound);
            },
        };
        let cre = self.reserves[ci];
        proof {
            assert(reserve_ok(cre));
            assert(find_reserve(self.reserves@, collateral_asset) == Option::Some(cre));
        }
        let seized = expected_seized(repay_amount, cre.config.liquidation_bonus);
        if seized > col {
            return Result::Err(ProtocolError::InsufficientCollateral);
        }
        if seized > cre.total_reserve {
            return Result::Err(ProtocolError::InsufficientCollateral);
        }
        let liq_col = balance_lookup(&self.collateral, liquidator, collateral_asset);
        proof {
            lemma_amount_of_bounded(self.collateral@, liquidator, collateral_asset);
            // The borrower owes this debt, so its reserve is registered.
            if !has_key(self.debts@, borrower, debt_asset) {
                lemma_amount_of_absent(self.debts@, borrower, debt_asset);
            }
            let k = choose|k: int|
                0 <= k < self.debts@.len() && (#[trigger] self.debts@[k]).user == borrower
                    && self.debts@[k].asset == debt_asset;
            assert(has_reserve(self.reserves@, self.debts@[k].asset));
        }
        let di = match reserve_index(&self.reserves, debt_asset) {
            Option::Some(i) => i,
            Option::None => {
                proof {
                    assert(false);
                }
                return Result::Err(ProtocolError::ReserveNotFound);
            },
        };
        let dre = self.reserves[di];
        proof {
            assert(reserve_ok(dre));
            assert(find_reserve(self.reserves@, debt_asset) == Option::Some(dre));
        }
        if liq_col > BALANCE_CAP - seized || dre.total_reserve > RESERVE_CAP - repay_amount {
            return Result::Err(ProtocolError::AmountTooLarge);
        }
        let ghost pre = *self;
        proof {
            assert(liquidation_rejection(
                pre,
                liquidator,
                borrower,
                debt_asset,
                collateral_asset,
                repay_amount,
            ) is None);
        }
        // Apply: all checks passed, now every delta lands.
        balance_set(&mut self.debts, borrower, debt_asset, debt - repay_amount);
        balance_set(&mut self.collateral, borrower, collateral_asset, col - seized);
        balance_set(&mut self.collateral, liquidator, collateral_asset, liq_col + seized);
        let ghost after_balances = *self;
        let mut dre2 = self.reserves[di];
        dre2.total_reserve = dre2.total_reserve + repay_amount;
        reserve_replace(&mut self.reserves, di, dre2);
        let ghost after_debt_reserve = *self;
        proof {
            assert(reserves_bounded(self.reserves@)) by {
                assert(forall|k: int|
                    0 <= k < self.reserves@.len() && k != di ==> #[trigger] self.reserves@[k]
                        == after_balances.reserves@[k]);
                assert(self.reserves@[di as int] == dre2);
            }
        }
        let ci2 = match reserve_index(&self.reserves, collateral_asset) {
            Option::Some(i) => i,
            Option::None => {
                proof {
                    assert(false);
                }
                return Result::Err(ProtocolError::ReserveNotFound);
            },
        };
        let cre2 = self.reserves[ci2];
        proof {
            assert(find_reserve(self.reserves@, collateral_asset) == Option::Some(cre2));
            if debt_asset == collateral_asset {
                assert(cre2 == dre2);
            } else {
                assert(cre2 == cre);
            }
        }
        let mut cre3 = cre2;
        cre3.total_reserve = cre2.total_reserve - seized;
        reserve_replace(&mut self.reserves, ci2, cre3);
        proof {
            assert(reserves_bounded(self.reserves@)) by {
                assert(forall|k: int|
                    0 <= k < self.reserves@.len() && k != ci2 ==> #[trigger] self.reserves@[k]
                        == after_debt_reserve.reserves@[k]);
                assert(self.reserves@[ci2 as int] == cre3);
            }
        }
        let ev = LiquidationEvent {
            liquidator: liquidator,
            borrower: borrower,
            debt_asset: debt_asset,
            collateral_asset: collateral_asset,
            repay_amount: repay_amount,
            seized_collateral: seized,
        };
        self.events.push(ev);
        proof {
            // collateral keys still point at registered reserves
            assert forall|k: int| 0 <= k < self.collateral@.len() implies has_reserve(
                self.reserves@,
                (#[trigger] self.collateral@[k]).asset,
            ) by {
                let u0 = self.collateral@[k].user;
                let a0 = self.collateral@[k].asset;
                if has_key(pre.collateral@, u0, a0) {
                    let w = choose|w: int|
                        0 <= w < pre.collateral@.len() && (#[trigger] pre.collateral@[w]).user == u0
                            && pre.collateral@[w].asset == a0;
                    assert(has_reserve(pre.reserves@, a0));
                } else {
                    assert(a0 == collateral_asset);
                }
            }
            assert forall|k: int| 0 <= k < self.debts@.len() implies has_reserve(
                self.reserves@,
                (#[trigger] self.debts@[k]).asset,
            ) by {
                let u0 = self.debts@[k].user;
                let a0 = self.debts@[k].asset;
                if has_key(pre.debts@, u0, a0) {
                    let w = choose|w: int|
                        0 <= w < pre.debts@.len() && (#[trigger] pre.debts@[w]).user == u0
                            && pre.debts@[w].asset == a0;
                    assert(has_reserve(pre.reserves@, a0));
                } else {
                    assert(a0 == debt_asset);
                }
            }
        }
        Result::Ok(seized)
    }

    /// The checked surface of `liquidate`: same validations, same
    /// effects, same result.
    pub fn try_liquidate(
        &mut self,
        liquidator: u64,
        borrower: u64,
        debt_asset: Asset,
        collateral_asset: Asset,
        repay_amount: i128,
    ) -> (r: Result<i128, ProtocolError>)
        requires
            old(self).wf(),
        ensures
            final(self).wf(),
            match r {
                Result::Err(e) => Option::Some(e) == liquidation_rejection(
                    *old(self),
                    liquidator,
                    borrower,
                    debt_asset,
                    collateral_asset,
                    repay_amount,
                ) && *final(self) == *old(self),
                Result::Ok(seized) => {
                    &&& liquidation_rejection(
                        *old(self),
                        liquidator,
                        borrower,
                        debt_asset,
                        collateral_asset,
                        repay_amount,
                    ) is None
                    &&& seized == spec_seized(
                        repay_amount as int,
                        liquidation_bonus_of(old(self).reserves@, collateral_asset),
                    )
                    &&& forall|u: u64, a: Asset|
                        #[trigger] amount_of(final(self).debts@, u, a) == if u == borrower && a
                            == debt_asset {
                            amount_of(old(self).debts@, u, a) - repay_amount
                        } else {
                            amount_of(old(self).debts@, u, a)
                        }
                    &&& forall|u: u64, a: Asset|
                        #[trigger] amount_of(final(self).collateral@, u, a) == if u == borrower
                            && a == collateral_asset {
                            amount_of(old(self).collateral@, u, a) - seized
                        } else if u == liquidator && a == collateral_asset {
                            amount_of(old(self).collateral@, u, a) + seized
                        } else {
                            amount_of(old(self).collateral@, u, a)
                        }
                    &&& forall|a: Asset|
                        #[trigger] total_reserve_of(final(self).reserves@, a) == total_reserve_of(
                            old(self).reserves@,
                            a,
                        ) + (if a == debt_asset {
                            repay_amount as int
                        } else {
                            0
                        }) - (if a == collateral_asset {
                            seized as int
                        } else {
                            0
                        })
                    &&& forall|a: Asset|
                        #[trigger] price_of(final(self).reserves@, a) == price_of(
                            old(self).reserves@,
                            a,
                        )
                    &&& forall|a: Asset|
                        #[trigger] collateral_factor_of(final(self).reserves@, a)
                            == collateral_factor_of(old(self).reserves@, a)
                    &&& forall|a: Asset|
                        #[trigger] liquidation_bonus_of(final(self).reserves@, a)
                            == liquidation_bonus_of(old(self).reserves@, a)
                    &&& forall|a: Asset|
                        #[trigger] has_reserve(final(self).reserves@, a) == has_reserve(
                            old(self).reserves@,
                            a,
                        )
                    &&& final(self).reserves@.len() == old(self).reserves@.len()
                    &&& forall|k: int|
                        0 <= k < old(self).reserves@.len() ==> (
                        #[trigger] final(self).reserves@[k]).asset == old(self).reserves@[k].asset
                            && final(self).reserves@[k].config == old(self).reserves@[k].config
                            && final(self).reserves@[k].price == old(self).reserves@[k].price
                    &&& forall|k: int|
                        0 <= k < final(self).collateral@.len() ==> has_key(
                            old(self).collateral@,
                            (#[trigger] final(self).collateral@[k]).user,
                            final(self).collateral@[k].asset,
                        ) || (final(self).collateral@[k].user == liquidator
                            && final(self).collateral@[k].asset == collateral_asset)
                    &&& forall|k: int|
                        0 <= k < final(self).debts@.len() ==> has_key(
                            old(self).debts@,
                            (#[trigger] final(self).debts@[k]).user,
                            final(self).debts@[k].asset,
                        )
                    &&& final(self).admin == old(self).admin
                    &&& final(self).paused == old(self).paused
                    &&& final(self).events@ == old(self).events@.push(
                        LiquidationEvent {
                            liquidator: liquidator,
                            borrower: borrower,
                            debt_asset: debt_asset,
                            collateral_asset: collateral_asset,
                            repay_amount: repay_amount,
                            seized_collateral: seized,
                        },
                    )
                },
            },
    {
        self.liquidate(liquidator, borrower, debt_asset, collateral_asset, repay_amount)
    }
}

/// The close-factor cap: at most half of the current debt, floor
/// division, may be repaid in one call.
pub open spec fn spec_max_repay(debt: int) -> int {
    debt * (CLOSE_FACTOR_BPS as int) / (BPS_SCALE as int)
}

/// The first reason to reject a liquidation, checked in the order the
/// engine validates: pause, position, self-liquidation, amount, asset
/// match, health factor, close factor, seizure sufficiency, caps.
pub open spec fn liquidation_rejection(
    p: LendingPool,
    liquidator: u64,
    borrower: u64,
    debt_asset: Asset,
    collateral_asset: Asset,
    repay: i128,
) -> Option<ProtocolError> {
    let debt = amount_of(p.debts@, borrower, debt_asset);
    let col = amount_of(p.collateral@, borrower, collateral_asset);
    let seized = spec_seized(repay as int, liquidation_bonus_of(p.reserves@, collateral_asset));
    if p.paused {
        Option::Some(ProtocolError::ProtocolPaused)
    } else if !position_exists(p, borrower) {
        Option::Some(ProtocolError::PositionNotFound)
    } else if debt <= 0 {
        Option::Some(ProtocolError::DebtAssetMismatch)
    } else if liquidator == borrower {
        Option::Some(ProtocolError::SelfLiquidation)
    } else if repay <= 0 {
        Option::Some(ProtocolError::InvalidAmount)
    } else if col <= 0 {
        Option::Some(ProtocolError::CollateralAssetMismatch)
    } else if health_factor_of(p, borrower) >= FP_ONE {
        Option::Some(ProtocolError::NotLiquidatable)
    } else if repay > spec_max_repay(debt) {
        Option::Some(ProtocolError::CloseFactorExceeded)
    } else if seized > col || seized > total_reserve_of(p.reserves@, collateral_asset) {
        Option::Some(ProtocolError::InsufficientCollateral)
    } else if amount_of(p.collateral@, liquidator, collateral_asset) + seized > BALANCE_CAP
        || total_reserve_of(p.reserves@, debt_asset) + repay > RESERVE_CAP {
        Option::Some(ProtocolError::AmountTooLarge)
    } else {
        Option::None
    }
}

/// The first reason to reject an `update_asset_price` call, if any.
pub open spec fn price_rejection(p: LendingPool, caller: u64, asset: Asset, price: i128) -> Option<
    ProtocolError,
> {
    if p.admin != Option::Some(caller) {
        Option::Some(ProtocolError::Unauthorized)
    } else if price <= 0 || price > PRICE_CAP {
        Option::Some(ProtocolError::InvalidPrice)
    } else if !has_reserve(p.reserves@, asset) {
        Option::Some(ProtocolError::ReserveNotFound)
    } else {
        Option::None
    }
}

} // verus!
