//! Protocol-wide laws, stated once and proved from the same spec
//! functions the operations' contracts use.

use vstd::prelude::*;

use crate::amm::{
    auto_swap_rejection, callback_rejection, execute_swap_rejection, find_protocol, next_nonce_of,
    AmmContract, SwapParams,
};
use crate::ledger::amount_of;
use crate::lending::{
    debt_value, health_factor_of, liquidation_rejection, spec_max_repay, LendingPool,
};
use crate::math::{spec_seized, spec_swap_output};
use crate::types::{Asset, ProtocolError, FP_ONE, HF_INFINITE, SWAP_AMOUNT_CAP};

verus! {

/// A position with no debt has the infinite health factor and is never
/// liquidatable, whatever its collateral.
pub proof fn lemma_zero_debt_never_liquidatable(p: LendingPool, user: u64)
    requires
        debt_value(p.reserves@, p.debts@, user) == 0,
    ensures
        health_factor_of(p, user) == HF_INFINITE,
        !(health_factor_of(p, user) < FP_ONE),
{
}

/// The close factor binds every accepted liquidation: a call the engine
/// accepts repays a positive amount no greater than half of the current
/// debt, and a repay amount within that cap is never rejected for the
/// close factor.
pub proof fn lemma_close_factor_cap(
    p: LendingPool,
    liquidator: u64,
    borrower: u64,
    debt_asset: Asset,
    collateral_asset: Asset,
    repay: i128,
)
    ensures
        liquidation_rejection(p, liquidator, borrower, debt_asset, collateral_asset, repay)
            is None ==> 0 < repay <= spec_max_repay(amount_of(p.debts@, borrower, debt_asset)),
        repay <= spec_max_repay(amount_of(p.debts@, borrower, debt_asset))
            ==> liquidation_rejection(p, liquidator, borrower, debt_asset, collateral_asset, repay)
            != Option::Some(ProtocolError::CloseFactorExceeded),
{
}

/// The core safety guarantee of the engine: a position whose health
/// factor is at or above one is never liquidated, whatever the other
/// arguments; the boundary is exclusive on the liquidatable side.
pub proof fn lemma_healthy_position_never_liquidated(
    p: LendingPool,
    liquidator: u64,
    borrower: u64,
    debt_asset: Asset,
    collateral_asset: Asset,
    repay: i128,
)
    requires
        health_factor_of(p, borrower) >= FP_ONE,
    ensures
        liquidation_rejection(p, liquidator, borrower, debt_asset, collateral_asset, repay)
            is Some,
{
}

/// The seizure splits exactly into the repaid amount and the bonus
/// share: `seized == repay + repay * bonus_bps / 10_000`.
pub proof fn lemma_seizure_is_repay_plus_bonus(repay: int, bonus_bps: int)
    requires
        0 <= repay,
        0 <= bonus_bps,
    ensures
        spec_seized(repay, bonus_bps) == repay + repay * bonus_bps / 10_000,
{
    assert(repay * (10_000 + bonus_bps) == repay * bonus_bps + repay * 10_000)
        by (nonlinear_arith);
    vstd::arithmetic::div_mod::lemma_hoist_over_denominator(repay * bonus_bps, repay, 10_000);
}

/// An accepted swap of at least one whole basis-point unit pays out a
/// positive amount: the formula cannot round a meaningful input to zero
/// while the slippage stays below one whole.
pub proof fn lemma_swap_output_positive(amount: int, slippage_bps: int)
    requires
        10_000 <= amount <= SWAP_AMOUNT_CAP,
        0 <= slippage_bps <= 9_999,
    ensures
        0 < spec_swap_output(amount, slippage_bps) <= amount,
{
    assert(amount <= amount * (10_000 - slippage_bps) <= amount * 10_000) by (nonlinear_arith)
        requires
            10_000 <= amount,
            0 <= slippage_bps <= 9_999,
    ;
    vstd::arithmetic::div_mod::lemma_div_is_ordered(amount, amount * (10_000 - slippage_bps), 10_000);
    vstd::arithmetic::div_mod::lemma_div_is_ordered(
        amount * (10_000 - slippage_bps),
        amount * 10_000,
        10_000,
    );
    vstd::arithmetic::div_mod::lemma_div_multiples_vanish(amount, 10_000);
    assert(amount / 10_000 >= 1) by {
        vstd::arithmetic::div_mod::lemma_div_is_ordered(10_000, amount, 10_000);
        vstd::arithmetic::div_mod::lemma_div_multiples_vanish(1, 10_000);
    }
}

/// Every swap the router accepts pays out a positive amount: both
/// rejection chains gate out any request whose computed output would
/// floor to zero.
pub proof fn lemma_accepted_swap_pays_out(
    c: AmmContract,
    target_asset: Asset,
    amount_in: i128,
    params: SwapParams,
    now: u64,
)
    ensures
        auto_swap_rejection(c, target_asset, amount_in) is None ==> spec_swap_output(
            amount_in as int,
            c.settings.unwrap().default_slippage as int,
        ) > 0,
        execute_swap_rejection(c, params, now) is None ==> spec_swap_output(
            params.amount_in as int,
            params.slippage_tolerance as int,
        ) > 0,
{
}

/// A nonce the validator has consumed for a protocol can never validate
/// again for that protocol: after acceptance the counter has moved past
/// it, so the same nonce, or any older one, is rejected as a replay.
pub proof fn lemma_consumed_nonce_rejected(
    pre: AmmContract,
    post: AmmContract,
    protocol: u64,
    accepted_nonce: u64,
    accepted_deadline: u64,
    accepted_now: u64,
    replayed_nonce: u64,
    replayed_deadline: u64,
    replayed_now: u64,
)
    requires
        callback_rejection(pre, protocol, accepted_nonce, accepted_deadline, accepted_now)
            is None,
        post.protocols@ == pre.protocols@,
        next_nonce_of(post.nonces@, protocol) == accepted_nonce + 1,
        replayed_nonce <= accepted_nonce,
    ensures
        callback_rejection(post, protocol, replayed_nonce, replayed_deadline, replayed_now)
            == Option::Some(ProtocolError::NonceReplay),
{
    assert(find_protocol(post.protocols@, protocol) == find_protocol(pre.protocols@, protocol));
}

/// The router reads only the current settings and registry: two stores
/// that agree on those fields accept and reject identically. Together
/// with the settings operations' contracts, an accepted settings change
/// is visible to the very next call.
pub proof fn lemma_swap_policy_reads_current_config(
    c1: AmmContract,
    c2: AmmContract,
    target_asset: Asset,
    amount_in: i128,
    params: SwapParams,
    now: u64,
)
    requires
        c1.settings == c2.settings,
        c1.protocols@ == c2.protocols@,
    ensures
        auto_swap_rejection(c1, target_asset, amount_in) == auto_swap_rejection(
            c2,
            target_asset,
            amount_in,
        ),
        execute_swap_rejection(c1, params, now) == execute_swap_rejection(c2, params, now),
{
}

/// Below the current auto-swap threshold, the router rejects; at or
/// above it, the threshold check never fires.
pub proof fn lemma_threshold_gates_auto_swap(c: AmmContract, target_asset: Asset, amount_in: i128)
    requires
        c.settings is Some,
        c.settings.unwrap().swap_enabled,
    ensures
        0 < amount_in < c.settings.unwrap().auto_swap_threshold ==> auto_swap_rejection(
            c,
            target_asset,
            amount_in,
        ) == Option::Some(ProtocolError::BelowThreshold),
        amount_in >= c.settings.unwrap().auto_swap_threshold ==> auto_swap_rejection(
            c,
            target_asset,
            amount_in,
        ) != Option::Some(ProtocolError::BelowThreshold),
{
}

} // verus!
