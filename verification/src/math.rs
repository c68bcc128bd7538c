use vstd::prelude::*;

use crate::types::{BPS_SCALE, SWAP_AMOUNT_CAP};

verus! {

/// Output owed by a swap after slippage, floor division:
/// `amount * (10_000 - slippage_bps) / 10_000`.
pub open spec fn spec_swap_output(amount: int, slippage_bps: int) -> int {
    amount * (BPS_SCALE - slippage_bps) / (BPS_SCALE as int)
}

/// Collateral seized for a repay amount under a liquidation bonus,
/// floor division: `repay * (10_000 + bonus_bps) / 10_000`.
pub open spec fn spec_seized(repay: int, bonus_bps: int) -> int {
    repay * (BPS_SCALE + bonus_bps) / (BPS_SCALE as int)
}

/// Expected output after slippage: amount * (10_000 - slippage_bps) / 10_000.
pub fn expected_output(amount: i128, slippage_bps: u32) -> (r: i128)
    requires
        0 <= amount <= SWAP_AMOUNT_CAP,
        slippage_bps <= 10_000,
    ensures
        r == spec_swap_output(amount as int, slippage_bps as int),
        0 <= r <= amount,
{
    let keep: i128 = 10_000 - slippage_bps as i128;
    proof {
        assert(0 <= amount * keep <= amount * 10_000) by (nonlinear_arith)
            requires
                0 <= amount,
                0 <= keep <= 10_000,
        ;
        assert(amount * keep / 10_000 <= amount * 10_000 / 10_000) by {
            vstd::arithmetic::div_mod::lemma_div_is_ordered(
                amount * keep,
                amount * 10_000,
                10_000,
            );
            vstd::arithmetic::div_mod::lemma_div_multiples_vanish(amount as int, 10_000);
        }
    }
    amount * keep / 10_000
}

/// Expected collateral seized including liquidation bonus:
/// repay_amount * (10_000 + bonus_bps) / 10_000.
pub fn expected_seized(repay_amount: i128, bonus_bps: u32) -> (r: i128)
    requires
        0 <= repay_amount <= SWAP_AMOUNT_CAP,
        bonus_bps <= 10_000,
    ensures
        r == spec_seized(repay_amount as int, bonus_bps as int),
        repay_amount <= r <= 2 * repay_amount,
{
    let scale: i128 = 10_000 + bonus_bps as i128;
    proof {
        assert(repay_amount * 10_000 <= repay_amount * scale <= repay_amount * 20_000)
            by (nonlinear_arith)
            requires
                0 <= repay_amount,
                10_000 <= scale <= 20_000,
        ;
        assert(repay_amount * 10_000 / 10_000 <= repay_amount * scale / 10_000
            <= repay_amount * 20_000 / 10_000) by {
            vstd::arithmetic::div_mod::lemma_div_is_ordered(
                repay_amount * 10_000,
                repay_amount * scale,
                10_000,
            );
            vstd::arithmetic::div_mod::lemma_div_is_ordered(
                repay_amount * scale,
                repay_amount * 20_000,
                10_000,
            );
            vstd::arithmetic::div_mod::lemma_div_multiples_vanish(repay_amount as int, 10_000);
            vstd::arithmetic::div_mod::lemma_div_multiples_vanish(
                2 * repay_amount as int,
                10_000,
            );
            assert(repay_amount * 20_000 == (2 * repay_amount) * 10_000) by (nonlinear_arith);
        }
    }
    repay_amount * scale / 10_000
}

} // verus!
