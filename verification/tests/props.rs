//! Exact-value checks for the formulas, one input for each rejection,
//! the no-mutation guarantee of failed calls, and the callback nonce
//! life cycle.

use stellar_lend::amm::{AmmCallbackData, AmmContract, AmmProtocolConfig, AmmSettings, SwapParams, TokenPair};
use stellar_lend::lending::LendingPool;
use stellar_lend::math::{expected_output, expected_seized};
use stellar_lend::registry::ReserveConfig;
use stellar_lend::types::{Asset, ProtocolError};

const ONE: i128 = 10_000_000;
const ADMIN: u64 = 1;

fn reserve_config(can_be_collateral: bool) -> ReserveConfig {
    ReserveConfig {
        collateral_factor: 7_500,
        liquidation_bonus: 500,
        is_active: true,
        can_be_collateral,
    }
}

fn distressed_pool() -> (LendingPool, Asset, Asset, u64) {
    let mut pool = LendingPool::new();
    pool.initialize(ADMIN).unwrap();
    let collateral_token = Asset::Token(11);
    let debt_token = Asset::Token(12);
    let borrower = 50;
    pool.add_reserve(ADMIN, collateral_token, reserve_config(true)).unwrap();
    pool.add_reserve(ADMIN, debt_token, reserve_config(false)).unwrap();
    pool.deposit(ADMIN, borrower, collateral_token, 100 * ONE).unwrap();
    pool.borrow(ADMIN, borrower, debt_token, 90 * ONE).unwrap();
    (pool, collateral_token, debt_token, borrower)
}

fn router() -> (AmmContract, u64, Asset) {
    let mut c = AmmContract::new();
    c.initialize_amm_settings(ADMIN, 100, 1_000, 10_000).unwrap();
    let token_out = Asset::Token(20);
    c.add_amm_protocol(
        ADMIN,
        AmmProtocolConfig {
            protocol_address: 77,
            protocol_name: String::from("Venue"),
            enabled: true,
            fee_tier: 30,
            min_swap_amount: 1_000,
            max_swap_amount: 1_000_000_000,
            supported_pairs: vec![TokenPair {
                token_a: Asset::Native,
                token_b: token_out,
                pool_address: 900,
            }],
        },
    )
    .unwrap();
    (c, 77, token_out)
}

#[test]
fn test_swap_output_formula_exact_values() {
    assert_eq!(expected_output(15_000, 100), 14_850);
    assert_eq!(expected_output(50_000, 100), 49_500);
    assert_eq!(expected_output(10_000, 9_999), 1);
    assert_eq!(expected_output(10_000, 10_000), 0);
    assert_eq!(expected_output(0, 100), 0);
}

#[test]
fn test_seizure_formula_exact_values() {
    assert_eq!(expected_seized(20 * ONE, 500), 21 * ONE);
    assert_eq!(expected_seized(10_000, 0), 10_000);
    assert_eq!(expected_seized(3, 500), 3); // floor: 3 * 10500 / 10000
    assert_eq!(expected_seized(0, 500), 0);
}

#[test]
fn test_health_factor_infinite_without_debt() {
    let mut pool = LendingPool::new();
    pool.initialize(ADMIN).unwrap();
    let collateral_token = Asset::Token(11);
    pool.add_reserve(ADMIN, collateral_token, reserve_config(true)).unwrap();
    pool.deposit(ADMIN, 50, collateral_token, 100 * ONE).unwrap();

    assert_eq!(pool.get_health_factor(50), i128::MAX);
    assert_eq!(pool.get_health_factor(99), i128::MAX); // no position at all
}

#[test]
fn test_health_factor_exact_undercollateralized_value() {
    let (pool, _c, _d, borrower) = distressed_pool();
    // HF = (100 * 0.75) / 90 = 0.8333333 in seven decimals, floored
    assert_eq!(pool.get_health_factor(borrower), 8_333_333);
}

#[test]
fn test_liquidation_rejection_variants() {
    let (mut pool, collateral_token, debt_token, borrower) = distressed_pool();
    let liquidator = 60;

    assert_eq!(
        pool.try_liquidate(liquidator, 99, debt_token, collateral_token, ONE),
        Err(ProtocolError::PositionNotFound)
    );
    assert_eq!(
        pool.try_liquidate(liquidator, borrower, Asset::Token(88), collateral_token, ONE),
        Err(ProtocolError::DebtAssetMismatch)
    );
    assert_eq!(
        pool.try_liquidate(borrower, borrower, debt_token, collateral_token, ONE),
        Err(ProtocolError::SelfLiquidation)
    );
    assert_eq!(
        pool.try_liquidate(liquidator, borrower, debt_token, collateral_token, 0),
        Err(ProtocolError::InvalidAmount)
    );
    assert_eq!(
        pool.try_liquidate(liquidator, borrower, debt_token, Asset::Token(88), ONE),
        Err(ProtocolError::CollateralAssetMismatch)
    );
    assert_eq!(
        pool.try_liquidate(liquidator, borrower, debt_token, collateral_token, 45 * ONE + 1),
        Err(ProtocolError::CloseFactorExceeded)
    );

    pool.pause(ADMIN).unwrap();
    assert_eq!(
        pool.try_liquidate(liquidator, borrower, debt_token, collateral_token, ONE),
        Err(ProtocolError::ProtocolPaused)
    );
    pool.unpause(ADMIN).unwrap();

    let result = pool.try_liquidate(liquidator, borrower, debt_token, collateral_token, ONE);
    assert!(result.is_ok());
}

#[test]
fn test_not_liquidatable_rejection_variant() {
    let mut pool = LendingPool::new();
    pool.initialize(ADMIN).unwrap();
    let collateral_token = Asset::Token(11);
    let debt_token = Asset::Token(12);
    pool.add_reserve(ADMIN, collateral_token, reserve_config(true)).unwrap();
    pool.add_reserve(ADMIN, debt_token, reserve_config(false)).unwrap();
    pool.deposit(ADMIN, 50, collateral_token, 100 * ONE).unwrap();
    pool.borrow(ADMIN, 50, debt_token, 50 * ONE).unwrap();

    assert_eq!(
        pool.try_liquidate(60, 50, debt_token, collateral_token, ONE),
        Err(ProtocolError::NotLiquidatable)
    );
}

#[test]
fn test_insufficient_collateral_rejection_variant() {
    let mut pool = LendingPool::new();
    pool.initialize(ADMIN).unwrap();
    let collateral_token = Asset::Token(11);
    let debt_token = Asset::Token(12);
    pool.add_reserve(ADMIN, collateral_token, reserve_config(true)).unwrap();
    pool.add_reserve(ADMIN, debt_token, reserve_config(false)).unwrap();
    pool.deposit(ADMIN, 50, collateral_token, ONE).unwrap();
    pool.borrow(ADMIN, 50, debt_token, 90 * ONE).unwrap();

    assert_eq!(
        pool.try_liquidate(60, 50, debt_token, collateral_token, ONE),
        Err(ProtocolError::InsufficientCollateral)
    );
}

#[test]
fn test_failed_liquidation_leaves_all_balances_unchanged() {
    let (mut pool, collateral_token, debt_token, borrower) = distressed_pool();
    let liquidator = 60;

    let debt = pool.get_user_debt(borrower, debt_token);
    let col = pool.get_user_balance(borrower, collateral_token);
    let liq_col = pool.get_user_balance(liquidator, collateral_token);
    let reserve_c = pool.get_total_reserve(collateral_token);
    let reserve_d = pool.get_total_reserve(debt_token);

    // every rejection path in turn
    let attempts = [
        pool.try_liquidate(borrower, borrower, debt_token, collateral_token, ONE),
        pool.try_liquidate(liquidator, borrower, debt_token, collateral_token, 0),
        pool.try_liquidate(liquidator, 99, debt_token, collateral_token, ONE),
        pool.try_liquidate(liquidator, borrower, Asset::Token(88), collateral_token, ONE),
        pool.try_liquidate(liquidator, borrower, debt_token, collateral_token, 46 * ONE),
    ];
    for a in attempts {
        assert!(a.is_err());
    }

    assert_eq!(pool.get_user_debt(borrower, debt_token), debt);
    assert_eq!(pool.get_user_balance(borrower, collateral_token), col);
    assert_eq!(pool.get_user_balance(liquidator, collateral_token), liq_col);
    assert_eq!(pool.get_total_reserve(collateral_token), reserve_c);
    assert_eq!(pool.get_total_reserve(debt_token), reserve_d);
    assert!(pool.events().is_empty());
}

#[test]
fn test_exactly_one_event_per_success() {
    let (mut pool, collateral_token, debt_token, borrower) = distressed_pool();
    let liquidator = 60;

    pool.liquidate(liquidator, borrower, debt_token, collateral_token, 10 * ONE).unwrap();
    assert_eq!(pool.events().len(), 1);
    pool.liquidate(liquidator, borrower, debt_token, collateral_token, 10 * ONE).unwrap();
    assert_eq!(pool.events().len(), 2);

    let seized = expected_seized(10 * ONE, 500);
    let ev = pool.events()[1];
    assert_eq!(ev.liquidator, liquidator);
    assert_eq!(ev.borrower, borrower);
    assert_eq!(ev.debt_asset, debt_token);
    assert_eq!(ev.collateral_asset, collateral_token);
    assert_eq!(ev.repay_amount, 10 * ONE);
    assert_eq!(ev.seized_collateral, seized);
}

#[test]
fn test_store_admin_errors() {
    let mut pool = LendingPool::new();
    pool.initialize(ADMIN).unwrap();
    assert_eq!(pool.initialize(2), Err(ProtocolError::AlreadyInitialized));
    assert_eq!(pool.pause(2), Err(ProtocolError::Unauthorized));
    assert_eq!(pool.unpause(2), Err(ProtocolError::Unauthorized));
    assert_eq!(
        pool.add_reserve(2, Asset::Native, reserve_config(true)),
        Err(ProtocolError::Unauthorized)
    );
    assert_eq!(
        pool.update_asset_price(2, Asset::Native, ONE),
        Err(ProtocolError::Unauthorized)
    );
}

#[test]
fn test_reserve_registry_errors() {
    let mut pool = LendingPool::new();
    pool.initialize(ADMIN).unwrap();
    let a = Asset::Token(11);
    pool.add_reserve(ADMIN, a, reserve_config(true)).unwrap();
    assert_eq!(
        pool.add_reserve(ADMIN, a, reserve_config(true)),
        Err(ProtocolError::ReserveExists)
    );
    let bad = ReserveConfig {
        collateral_factor: 10_001,
        liquidation_bonus: 500,
        is_active: true,
        can_be_collateral: true,
    };
    assert_eq!(
        pool.add_reserve(ADMIN, Asset::Token(12), bad),
        Err(ProtocolError::InvalidConfig)
    );
    assert_eq!(
        pool.update_asset_price(ADMIN, Asset::Token(13), ONE),
        Err(ProtocolError::ReserveNotFound)
    );
    assert_eq!(
        pool.update_asset_price(ADMIN, a, 0),
        Err(ProtocolError::InvalidPrice)
    );

    // fill the registry to its limit
    for t in 0..31u64 {
        pool.add_reserve(ADMIN, Asset::Token(100 + t), reserve_config(false)).unwrap();
    }
    assert_eq!(
        pool.add_reserve(ADMIN, Asset::Token(999), reserve_config(false)),
        Err(ProtocolError::RegistryFull)
    );
}

#[test]
fn test_deposit_and_borrow_errors() {
    let mut pool = LendingPool::new();
    pool.initialize(ADMIN).unwrap();
    let a = Asset::Token(11);
    pool.add_reserve(ADMIN, a, reserve_config(true)).unwrap();

    assert_eq!(pool.deposit(ADMIN, 50, a, 0), Err(ProtocolError::InvalidAmount));
    assert_eq!(
        pool.deposit(ADMIN, 50, Asset::Token(12), ONE),
        Err(ProtocolError::ReserveNotFound)
    );
    assert_eq!(
        pool.deposit(ADMIN, 50, a, 1_000_000_000_000_000_001),
        Err(ProtocolError::AmountTooLarge)
    );
    assert_eq!(pool.borrow(ADMIN, 50, a, 0), Err(ProtocolError::InvalidAmount));
    assert_eq!(
        pool.borrow(ADMIN, 50, Asset::Token(12), ONE),
        Err(ProtocolError::ReserveNotFound)
    );

    assert_eq!(pool.deposit(ADMIN, 50, a, 3 * ONE), Ok(3 * ONE));
    assert_eq!(pool.deposit(ADMIN, 50, a, ONE), Ok(4 * ONE));
    assert_eq!(pool.get_total_reserve(a), 4 * ONE);
    assert_eq!(pool.get_user_balance(50, a), 4 * ONE);
    assert_eq!(pool.get_user_debt(50, a), 0);
}

#[test]
fn test_router_rejection_variants() {
    let (mut c, protocol, token_out) = router();
    let user = 63;

    assert_eq!(
        c.try_auto_swap_for_collateral(user, token_out, 0, 0),
        Err(ProtocolError::InvalidAmount)
    );
    assert_eq!(
        c.try_auto_swap_for_collateral(user, token_out, 9_999, 0),
        Err(ProtocolError::BelowThreshold)
    );
    assert_eq!(
        c.try_auto_swap_for_collateral(user, Asset::Token(99), 15_000, 0),
        Err(ProtocolError::UnsupportedPair)
    );
    assert_eq!(
        c.try_auto_swap_for_collateral(user, token_out, 1_000_000_001, 0),
        Err(ProtocolError::AmountOutOfRange)
    );

    let mut params = SwapParams {
        protocol,
        token_in: Asset::Native,
        token_out,
        amount_in: 20_000,
        min_amount_out: 1,
        slippage_tolerance: 100,
        deadline: 3_600,
    };
    params.slippage_tolerance = 1_001;
    assert_eq!(c.try_execute_swap(user, params, 0), Err(ProtocolError::SlippageTooHigh));
    params.slippage_tolerance = 100;
    assert_eq!(c.try_execute_swap(user, params, 4_000), Err(ProtocolError::DeadlineExpired));
    params.protocol = 78;
    assert_eq!(c.try_execute_swap(user, params, 0), Err(ProtocolError::UnknownProtocol));
    params.protocol = protocol;
    params.min_amount_out = 20_000;
    assert_eq!(c.try_execute_swap(user, params, 0), Err(ProtocolError::InsufficientOutput));
    params.min_amount_out = 1;
    assert_eq!(c.try_execute_swap(user, params, 0), Ok(19_800));

    // rejections appended nothing: only the one success is on record
    assert_eq!(c.get_swap_history(None, 100).unwrap().len(), 1);
}

#[test]
fn test_router_initialization_and_admin_errors() {
    let mut c = AmmContract::new();
    assert_eq!(
        c.try_auto_swap_for_collateral(63, Asset::Native, 15_000, 0),
        Err(ProtocolError::NotInitialized)
    );
    assert_eq!(
        c.initialize_amm_settings(ADMIN, 200, 100, 10_000),
        Err(ProtocolError::InvalidConfig)
    );
    c.initialize_amm_settings(ADMIN, 100, 1_000, 10_000).unwrap();
    assert_eq!(
        c.initialize_amm_settings(ADMIN, 100, 1_000, 10_000),
        Err(ProtocolError::AlreadyInitialized)
    );
    assert_eq!(
        c.add_amm_protocol(
            2,
            AmmProtocolConfig {
                protocol_address: 5,
                protocol_name: String::from("Venue"),
                enabled: true,
                fee_tier: 30,
                min_swap_amount: 0,
                max_swap_amount: 100,
                supported_pairs: vec![],
            }
        ),
        Err(ProtocolError::Unauthorized)
    );
    let bad = AmmSettings {
        default_slippage: 2_000,
        max_slippage: 1_000,
        swap_enabled: true,
        liquidity_enabled: true,
        auto_swap_threshold: 10_000,
    };
    assert_eq!(c.try_update_amm_settings(ADMIN, bad), Err(ProtocolError::InvalidConfig));
}

#[test]
fn test_swaps_disabled_rejection() {
    let (mut c, _protocol, token_out) = router();
    let mut settings = c.get_amm_settings().unwrap();
    settings.swap_enabled = false;
    c.update_amm_settings(ADMIN, settings).unwrap();
    assert_eq!(
        c.try_auto_swap_for_collateral(63, token_out, 15_000, 0),
        Err(ProtocolError::SwapsDisabled)
    );
}

#[test]
fn test_disabled_protocol_execute_swap_rejection() {
    let (mut c, protocol, token_out) = router();
    let mut config = AmmProtocolConfig {
        protocol_address: protocol,
        protocol_name: String::from("Venue"),
        enabled: false,
        fee_tier: 30,
        min_swap_amount: 1_000,
        max_swap_amount: 1_000_000_000,
        supported_pairs: vec![TokenPair {
            token_a: Asset::Native,
            token_b: token_out,
            pool_address: 900,
        }],
    };
    c.add_amm_protocol(ADMIN, config.clone()).unwrap();
    let params = SwapParams {
        protocol,
        token_in: Asset::Native,
        token_out,
        amount_in: 20_000,
        min_amount_out: 1,
        slippage_tolerance: 100,
        deadline: 3_600,
    };
    assert_eq!(c.try_execute_swap(63, params, 0), Err(ProtocolError::ProtocolDisabled));

    // re-enabling through the registry takes effect at once
    config.enabled = true;
    c.add_amm_protocol(ADMIN, config).unwrap();
    assert_eq!(c.try_execute_swap(63, params, 0), Ok(19_800));
}

#[test]
fn test_callback_nonce_life_cycle() {
    let (mut c, protocol, _token_out) = router();
    let cb = |nonce: u64| AmmCallbackData {
        nonce,
        operation: String::from("swap"),
        user: 63,
        expected_amounts: vec![],
        deadline: 3_600,
    };

    // the first nonce for a protocol is zero
    assert_eq!(c.try_validate_amm_callback(protocol, &cb(1), 0), Err(ProtocolError::NonceReplay));
    assert!(c.try_validate_amm_callback(protocol, &cb(0), 0).is_ok());
    // consumed for good: the same nonce never validates again
    assert_eq!(c.try_validate_amm_callback(protocol, &cb(0), 0), Err(ProtocolError::NonceReplay));
    assert!(c.try_validate_amm_callback(protocol, &cb(1), 0).is_ok());
    assert_eq!(c.try_validate_amm_callback(protocol, &cb(1), 0), Err(ProtocolError::NonceReplay));
    // a failed validation consumes nothing
    assert_eq!(
        c.try_validate_amm_callback(protocol, &cb(2), 4_000),
        Err(ProtocolError::DeadlineExpired)
    );
    assert!(c.try_validate_amm_callback(protocol, &cb(2), 0).is_ok());
}

#[test]
fn test_swap_history_most_recent_first_with_limit() {
    let (mut c, _protocol, token_out) = router();
    c.auto_swap_for_collateral(63, token_out, 11_000, 5).unwrap();
    c.auto_swap_for_collateral(63, token_out, 12_000, 6).unwrap();
    c.auto_swap_for_collateral(64, token_out, 13_000, 7).unwrap();
    c.auto_swap_for_collateral(63, token_out, 14_000, 8).unwrap();

    let all = c.get_swap_history(None, 10).unwrap();
    assert_eq!(all.len(), 4);
    assert_eq!(all[0].amount_in, 14_000);
    assert_eq!(all[3].amount_in, 11_000);

    let top2 = c.get_swap_history(Some(63), 2).unwrap();
    assert_eq!(top2.len(), 2);
    assert_eq!(top2[0].amount_in, 14_000);
    assert_eq!(top2[1].amount_in, 12_000);
    assert_eq!(top2[0].timestamp, 8);

    let none = c.get_swap_history(Some(99), 10).unwrap();
    assert!(none.is_empty());
}

#[test]
fn test_price_drop_scenario_exact_values() {
    let mut pool = LendingPool::new();
    pool.initialize(ADMIN).unwrap();
    let collateral_token = Asset::Token(11);
    let debt_token = Asset::Token(12);
    pool.add_reserve(ADMIN, collateral_token, reserve_config(true)).unwrap();
    pool.add_reserve(ADMIN, debt_token, reserve_config(false)).unwrap();
    pool.deposit(ADMIN, 50, collateral_token, 100 * ONE).unwrap();
    pool.borrow(ADMIN, 50, debt_token, 50 * ONE).unwrap();

    assert_eq!(pool.get_health_factor(50), 1_5000000);
    pool.update_asset_price(ADMIN, collateral_token, 5_000_000).unwrap();
    assert_eq!(pool.get_health_factor(50), 7_500_000);
    assert!(pool.is_liquidatable(50));
}

#[test]
fn test_zero_output_swap_rejected() {
    let mut c = AmmContract::new();
    c.initialize_amm_settings(ADMIN, 9_900, 9_999, 1).unwrap();
    let token_out = Asset::Token(20);
    c.add_amm_protocol(
        ADMIN,
        AmmProtocolConfig {
            protocol_address: 77,
            protocol_name: String::from("Venue"),
            enabled: true,
            fee_tier: 30,
            min_swap_amount: 1,
            max_swap_amount: 1_000_000_000,
            supported_pairs: vec![TokenPair {
                token_a: Asset::Native,
                token_b: token_out,
                pool_address: 900,
            }],
        },
    )
    .unwrap();

    // 1 * (10_000 - 9_900) / 10_000 floors to zero: rejected, not paid out
    assert_eq!(
        c.try_auto_swap_for_collateral(63, token_out, 1, 0),
        Err(ProtocolError::InsufficientOutput)
    );
    let params = SwapParams {
        protocol: 77,
        token_in: Asset::Native,
        token_out,
        amount_in: 1,
        min_amount_out: 0,
        slippage_tolerance: 9_999,
        deadline: 3_600,
    };
    assert_eq!(c.try_execute_swap(63, params, 0), Err(ProtocolError::InsufficientOutput));
    assert!(c.get_swap_history(None, 10).unwrap().is_empty());

    // a settings maximum of one whole is itself rejected
    assert_eq!(
        AmmContract::new().initialize_amm_settings(ADMIN, 100, 10_000, 1),
        Err(ProtocolError::InvalidConfig)
    );
}
