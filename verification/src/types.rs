use vstd::prelude::*;

verus! {

/// Basis-point scale: 10_000 basis points make one whole.
pub const BPS_SCALE: i128 = 10_000;

/// Fixed-point scale with seven decimal places: 1.0 is 10_000_000.
pub const FP_ONE: i128 = 10_000_000;

/// Close factor: at most half of the outstanding debt may be repaid
/// in one liquidation call.
pub const CLOSE_FACTOR_BPS: i128 = 5_000;

/// Sentinel health factor for a position with no debt: such a position
/// is never liquidatable, whatever its collateral.
pub const HF_INFINITE: i128 = i128::MAX;

/// Largest balance a single position may hold of one asset.
/// Keeps every product in the health-factor sum far from i128 overflow.
pub const BALANCE_CAP: i128 = 1_000_000_000_000_000_000;

/// Largest admissible oracle price (fixed-point, seven decimals).
pub const PRICE_CAP: i128 = 100_000_000_000;

/// Largest aggregate reserve the protocol tracks per asset.
pub const RESERVE_CAP: i128 = 1_000_000_000_000_000_000_000_000;

/// Largest number of registered reserves.
pub const RESERVE_LIMIT: usize = 32;

/// Largest amount a swap route may carry.
pub const SWAP_AMOUNT_CAP: i128 = 1_000_000_000_000_000_000_000_000_000_000;

/// An asset handled by the protocol: either the chain's native asset or a
/// token contract, identified by a plain id.
#[derive(Clone, Copy, PartialEq, Eq, Structural, Debug)]
pub enum Asset {
    Native,
    Token(u64),
}

/// Every way a protocol operation can be rejected. All failures are
/// detected before any state is mutated.
#[derive(Clone, Copy, PartialEq, Eq, Structural, Debug)]
pub enum ProtocolError {
    /// The store was already initialized.
    AlreadyInitialized,
    /// The store was never initialized.
    NotInitialized,
    /// The caller is not the admin, or is not a registered, enabled protocol.
    Unauthorized,
    /// The protocol is paused.
    ProtocolPaused,
    /// A zero or negative amount was supplied.
    InvalidAmount,
    /// An amount would push a balance or aggregate past its supported cap.
    AmountTooLarge,
    /// The named asset has no registered reserve.
    ReserveNotFound,
    /// A reserve for the named asset already exists.
    ReserveExists,
    /// The reserve registry is full.
    RegistryFull,
    /// A configuration value is out of its admissible range.
    InvalidConfig,
    /// An oracle price is out of its admissible range.
    InvalidPrice,
    /// The named borrower has no position.
    PositionNotFound,
    /// The borrower owes nothing in the named debt asset.
    DebtAssetMismatch,
    /// The borrower holds no collateral in the named collateral asset.
    CollateralAssetMismatch,
    /// A borrower may not liquidate their own position.
    SelfLiquidation,
    /// The position's health factor is at or above one.
    NotLiquidatable,
    /// The repay amount exceeds the close-factor cap.
    CloseFactorExceeded,
    /// The borrower's collateral, or the protocol's reserve of it, cannot
    /// cover the seizure.
    InsufficientCollateral,
    /// Swaps are disabled by the current settings.
    SwapsDisabled,
    /// The input amount is below the auto-swap threshold.
    BelowThreshold,
    /// No registered, enabled protocol supports the requested token pair.
    UnsupportedPair,
    /// The named swap protocol is not registered.
    UnknownProtocol,
    /// The named swap protocol is disabled.
    ProtocolDisabled,
    /// The input amount is outside the protocol's swap limits.
    AmountOutOfRange,
    /// The requested slippage tolerance exceeds the configured maximum.
    SlippageTooHigh,
    /// The computed output falls short of the requested minimum.
    InsufficientOutput,
    /// The callback nonce was already consumed or is otherwise stale.
    NonceReplay,
    /// The deadline lies before the current time.
    DeadlineExpired,
}

} // verus!
