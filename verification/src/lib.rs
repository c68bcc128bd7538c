//! Verified core of a lending protocol's liquidation and swap-routing
//! engine: health-factor computation, close-factor policy, liquidator
//! incentives, reserve accounting, AMM swap routing with slippage policy,
//! callback replay protection, and admin-gated settings.

pub mod amm;
pub mod laws;
pub mod ledger;
pub mod lending;
pub mod math;
pub mod registry;
pub mod types;
