//! A two-asset constant-product liquidity pool: its record, the four
//! operations on it, and the arithmetic they share.
//!
//! The operations validate, compute and commit the new reserve and supply
//! figures of the record; the caller moves the funds the returned amounts name.
pub mod error;
pub mod laws;
pub mod math;
pub mod pool;

pub use error::DexError;
pub use math::{calculate_amount_out, sqrt};
pub use pool::{
    deposit, initialize_pool, open_pool, swap_base_in, withdraw, AmmInfo, AssetId, DepositResult,
    PoolStatus, SwapDirection, WithdrawResult,
};
