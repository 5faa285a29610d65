//! Why an operation on a pool was refused.
use vstd::prelude::*;

verus! {

/// The typed failures of the pool operations. Every failure is detected before
/// any effect: a refused operation leaves the pool record as it was.
#[derive(Clone, Copy, Debug, PartialEq, Eq, Structural)]
pub enum DexError {
    /// Degenerate fee fraction, or both assets of the pair are the same.
    InvalidConfiguration,
    /// A zero amount, or more shares than exist.
    InvalidAmount,
    /// A computed amount violates the bound the caller declared.
    SlippageExceeded,
    /// A swap against an empty reserve.
    InsufficientLiquidity,
    /// A swap before the pool was opened for trading.
    PoolNotReady,
    /// A deposit before the pool's open time.
    PoolNotOpen,
    /// A withdrawal from a pool without outstanding shares.
    NoLiquidity,
    /// A result or intermediate product does not fit its integer width.
    Overflow,
}

} // verus!
