//! The pool record and the four operations on it: initialize, deposit, swap and
//! withdraw. Each operation validates, computes, and then commits the new reserve
//! and supply figures; a refused operation leaves the record untouched. Moving the
//! funds themselves is the caller's part: the returned amounts say what to move.
use vstd::prelude::*;

use crate::error::DexError;
use crate::laws::{lemma_deposit_keeps_price, lemma_swap_grows_product};
use crate::math::{
    amount_out_result, calculate_amount_out, floor_sqrt, lemma_amount_out_below_reserve,
    lemma_share_of_reserve, sqrt, wide_mul,
};
use vstd::math::min;

verus! {

/// Identity of an asset (a token mint), as its 32-byte address.
#[derive(Clone, Copy, Debug, PartialEq, Eq)]
pub struct AssetId {
    pub bytes: [u8; 32],
}

impl AssetId {
    /// Whether two identities are the same address.
    pub fn same_as(&self, other: &AssetId) -> (r: bool)
        ensures
            r == (self.bytes@ == other.bytes@),
    {
        let mut i: usize = 0;
        while i < 32
            invariant
                0 <= i <= 32,
                self.bytes@.len() == 32,
                other.bytes@.len() == 32,
                forall|j: int| 0 <= j < i ==> self.bytes@[j] == other.bytes@[j],
            decreases 32 - i,
        {
            if self.bytes[i] != other.bytes[i] {
                return false;
            }
            i = i + 1;
        }
        assert(self.bytes@ =~= other.bytes@);
        true
    }
}

/// Lifecycle of a pool: created with its accounts, then opened for trading.
#[derive(Clone, Copy, Debug, PartialEq, Eq, Structural)]
pub enum PoolStatus {
    Created,
    Open,
}

/// Which way a swap goes.
#[derive(Clone, Copy, Debug, PartialEq, Eq, Structural)]
pub enum SwapDirection {
    /// Asset A in, asset B out.
    AToB,
    /// Asset B in, asset A out.
    BToA,
}

/// The record of one two-asset pool.
#[derive(Clone, Copy, Debug, PartialEq, Eq)]
pub struct AmmInfo {
    pub status: PoolStatus,
    /// Asset A of the pair.
    pub mint_a: AssetId,
    /// Asset B of the pair.
    pub mint_b: AssetId,
    /// The liquidity-share token.
    pub lp_mint: AssetId,
    /// Deposits are refused before this time.
    pub open_time: u64,
    /// Fraction of a swap's input that takes part in the trade; the rest is the fee.
    pub fee_numerator: u64,
    pub fee_denominator: u64,
    /// The pool's holdings of asset A.
    pub reserve_a: u64,
    /// The pool's holdings of asset B.
    pub reserve_b: u64,
    /// Outstanding liquidity shares.
    pub lp_supply: u64,
}

/// What a deposit charges the depositor and mints to them.
#[derive(Clone, Copy, Debug, PartialEq, Eq, Structural)]
pub struct DepositResult {
    pub amount_a: u64,
    pub amount_b: u64,
    pub lp_amount: u64,
}

/// What a withdrawal pays out for the burnt shares.
#[derive(Clone, Copy, Debug, PartialEq, Eq, Structural)]
pub struct WithdrawResult {
    pub amount_a: u64,
    pub amount_b: u64,
}

impl AmmInfo {
    /// The pool's invariant: a sound fee fraction, two distinct assets, and either
    /// the empty bootstrap state or both reserves and the supply positive.
    pub open spec fn wf(&self) -> bool {
        &&& 0 < self.fee_denominator
        &&& self.fee_numerator <= self.fee_denominator
        &&& self.mint_a.bytes@ != self.mint_b.bytes@
        &&& (self.reserve_a == 0) == (self.reserve_b == 0)
        &&& (self.lp_supply == 0) == (self.reserve_a == 0)
    }

    /// Nothing has been deposited yet (or everything has been withdrawn).
    pub open spec fn is_empty(&self) -> bool {
        self.reserve_a == 0 && self.reserve_b == 0
    }

    /// Checks the invariant, for records that come from storage.
    pub fn is_well_formed(&self) -> (r: bool)
        ensures
            r == self.wf(),
    {
        0 < self.fee_denominator && self.fee_numerator <= self.fee_denominator
            && !self.mint_a.same_as(&self.mint_b) && (self.reserve_a == 0) == (self.reserve_b
            == 0) && (self.lp_supply == 0) == (self.reserve_a == 0)
    }
}

// ---------------------------------------------------------------------------
// Initialize

/// What `initialize_pool` returns.
pub open spec fn initialize_result(
    mint_a: AssetId,
    mint_b: AssetId,
    lp_mint: AssetId,
    fee_numerator: u64,
    fee_denominator: u64,
    open_time: u64,
) -> Result<AmmInfo, DexError> {
    if fee_denominator == 0 || fee_numerator > fee_denominator || mint_a.bytes@ == mint_b.bytes@ {
        Err(DexError::InvalidConfiguration)
    } else {
        Ok(
            AmmInfo {
                status: PoolStatus::Created,
                mint_a,
                mint_b,
                lp_mint,
                open_time,
                fee_numerator,
                fee_denominator,
                reserve_a: 0,
                reserve_b: 0,
                lp_supply: 0,
            },
        )
    }
}

/// Creates the record of a new, empty pool for the pair `mint_a` / `mint_b`.
pub fn initialize_pool(
    mint_a: AssetId,
    mint_b: AssetId,
    lp_mint: AssetId,
    fee_numerator: u64,
    fee_denominator: u64,
    open_time: u64,
) -> (r: Result<AmmInfo, DexError>)
    ensures
        r == initialize_result(mint_a, mint_b, lp_mint, fee_numerator, fee_denominator, open_time),
        r matches Ok(pool) ==> pool.wf(),
{
    if fee_denominator == 0 || fee_numerator > fee_denominator || mint_a.same_as(&mint_b) {
        return Err(DexError::InvalidConfiguration);
    }
    Ok(
        AmmInfo {
            status: PoolStatus::Created,
            mint_a,
            mint_b,
            lp_mint,
            open_time,
            fee_numerator,
            fee_denominator,
            reserve_a: 0,
            reserve_b: 0,
            lp_supply: 0,
        },
    )
}

/// Opens the pool for trading: swaps are refused until then.
pub fn open_pool(pool: &mut AmmInfo)
    ensures
        *final(pool) == (AmmInfo { status: PoolStatus::Open, ..*old(pool) }),
{
    pool.status = PoolStatus::Open;
}

// ---------------------------------------------------------------------------
// Withdraw

/// What `withdraw` returns: each reserve's share of `lp_amount` out of the
/// supply, rounded down.
pub open spec fn withdraw_result(pool: AmmInfo, lp_amount: u64) -> Result<WithdrawResult, DexError> {
    if pool.lp_supply == 0 {
        Err(DexError::NoLiquidity)
    } else if lp_amount == 0 || lp_amount > pool.lp_supply {
        Err(DexError::InvalidAmount)
    } else {
        Ok(
            WithdrawResult {
                amount_a: (pool.reserve_a * lp_amount / (pool.lp_supply as int)) as u64,
                amount_b: (pool.reserve_b * lp_amount / (pool.lp_supply as int)) as u64,
            },
        )
    }
}

/// The record after a withdrawal of `lp_amount` shares that paid out `w`.
pub open spec fn after_withdraw(pool: AmmInfo, lp_amount: u64, w: WithdrawResult) -> AmmInfo {
    AmmInfo {
        reserve_a: (pool.reserve_a - w.amount_a) as u64,
        reserve_b: (pool.reserve_b - w.amount_b) as u64,
        lp_supply: (pool.lp_supply - lp_amount) as u64,
        ..pool
    }
}

/// Redeems `lp_amount` liquidity shares for the matching part of both reserves.
pub fn withdraw(pool: &mut AmmInfo, lp_amount: u64) -> (r: Result<WithdrawResult, DexError>)
    requires
        old(pool).wf(),
    ensures
        r == withdraw_result(*old(pool), lp_amount),
        final(pool).wf(),
        r matches Ok(w) ==> *final(pool) == after_withdraw(*old(pool), lp_amount, w),
        r is Err ==> *final(pool) == *old(pool),
        old(pool).lp_supply == 0 ==> r == Err::<WithdrawResult, DexError>(DexError::NoLiquidity),
{
    let supply = pool.lp_supply;
    if supply == 0 {
        return Err(DexError::NoLiquidity);
    }
    if lp_amount == 0 || lp_amount > supply {
        return Err(DexError::InvalidAmount);
    }
    let amount_a = wide_mul(pool.reserve_a, lp_amount) / (supply as u128);
    let amount_b = wide_mul(pool.reserve_b, lp_amount) / (supply as u128);
    proof {
        lemma_share_of_reserve(pool.reserve_a as int, lp_amount as int, supply as int);
        lemma_share_of_reserve(pool.reserve_b as int, lp_amount as int, supply as int);
    }
    let w = WithdrawResult { amount_a: amount_a as u64, amount_b: amount_b as u64 };
    pool.reserve_a = pool.reserve_a - w.amount_a;
    pool.reserve_b = pool.reserve_b - w.amount_b;
    pool.lp_supply = supply - lp_amount;
    Ok(w)
}

// ---------------------------------------------------------------------------
// Deposit

/// Amounts a deposit into a non-empty pool charges: the preferred side's maximum
/// exactly (side A when `base_side == 0`, side B otherwise), and the other side
/// at the pool's current price, rounded down.
pub open spec fn steady_amounts(
    pool: AmmInfo,
    max_amount_a: u64,
    max_amount_b: u64,
    base_side: u64,
) -> (int, int) {
    if base_side == 0 {
        (max_amount_a as int, max_amount_a * pool.reserve_b / (pool.reserve_a as int))
    } else {
        (max_amount_b * pool.reserve_a / (pool.reserve_b as int), max_amount_b as int)
    }
}

/// Shares minted for a deposit of `a` and `b` into a non-empty pool: the smaller
/// of the two proportional claims.
pub open spec fn steady_mint(pool: AmmInfo, a: int, b: int) -> int {
    min(
        a * pool.lp_supply / (pool.reserve_a as int),
        b * pool.lp_supply / (pool.reserve_b as int),
    )
}

/// What `deposit` returns.
pub open spec fn deposit_result(
    pool: AmmInfo,
    now: i64,
    max_amount_a: u64,
    max_amount_b: u64,
    base_side: u64,
) -> Result<DepositResult, DexError> {
    if now < pool.open_time {
        Err(DexError::PoolNotOpen)
    } else if pool.is_empty() {
        if max_amount_a == 0 || max_amount_b == 0 {
            Err(DexError::InvalidAmount)
        } else {
            Ok(
                DepositResult {
                    amount_a: max_amount_a,
                    amount_b: max_amount_b,
                    lp_amount: floor_sqrt((max_amount_a * max_amount_b) as nat) as u64,
                },
            )
        }
    } else {
        let (a, b) = steady_amounts(pool, max_amount_a, max_amount_b, base_side);
        let lp = steady_mint(pool, a, b);
        if a > max_amount_a || b > max_amount_b {
            Err(DexError::SlippageExceeded)
        } else if lp > u64::MAX || pool.reserve_a + a > u64::MAX || pool.reserve_b + b
            > u64::MAX || pool.lp_supply + lp > u64::MAX {
            Err(DexError::Overflow)
        } else {
            Ok(DepositResult { amount_a: a as u64, amount_b: b as u64, lp_amount: lp as u64 })
        }
    }
}

/// The record after deposit `d`.
pub open spec fn after_deposit(pool: AmmInfo, d: DepositResult) -> AmmInfo {
    AmmInfo {
        reserve_a: (pool.reserve_a + d.amount_a) as u64,
        reserve_b: (pool.reserve_b + d.amount_b) as u64,
        lp_supply: (pool.lp_supply + d.lp_amount) as u64,
        ..pool
    }
}

/// The price `reserve_a / reserve_b` of `after` differs from that of `before` by
/// less than one part in the smaller reserve, of `before` and of `after` alike.
/// (The relative gap of the two prices is `gap / (before.reserve_a * after.reserve_b)`.)
pub open spec fn price_kept(before: AmmInfo, after: AmmInfo) -> bool {
    let cross = after.reserve_a * before.reserve_b - before.reserve_a * after.reserve_b;
    let gap = if cross >= 0 {
        cross
    } else {
        -cross
    };
    &&& gap * min(before.reserve_a as int, before.reserve_b as int) < before.reserve_a
        * after.reserve_b
    &&& gap * min(after.reserve_a as int, after.reserve_b as int) < before.reserve_a
        * after.reserve_b
}

/// Adds liquidity. Into an empty pool both maxima are deposited and
/// `floor(sqrt(a * b))` shares are minted; otherwise the side chosen by
/// `base_side` (0 for A, anything else for B) is deposited exactly, the other at
/// the pool's price, and the smaller proportional claim is minted.
pub fn deposit(
    pool: &mut AmmInfo,
    now: i64,
    max_amount_a: u64,
    max_amount_b: u64,
    base_side: u64,
) -> (r: Result<DepositResult, DexError>)
    requires
        old(pool).wf(),
    ensures
        r == deposit_result(*old(pool), now, max_amount_a, max_amount_b, base_side),
        final(pool).wf(),
        r matches Ok(d) ==> *final(pool) == after_deposit(*old(pool), d),
        r is Err ==> *final(pool) == *old(pool),
        r is Ok && !old(pool).is_empty() ==> price_kept(*old(pool), *final(pool)),
{
    if now < 0 || (now as u64) < pool.open_time {
        return Err(DexError::PoolNotOpen);
    }
    let reserve_a = pool.reserve_a;
    let reserve_b = pool.reserve_b;
    let supply = pool.lp_supply;
    let d = if reserve_a == 0 && reserve_b == 0 {
        if max_amount_a == 0 || max_amount_b == 0 {
            return Err(DexError::InvalidAmount);
        }
        let lp_amount = sqrt(wide_mul(max_amount_a, max_amount_b));
        proof {
            assert(1 <= max_amount_a * max_amount_b) by (nonlinear_arith)
                requires
                    1 <= max_amount_a,
                    1 <= max_amount_b,
            ;
            assert(0 < lp_amount) by (nonlinear_arith)
                requires
                    max_amount_a * max_amount_b < (lp_amount + 1) * (lp_amount + 1),
                    1 <= max_amount_a * max_amount_b,
                    0 <= lp_amount,
            ;
        }
        DepositResult { amount_a: max_amount_a, amount_b: max_amount_b, lp_amount }
    } else {
        let (a, b): (u128, u128) = if base_side == 0 {
            (max_amount_a as u128, wide_mul(max_amount_a, reserve_b) / (reserve_a as u128))
        } else {
            (wide_mul(max_amount_b, reserve_a) / (reserve_b as u128), max_amount_b as u128)
        };
        if a > max_amount_a as u128 || b > max_amount_b as u128 {
            return Err(DexError::SlippageExceeded);
        }
        let a: u64 = a as u64;
        let b: u64 = b as u64;
        let by_a = wide_mul(a, supply) / (reserve_a as u128);
        let by_b = wide_mul(b, supply) / (reserve_b as u128);
        let lp = if by_a <= by_b {
            by_a
        } else {
            by_b
        };
        if lp > u64::MAX as u128 {
            return Err(DexError::Overflow);
        }
        DepositResult { amount_a: a, amount_b: b, lp_amount: lp as u64 }
    };
    let new_a = match reserve_a.checked_add(d.amount_a) {
        Some(v) => v,
        None => return Err(DexError::Overflow),
    };
    let new_b = match reserve_b.checked_add(d.amount_b) {
        Some(v) => v,
        None => return Err(DexError::Overflow),
    };
    let new_supply = match supply.checked_add(d.lp_amount) {
        Some(v) => v,
        None => return Err(DexError::Overflow),
    };
    proof {
        if !old(pool).is_empty() {
            lemma_deposit_keeps_price(*old(pool), now, max_amount_a, max_amount_b, base_side);
        }
    }
    pool.reserve_a = new_a;
    pool.reserve_b = new_b;
    pool.lp_supply = new_supply;
    Ok(d)
}

// ---------------------------------------------------------------------------
// Swap

/// The reserves a swap in `direction` trades against, as (input, output).
pub open spec fn swap_reserves(pool: AmmInfo, direction: SwapDirection) -> (u64, u64) {
    match direction {
        SwapDirection::AToB => (pool.reserve_a, pool.reserve_b),
        SwapDirection::BToA => (pool.reserve_b, pool.reserve_a),
    }
}

/// What `swap_base_in` returns.
pub open spec fn swap_result(
    pool: AmmInfo,
    direction: SwapDirection,
    amount_in: u64,
    minimum_amount_out: u64,
) -> Result<u64, DexError> {
    let (reserve_in, reserve_out) = swap_reserves(pool, direction);
    if pool.status != PoolStatus::Open {
        Err(DexError::PoolNotReady)
    } else if amount_in == 0 {
        Err(DexError::InvalidAmount)
    } else if reserve_in == 0 || reserve_out == 0 {
        Err(DexError::InsufficientLiquidity)
    } else {
        match amount_out_result(
            amount_in,
            reserve_in,
            reserve_out,
            pool.fee_numerator,
            pool.fee_denominator,
        ) {
            Err(e) => Err(e),
            Ok(out) => {
                if out < minimum_amount_out {
                    Err(DexError::SlippageExceeded)
                } else if reserve_in + amount_in > u64::MAX {
                    Err(DexError::Overflow)
                } else {
                    Ok(out)
                }
            },
        }
    }
}

/// The record after a swap in `direction` of `amount_in` for `amount_out`.
pub open spec fn after_swap(
    pool: AmmInfo,
    direction: SwapDirection,
    amount_in: u64,
    amount_out: u64,
) -> AmmInfo {
    match direction {
        SwapDirection::AToB => AmmInfo {
            reserve_a: (pool.reserve_a + amount_in) as u64,
            reserve_b: (pool.reserve_b - amount_out) as u64,
            ..pool
        },
        SwapDirection::BToA => AmmInfo {
            reserve_a: (pool.reserve_a - amount_out) as u64,
            reserve_b: (pool.reserve_b + amount_in) as u64,
            ..pool
        },
    }
}

/// Swaps exactly `amount_in` of one asset for the other, refusing an output
/// below `minimum_amount_out`; returns the output amount.
pub fn swap_base_in(
    pool: &mut AmmInfo,
    direction: SwapDirection,
    amount_in: u64,
    minimum_amount_out: u64,
) -> (r: Result<u64, DexError>)
    requires
        old(pool).wf(),
    ensures
        r == swap_result(*old(pool), direction, amount_in, minimum_amount_out),
        final(pool).wf(),
        r matches Ok(out) ==> *final(pool) == after_swap(*old(pool), direction, amount_in, out),
        r is Err ==> *final(pool) == *old(pool),
        r is Ok ==> old(pool).reserve_a * old(pool).reserve_b <= final(pool).reserve_a
            * final(pool).reserve_b,
        r is Ok && old(pool).fee_numerator < old(pool).fee_denominator ==> old(pool).reserve_a
            * old(pool).reserve_b < final(pool).reserve_a * final(pool).reserve_b,
{
    if pool.status != PoolStatus::Open {
        return Err(DexError::PoolNotReady);
    }
    if amount_in == 0 {
        return Err(DexError::InvalidAmount);
    }
    let (reserve_in, reserve_out) = match direction {
        SwapDirection::AToB => (pool.reserve_a, pool.reserve_b),
        SwapDirection::BToA => (pool.reserve_b, pool.reserve_a),
    };
    if reserve_in == 0 || reserve_out == 0 {
        return Err(DexError::InsufficientLiquidity);
    }
    let amount_out = match calculate_amount_out(
        amount_in,
        reserve_in,
        reserve_out,
        pool.fee_numerator,
        pool.fee_denominator,
    ) {
        Ok(out) => out,
        Err(e) => return Err(e),
    };
    if amount_out < minimum_amount_out {
        return Err(DexError::SlippageExceeded);
    }
    let new_in = match reserve_in.checked_add(amount_in) {
        Some(v) => v,
        None => return Err(DexError::Overflow),
    };
    let new_out = reserve_out - amount_out;
    proof {
        lemma_amount_out_below_reserve(
            amount_in as int,
            reserve_in as int,
            reserve_out as int,
            pool.fee_numerator as int,
            pool.fee_denominator as int,
        );
        lemma_swap_grows_product(
            amount_in as int,
            reserve_in as int,
            reserve_out as int,
            pool.fee_numerator as int,
            pool.fee_denominator as int,
        );
        assert(new_in * new_out == new_out * new_in) by (nonlinear_arith);
        assert(reserve_in * reserve_out == reserve_out * reserve_in) by (nonlinear_arith);
    }
    match direction {
        SwapDirection::AToB => {
            pool.reserve_a = new_in;
            pool.reserve_b = new_out;
        },
        SwapDirection::BToA => {
            pool.reserve_b = new_in;
            pool.reserve_a = new_out;
        },
    }
    Ok(amount_out)
}

} // verus!
