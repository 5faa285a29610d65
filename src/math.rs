//! Pure arithmetic of the pool: the integer square root used to price the
//! first deposit, and the constant-product output formula used by swaps.
use vstd::arithmetic::div_mod::{lemma_fundamental_div_mod, lemma_mod_pos_bound};
use vstd::prelude::*;

use crate::error::DexError;

verus! {

/// `r` is the integer square root of `y`: the largest natural number whose
/// square does not exceed `y`.
pub open spec fn is_floor_sqrt(y: int, r: int) -> bool {
    &&& 0 <= r
    &&& r * r <= y
    &&& y < (r + 1) * (r + 1)
}

/// The integer square root `floor(sqrt(y))`.
pub open spec fn floor_sqrt(y: nat) -> nat {
    choose|r: nat| is_floor_sqrt(y as int, r as int)
}

/// Division facts in the form the nonlinear solver uses best:
/// `q * d <= n < (q + 1) * d` for `q == n / d`.
pub proof fn lemma_div_bounds(n: int, d: int)
    requires
        0 <= n,
        0 < d,
    ensures
        0 <= n / d,
        (n / d) * d <= n,
        n < (n / d + 1) * d,
{
    lemma_fundamental_div_mod(n, d);
    lemma_mod_pos_bound(n, d);
    assert((n / d) * d == d * (n / d)) by (nonlinear_arith);
    assert((n / d + 1) * d == (n / d) * d + d) by (nonlinear_arith);
    assert(0 <= n / d) by (nonlinear_arith)
        requires
            n == d * (n / d) + n % d,
            0 <= n % d < d,
            0 <= n,
    ;
}

/// A number can have only one integer square root.
pub proof fn lemma_floor_sqrt_unique(y: int, r1: int, r2: int)
    requires
        is_floor_sqrt(y, r1),
        is_floor_sqrt(y, r2),
    ensures
        r1 == r2,
{
    if r1 < r2 {
        assert((r1 + 1) * (r1 + 1) <= r2 * r2) by (nonlinear_arith)
            requires
                0 <= r1,
                r1 + 1 <= r2,
        ;
    } else if r2 < r1 {
        assert((r2 + 1) * (r2 + 1) <= r1 * r1) by (nonlinear_arith)
            requires
                0 <= r2,
                r2 + 1 <= r1,
        ;
    }
}

/// Any integer square root of `y` is the one that `floor_sqrt` names.
pub proof fn lemma_floor_sqrt_is(y: nat, r: nat)
    requires
        is_floor_sqrt(y as int, r as int),
    ensures
        floor_sqrt(y) == r,
{
    let c = floor_sqrt(y);
    assert(is_floor_sqrt(y as int, c as int));
    lemma_floor_sqrt_unique(y as int, r as int, c as int);
}

/// `reserve * part / whole` never exceeds `reserve` when `part <= whole`, and
/// stays below it when `part < whole` and the reserve is positive.
pub proof fn lemma_share_of_reserve(reserve: int, part: int, whole: int)
    requires
        0 <= reserve,
        0 < part <= whole,
    ensures
        0 <= reserve * part / whole <= reserve,
        part == whole ==> reserve * part / whole == reserve,
        part < whole && 0 < reserve ==> reserve * part / whole < reserve,
{
    let n = reserve * part;
    assert(0 <= n) by (nonlinear_arith)
        requires
            0 <= reserve,
            0 < part,
            n == reserve * part,
    ;
    lemma_div_bounds(n, whole);
    let q = n / whole;
    assert(q <= reserve) by (nonlinear_arith)
        requires
            q * whole <= n,
            n == reserve * part,
            0 < part <= whole,
            0 <= reserve,
    {
        if q > reserve {
            assert(q * whole >= (reserve + 1) * whole);
            assert(reserve * part <= reserve * whole);
        }
    }
    if part == whole {
        assert(q == reserve) by (nonlinear_arith)
            requires
                q * whole <= n,
                n < (q + 1) * whole,
                n == reserve * whole,
                0 < whole,
        {
            if q < reserve {
                assert((q + 1) * whole <= reserve * whole);
            }
        }
    }
    if part < whole && 0 < reserve {
        assert(q < reserve) by (nonlinear_arith)
            requires
                q * whole <= n,
                n == reserve * part,
                0 < part < whole,
                0 < reserve,
        {
            if q >= reserve {
                assert(q * whole >= reserve * whole);
                assert(reserve * part < reserve * whole);
            }
        }
    }
}

/// Every natural number has an integer square root, and `floor_sqrt` names it;
/// it is positive for positive numbers and fits in 64 bits for 128-bit numbers.
pub proof fn lemma_floor_sqrt_props(y: nat)
    ensures
        is_floor_sqrt(y as int, floor_sqrt(y) as int),
        1 <= y ==> 1 <= floor_sqrt(y),
        y <= u128::MAX ==> floor_sqrt(y) <= u64::MAX,
    decreases y,
{
    if y == 0 {
        assert(is_floor_sqrt(0, 0)) by (nonlinear_arith);
        lemma_floor_sqrt_is(y, 0);
    } else {
        lemma_floor_sqrt_props((y - 1) as nat);
        let r0 = floor_sqrt((y - 1) as nat);
        if (r0 + 1) * (r0 + 1) <= y {
            assert(y < (r0 + 2) * (r0 + 2)) by (nonlinear_arith)
                requires
                    y - 1 < (r0 + 1) * (r0 + 1),
                    0 <= r0,
            ;
            let w: nat = (r0 + 1) as nat;
            assert(w + 1 == r0 + 2);
            assert(is_floor_sqrt(y as int, w as int));
            lemma_floor_sqrt_is(y, w);
        } else {
            assert(is_floor_sqrt(y as int, r0 as int));
            lemma_floor_sqrt_is(y, r0);
        }
    }
    let r = floor_sqrt(y);
    if 1 <= y && r == 0 {
        assert((r + 1) * (r + 1) == 1) by (nonlinear_arith)
            requires
                r == 0,
        ;
    }
    if y <= u128::MAX {
        assert(r <= u64::MAX) by (nonlinear_arith)
            requires
                r * r <= y,
                y <= u128::MAX,
                0 <= r,
        ;
    }
}

/// One Newton step `(y / x + x) / 2` never drops below a number whose square
/// is at most `y`.
proof fn lemma_newton_step_above(y: int, x: int, s: int)
    requires
        0 <= s,
        s * s <= y,
        0 < x,
    ensures
        s <= (y / x + x) / 2,
{
    let q = y / x;
    lemma_div_bounds(y, x);
    if q + x < 2 * s {
        assert(false) by (nonlinear_arith)
            requires
                0 < x,
                0 <= q,
                q + x + 1 <= 2 * s,
                y < (q + 1) * x,
                s * s <= y,
        {
            assert((q + 1) * x <= (2 * s - x) * x);
            assert((2 * s - x) * x + (s - x) * (s - x) == s * s);
        }
    }
}

/// After a Newton step the new estimate is still no smaller than the root.
proof fn lemma_newton_step_not_below_root(y: int, x: int)
    requires
        0 <= y,
        0 < x,
    ensures
        y < ((y / x + x) / 2 + 1) * ((y / x + x) / 2 + 1),
{
    let t = (y / x + x) / 2;
    if (t + 1) * (t + 1) <= y {
        lemma_newton_step_above(y, x, t + 1);
    }
}

/// When a Newton step does not decrease the estimate `z`, then `z * z <= y`.
proof fn lemma_newton_fixpoint(y: int, z: int)
    requires
        0 <= y,
        0 < z,
        z <= (y / z + z) / 2,
    ensures
        z * z <= y,
{
    let q = y / z;
    lemma_div_bounds(y, z);
    assert(z <= q);
    assert(z * z <= y) by (nonlinear_arith)
        requires
            0 < z,
            z <= q,
            q * z <= y,
    ;
}

/// `(a + b) / 2` computed without forming `a + b`.
fn half_sum(a: u128, b: u128) -> (r: u128)
    ensures
        r == (a + b) / 2,
{
    a / 2 + b / 2 + (a % 2 + b % 2) / 2
}

/// Integer square root, `floor(sqrt(y))`, by Newton's iteration.
pub fn sqrt(y: u128) -> (r: u64)
    ensures
        is_floor_sqrt(y as int, r as int),
        r == floor_sqrt(y as nat),
{
    if y < 4 {
        let r: u64 = if y == 0 {
            0
        } else {
            1
        };
        proof {
            lemma_floor_sqrt_is(y as nat, r as nat);
        }
        return r;
    }
    let mut z: u128 = y;
    let mut x: u128 = y / 2 + 1;
    assert(y < (x + 1) * (x + 1)) by (nonlinear_arith)
        requires
            x == y / 2 + 1,
            4 <= y,
    ;
    assert(y < (z + 1) * (z + 1)) by (nonlinear_arith)
        requires
            z == y,
            4 <= y,
    ;
    while x < z
        invariant
            4 <= y,
            0 < x,
            0 < z <= y,
            y < (x + 1) * (x + 1),
            y < (z + 1) * (z + 1),
            (z == y && x == y / 2 + 1) || x == (y / z + z) / 2,
        decreases z,
    {
        z = x;
        x = half_sum(y / z, z);
        proof {
            lemma_newton_step_not_below_root(y as int, z as int);
            lemma_newton_step_above(y as int, z as int, 1);
        }
    }
    proof {
        lemma_newton_fixpoint(y as int, z as int);
        assert(z < 0x1_0000_0000_0000_0000) by (nonlinear_arith)
            requires
                z * z <= y,
                y < 0x1_0000_0000_0000_0000_0000_0000_0000_0000,
                0 < z,
        ;
        lemma_floor_sqrt_is(y as nat, z as nat);
    }
    z as u64
}

/// The product of two 64-bit numbers, which always fits in 128 bits.
pub fn wide_mul(a: u64, b: u64) -> (r: u128)
    ensures
        r == a * b,
{
    assert(a * b <= u128::MAX) by (nonlinear_arith)
        requires
            a <= u64::MAX,
            b <= u64::MAX,
    ;
    (a as u128) * (b as u128)
}

/// Output of a constant-product swap: `amount_in` enters a pool holding
/// `reserve_in` / `reserve_out`, and the fraction `fee_numerator / fee_denominator`
/// of the input takes part in the trade.
pub open spec fn amount_out(
    amount_in: int,
    reserve_in: int,
    reserve_out: int,
    fee_numerator: int,
    fee_denominator: int,
) -> int {
    (amount_in * fee_numerator * reserve_out) / (reserve_in * fee_denominator + amount_in
        * fee_numerator)
}

/// The numerator or the denominator of the swap formula exceeds 128 bits.
pub open spec fn amount_out_overflows(
    amount_in: int,
    reserve_in: int,
    reserve_out: int,
    fee_numerator: int,
    fee_denominator: int,
) -> bool {
    ||| amount_in * fee_numerator * reserve_out > u128::MAX
    ||| reserve_in * fee_denominator + amount_in * fee_numerator > u128::MAX
}

/// What `calculate_amount_out` returns.
pub open spec fn amount_out_result(
    amount_in: u64,
    reserve_in: u64,
    reserve_out: u64,
    fee_numerator: u64,
    fee_denominator: u64,
) -> Result<u64, DexError> {
    if amount_in == 0 {
        Err(DexError::InvalidAmount)
    } else if reserve_in == 0 || reserve_out == 0 {
        Err(DexError::InsufficientLiquidity)
    } else if amount_out_overflows(
        amount_in as int,
        reserve_in as int,
        reserve_out as int,
        fee_numerator as int,
        fee_denominator as int,
    ) {
        Err(DexError::Overflow)
    } else {
        Ok(
            amount_out(
                amount_in as int,
                reserve_in as int,
                reserve_out as int,
                fee_numerator as int,
                fee_denominator as int,
            ) as u64,
        )
    }
}

/// A swap never pays out the whole output reserve.
pub proof fn lemma_amount_out_below_reserve(
    amount_in: int,
    reserve_in: int,
    reserve_out: int,
    fee_numerator: int,
    fee_denominator: int,
)
    requires
        0 <= amount_in,
        0 < reserve_in,
        0 < reserve_out,
        0 <= fee_numerator,
        0 < fee_denominator,
    ensures
        0 < reserve_in * fee_denominator + amount_in * fee_numerator,
        0 <= amount_out(amount_in, reserve_in, reserve_out, fee_numerator, fee_denominator)
            < reserve_out,
{
    let n = amount_in * fee_numerator * reserve_out;
    let d = reserve_in * fee_denominator + amount_in * fee_numerator;
    assert(0 <= n && 0 < reserve_in * fee_denominator && 0 <= amount_in * fee_numerator && 0 < d)
        by (nonlinear_arith)
        requires
            0 <= amount_in,
            0 < reserve_in,
            0 < reserve_out,
            0 <= fee_numerator,
            0 < fee_denominator,
            n == amount_in * fee_numerator * reserve_out,
            d == reserve_in * fee_denominator + amount_in * fee_numerator,
    ;
    lemma_div_bounds(n, d);
    let q = n / d;
    assert(q < reserve_out) by (nonlinear_arith)
        requires
            q * d <= n,
            n == amount_in * fee_numerator * reserve_out,
            d == reserve_in * fee_denominator + amount_in * fee_numerator,
            0 < reserve_in * fee_denominator,
            0 < d,
            0 < reserve_out,
            0 <= q,
    {
        if q >= reserve_out {
            assert(reserve_out * d <= q * d);
            assert(reserve_out * d == reserve_out * (reserve_in * fee_denominator) + n);
            assert(reserve_out * (reserve_in * fee_denominator) > 0);
        }
    }
}

/// Output amount of a swap of `amount_in` against `reserve_in` / `reserve_out`,
/// with the fee taken from the input side.
pub fn calculate_amount_out(
    amount_in: u64,
    reserve_in: u64,
    reserve_out: u64,
    fee_numerator: u64,
    fee_denominator: u64,
) -> (r: Result<u64, DexError>)
    requires
        0 < fee_denominator,
        fee_numerator <= fee_denominator,
    ensures
        r == amount_out_result(amount_in, reserve_in, reserve_out, fee_numerator, fee_denominator),
        r matches Ok(out) ==> out < reserve_out,
{
    if amount_in == 0 {
        return Err(DexError::InvalidAmount);
    }
    if reserve_in == 0 || reserve_out == 0 {
        return Err(DexError::InsufficientLiquidity);
    }
    let amount_in_with_fee = wide_mul(amount_in, fee_numerator);
    let numerator = match amount_in_with_fee.checked_mul(reserve_out as u128) {
        Some(n) => n,
        None => return Err(DexError::Overflow),
    };
    let denominator = match wide_mul(reserve_in, fee_denominator).checked_add(amount_in_with_fee) {
        Some(d) => d,
        None => return Err(DexError::Overflow),
    };
    proof {
        lemma_amount_out_below_reserve(
            amount_in as int,
            reserve_in as int,
            reserve_out as int,
            fee_numerator as int,
            fee_denominator as int,
        );
    }
    Ok((numerator / denominator) as u64)
}

} // verus!
