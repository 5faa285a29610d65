//! Properties of the pool operations that relate several inputs or several calls,
//! stated over the models in `pool` and `math` and proved once for all inputs.
use vstd::prelude::*;

use crate::error::DexError;
use crate::math::{
    amount_out, amount_out_result, lemma_amount_out_below_reserve, lemma_div_bounds,
    lemma_floor_sqrt_props, lemma_share_of_reserve,
};
use crate::pool::{
    after_deposit, deposit_result, price_kept, steady_amounts, steady_mint, swap_reserves,
    swap_result, withdraw_result, AmmInfo, PoolStatus, SwapDirection, WithdrawResult,
};
use vstd::math::min;

verus! {

/// A swap never shrinks the constant product: for an accepted swap of
/// `amount_in > 0`, `(reserve_in + amount_in) * (reserve_out - amount_out)` is at
/// least `reserve_in * reserve_out`, and strictly larger whenever a fee is charged
/// (`fee_numerator < fee_denominator`).
pub proof fn lemma_swap_grows_product(
    amount_in: int,
    reserve_in: int,
    reserve_out: int,
    fee_numerator: int,
    fee_denominator: int,
)
    requires
        0 < amount_in,
        0 < reserve_in,
        0 < reserve_out,
        0 <= fee_numerator <= fee_denominator,
        0 < fee_denominator,
    ensures
        ({
            let out = amount_out(
                amount_in,
                reserve_in,
                reserve_out,
                fee_numerator,
                fee_denominator,
            );
            &&& reserve_in * reserve_out <= (reserve_in + amount_in) * (reserve_out - out)
            &&& fee_numerator < fee_denominator ==> reserve_in * reserve_out < (reserve_in
                + amount_in) * (reserve_out - out)
        }),
{
    let x = amount_in;
    let r = reserve_in;
    let big_r = reserve_out;
    let f = fee_numerator;
    let d = fee_denominator;
    let n = x * f * big_r;
    let dd = r * d + x * f;
    assert(0 <= n && 0 < dd) by (nonlinear_arith)
        requires
            0 < x,
            0 < r,
            0 < big_r,
            0 <= f,
            0 < d,
            n == x * f * big_r,
            dd == r * d + x * f,
    ;
    lemma_div_bounds(n, dd);
    let q = n / dd;
    let lhs = (r + x) * q;
    assert(lhs * dd <= (r + x) * n) by (nonlinear_arith)
        requires
            q * dd <= n,
            0 < r + x,
            lhs == (r + x) * q,
    ;
    let p = x * big_r;
    assert(n == p * f) by (nonlinear_arith)
        requires
            n == x * f * big_r,
            p == x * big_r,
    ;
    let slack = p * r * (d - f);
    assert((r + x) * n == r * (p * f) + x * (p * f)) by (nonlinear_arith)
        requires
            n == p * f,
    ;
    assert(slack == p * r * d - p * r * f) by (nonlinear_arith)
        requires
            slack == p * r * (d - f),
    ;
    assert(p * dd == p * r * d + p * x * f) by (nonlinear_arith)
        requires
            dd == r * d + x * f,
    ;
    assert(r * (p * f) == p * r * f && x * (p * f) == p * x * f) by (nonlinear_arith);
    assert((r + x) * n + slack == p * dd);
    assert(0 <= slack) by (nonlinear_arith)
        requires
            0 < x,
            0 < big_r,
            0 < r,
            f <= d,
            p == x * big_r,
            slack == p * r * (d - f),
    ;
    assert(lhs <= p) by (nonlinear_arith)
        requires
            lhs * dd <= p * dd,
            0 < dd,
    ;
    if f < d {
        assert(0 < slack) by (nonlinear_arith)
            requires
                0 < x,
                0 < big_r,
                0 < r,
                f < d,
                p == x * big_r,
                slack == p * r * (d - f),
        ;
        assert(lhs < p) by (nonlinear_arith)
            requires
                lhs * dd < p * dd,
                0 < dd,
        ;
    }
    assert((r + x) * (big_r - q) == r * big_r + x * big_r - lhs) by (nonlinear_arith)
        requires
            lhs == (r + x) * q,
    ;
}

/// Price gap of a deposit that takes side A exactly: `b` is `a` at the price
/// `rb / ra`, rounded down.
proof fn lemma_price_gap_side_a(ra: int, rb: int, a: int, b: int)
    requires
        0 < ra,
        0 < rb,
        0 <= a,
        b == a * rb / ra,
    ensures
        ({
            let cross = (ra + a) * rb - ra * (rb + b);
            &&& 0 <= cross < ra
            &&& 0 <= b
            &&& cross * min(ra, rb) < ra * (rb + b)
            &&& cross * min(ra + a, rb + b) < ra * (rb + b)
        }),
{
    assert(0 <= a * rb) by (nonlinear_arith)
        requires
            0 <= a,
            0 < rb,
    ;
    lemma_div_bounds(a * rb, ra);
    let cross = (ra + a) * rb - ra * (rb + b);
    assert(cross == a * rb - b * ra) by (nonlinear_arith)
        requires
            cross == (ra + a) * rb - ra * (rb + b),
    ;
    assert(b * ra <= a * rb < (b + 1) * ra);
    assert((b + 1) * ra == b * ra + ra) by (nonlinear_arith);
    let big_b = rb + b;
    assert forall|m: int| 0 <= m <= big_b implies #[trigger] (cross * m) < ra * big_b by {
        assert(cross * m < ra * big_b) by (nonlinear_arith)
            requires
                0 <= cross < ra,
                0 <= m <= big_b,
                0 < big_b,
        ;
    }
    assert(cross * min(ra, rb) < ra * big_b);
    assert(cross * min(ra + a, rb + b) < ra * big_b);
}

/// Price gap of a deposit that takes side B exactly: `a` is `b` at the price
/// `ra / rb`, rounded down.
proof fn lemma_price_gap_side_b(ra: int, rb: int, a: int, b: int)
    requires
        0 < ra,
        0 < rb,
        0 <= b,
        a == b * ra / rb,
    ensures
        ({
            let cross = (ra + a) * rb - ra * (rb + b);
            &&& -rb < cross <= 0
            &&& 0 <= a
            &&& (-cross) * min(ra, rb) < ra * (rb + b)
            &&& (-cross) * min(ra + a, rb + b) < ra * (rb + b)
        }),
{
    assert(0 <= b * ra) by (nonlinear_arith)
        requires
            0 <= b,
            0 < ra,
    ;
    lemma_div_bounds(b * ra, rb);
    let cross = (ra + a) * rb - ra * (rb + b);
    assert(cross == a * rb - b * ra) by (nonlinear_arith)
        requires
            cross == (ra + a) * rb - ra * (rb + b),
    ;
    assert((a + 1) * rb == a * rb + rb) by (nonlinear_arith);
    let gap = -cross;
    let big_a = ra + a;
    let big_b = rb + b;
    assert(rb * big_a <= ra * big_b) by (nonlinear_arith)
        requires
            cross == big_a * rb - ra * big_b,
            cross <= 0,
    ;
    assert forall|m: int| 0 <= m <= big_a implies #[trigger] (gap * m) < ra * big_b by {
        assert(gap * m < ra * big_b) by (nonlinear_arith)
            requires
                0 <= gap < rb,
                0 <= m <= big_a,
                0 < big_a,
                rb * big_a <= ra * big_b,
        {
            assert(gap * m <= gap * big_a);
            assert(gap * big_a < rb * big_a);
        }
    }
    assert(gap * min(ra, rb) < ra * big_b);
    assert(gap * min(ra + a, rb + b) < ra * big_b);
}

/// A deposit into a non-empty pool keeps its price: `reserve_a / reserve_b`
/// before and after differ by less than one part in the smaller reserve.
pub proof fn lemma_deposit_keeps_price(
    pool: AmmInfo,
    now: i64,
    max_amount_a: u64,
    max_amount_b: u64,
    base_side: u64,
)
    requires
        pool.wf(),
        !pool.is_empty(),
        deposit_result(pool, now, max_amount_a, max_amount_b, base_side) is Ok,
    ensures
        price_kept(
            pool,
            after_deposit(
                pool,
                deposit_result(pool, now, max_amount_a, max_amount_b, base_side)->Ok_0,
            ),
        ),
{
    let ra = pool.reserve_a as int;
    let rb = pool.reserve_b as int;
    let (a, b) = steady_amounts(pool, max_amount_a, max_amount_b, base_side);
    if base_side == 0 {
        lemma_price_gap_side_a(ra, rb, a, b);
    } else {
        lemma_price_gap_side_b(ra, rb, a, b);
    }
}

/// Redeeming `l` fresh shares of a supply that has grown from `s` to `s + l`
/// returns no more than the `a` deposited for them, when `l * r <= a * s` (the
/// shares were minted at most at the pool's rate `s / r`).
proof fn lemma_redeem_not_above_deposit(r: int, a: int, s: int, l: int)
    requires
        0 < r,
        0 <= a,
        0 <= s,
        0 < l,
        l * r <= a * s,
    ensures
        0 <= (r + a) * l / (s + l) <= a,
{
    let n = (r + a) * l;
    let d = s + l;
    assert(0 <= n && n <= a * d) by (nonlinear_arith)
        requires
            n == (r + a) * l,
            d == s + l,
            l * r <= a * s,
            0 < r,
            0 <= a,
            0 < l,
    ;
    lemma_div_bounds(n, d);
    let q = n / d;
    assert(q <= a) by (nonlinear_arith)
        requires
            q * d <= n,
            n <= a * d,
            0 < d,
    ;
}

/// Round trip: depositing and then at once redeeming exactly the minted shares
/// pays back no more of either asset than was deposited, and into an empty pool
/// exactly the deposit. The redemption is accepted whenever a share was minted.
pub proof fn lemma_deposit_withdraw_round_trip(
    pool: AmmInfo,
    now: i64,
    max_amount_a: u64,
    max_amount_b: u64,
    base_side: u64,
)
    requires
        pool.wf(),
        deposit_result(pool, now, max_amount_a, max_amount_b, base_side) is Ok,
    ensures
        ({
            let d = deposit_result(pool, now, max_amount_a, max_amount_b, base_side)->Ok_0;
            let w = withdraw_result(after_deposit(pool, d), d.lp_amount);
            &&& (w is Ok <==> 0 < d.lp_amount)
            &&& (w matches Ok(p) ==> p.amount_a <= d.amount_a && p.amount_b <= d.amount_b)
            &&& (pool.is_empty() ==> w == Ok::<WithdrawResult, DexError>(
                WithdrawResult { amount_a: d.amount_a, amount_b: d.amount_b },
            ))
        }),
{
    let d = deposit_result(pool, now, max_amount_a, max_amount_b, base_side)->Ok_0;
    let after = after_deposit(pool, d);
    let l = d.lp_amount as int;
    if pool.is_empty() {
        lemma_floor_sqrt_props((max_amount_a * max_amount_b) as nat);
        assert(1 <= max_amount_a * max_amount_b) by (nonlinear_arith)
            requires
                1 <= max_amount_a,
                1 <= max_amount_b,
        ;
        assert(max_amount_a * max_amount_b <= u128::MAX) by (nonlinear_arith)
            requires
                max_amount_a <= u64::MAX,
                max_amount_b <= u64::MAX,
        ;
        lemma_share_of_reserve(after.reserve_a as int, l, l);
        lemma_share_of_reserve(after.reserve_b as int, l, l);
    } else if 0 < l {
        let ra = pool.reserve_a as int;
        let rb = pool.reserve_b as int;
        let s = pool.lp_supply as int;
        let (a, b) = steady_amounts(pool, max_amount_a, max_amount_b, base_side);
        assert(0 <= a * s && 0 <= b * s) by (nonlinear_arith)
            requires
                0 <= a,
                0 <= b,
                0 <= s,
        ;
        lemma_div_bounds(a * s, ra);
        lemma_div_bounds(b * s, rb);
        assert(l == steady_mint(pool, a, b));
        assert(l * ra <= a * s) by (nonlinear_arith)
            requires
                l <= (a * s) / ra,
                ((a * s) / ra) * ra <= a * s,
                0 < ra,
        ;
        assert(l * rb <= b * s) by (nonlinear_arith)
            requires
                l <= (b * s) / rb,
                ((b * s) / rb) * rb <= b * s,
                0 < rb,
        ;
        lemma_redeem_not_above_deposit(ra, a, s, l);
        lemma_redeem_not_above_deposit(rb, b, s, l);
    }
}

/// Slippage: a swap whose minimum output is one unit above the formula's output
/// is refused with `SlippageExceeded`, while the formula's output itself as the
/// minimum is not refused for slippage. (A refused swap leaves the pool as it was:
/// see `swap_base_in`.)
pub proof fn lemma_swap_refuses_minimum_above_output(
    pool: AmmInfo,
    direction: SwapDirection,
    amount_in: u64,
)
    requires
        pool.wf(),
        pool.status == PoolStatus::Open,
        amount_out_result(
            amount_in,
            swap_reserves(pool, direction).0,
            swap_reserves(pool, direction).1,
            pool.fee_numerator,
            pool.fee_denominator,
        ) is Ok,
    ensures
        ({
            let out = amount_out_result(
                amount_in,
                swap_reserves(pool, direction).0,
                swap_reserves(pool, direction).1,
                pool.fee_numerator,
                pool.fee_denominator,
            )->Ok_0;
            &&& out < u64::MAX
            &&& swap_result(pool, direction, amount_in, (out + 1) as u64) == Err::<u64, DexError>(
                DexError::SlippageExceeded,
            )
            &&& swap_result(pool, direction, amount_in, out) != Err::<u64, DexError>(
                DexError::SlippageExceeded,
            )
        }),
{
    let (reserve_in, reserve_out) = swap_reserves(pool, direction);
    lemma_amount_out_below_reserve(
        amount_in as int,
        reserve_in as int,
        reserve_out as int,
        pool.fee_numerator as int,
        pool.fee_denominator as int,
    );
}

/// Fee monotonicity: with the same input, reserves and fee denominator, keeping
/// more of the input as fee (a smaller `fee_numerator`) never gives a larger output.
pub proof fn lemma_amount_out_monotonic_in_fee(
    amount_in: int,
    reserve_in: int,
    reserve_out: int,
    fee_low: int,
    fee_high: int,
    fee_denominator: int,
)
    requires
        0 <= amount_in,
        0 < reserve_in,
        0 <= reserve_out,
        0 <= fee_low <= fee_high,
        0 < fee_denominator,
    ensures
        amount_out(amount_in, reserve_in, reserve_out, fee_low, fee_denominator) <= amount_out(
            amount_in,
            reserve_in,
            reserve_out,
            fee_high,
            fee_denominator,
        ),
{
    let x = amount_in;
    let r = reserve_in;
    let big_r = reserve_out;
    let d = fee_denominator;
    let n1 = x * fee_low * big_r;
    let d1 = r * d + x * fee_low;
    let n2 = x * fee_high * big_r;
    let d2 = r * d + x * fee_high;
    assert(0 <= n1 && 0 < d1 && 0 <= n2 && 0 < d2) by (nonlinear_arith)
        requires
            0 <= x,
            0 < r,
            0 <= big_r,
            0 <= fee_low <= fee_high,
            0 < d,
            n1 == x * fee_low * big_r,
            d1 == r * d + x * fee_low,
            n2 == x * fee_high * big_r,
            d2 == r * d + x * fee_high,
    ;
    lemma_div_bounds(n1, d1);
    lemma_div_bounds(n2, d2);
    let q1 = n1 / d1;
    let q2 = n2 / d2;
    let p = x * big_r;
    assert(n1 == p * fee_low && n2 == p * fee_high) by (nonlinear_arith)
        requires
            n1 == x * fee_low * big_r,
            n2 == x * fee_high * big_r,
            p == x * big_r,
    ;
    let rd = r * d;
    assert(n1 * d2 == p * fee_low * rd + p * fee_low * x * fee_high) by (nonlinear_arith)
        requires
            n1 == p * fee_low,
            d2 == rd + x * fee_high,
    ;
    assert(n2 * d1 == p * fee_high * rd + p * fee_high * x * fee_low) by (nonlinear_arith)
        requires
            n2 == p * fee_high,
            d1 == rd + x * fee_low,
    ;
    assert(p * fee_low * x * fee_high == p * fee_high * x * fee_low) by (nonlinear_arith);
    assert(p * fee_low * rd <= p * fee_high * rd) by (nonlinear_arith)
        requires
            0 <= p,
            0 <= rd,
            fee_low <= fee_high,
    ;
    assert(0 <= p && 0 <= rd) by (nonlinear_arith)
        requires
            0 <= x,
            0 <= big_r,
            0 < r,
            0 < d,
            p == x * big_r,
            rd == r * d,
    ;
    assert(n1 * d2 <= n2 * d1);
    assert(q1 * d2 <= n2) by (nonlinear_arith)
        requires
            q1 * d1 <= n1,
            n1 * d2 <= n2 * d1,
            0 < d1,
            0 < d2,
            0 <= q1,
    {
        assert(q1 * d1 * d2 <= n1 * d2);
        assert(q1 * d2 * d1 <= n2 * d1);
    }
    assert(q1 <= q2) by (nonlinear_arith)
        requires
            q1 * d2 <= n2,
            n2 < (q2 + 1) * d2,
            0 < d2,
    ;
}

} // verus!
