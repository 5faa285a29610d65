use ammv2::{
    deposit, initialize_pool, open_pool, swap_base_in, withdraw, AmmInfo, AssetId, DepositResult,
    DexError, PoolStatus, SwapDirection, WithdrawResult,
};

fn asset(tag: u8) -> AssetId {
    AssetId { bytes: [tag; 32] }
}

fn fresh_pool() -> AmmInfo {
    initialize_pool(asset(1), asset(2), asset(3), 9975, 10000, 50).unwrap()
}

/// A pool holding 100 A, 400 B and 200 shares, open for trading.
fn funded_pool() -> AmmInfo {
    let mut pool = fresh_pool();
    deposit(&mut pool, 100, 100, 400, 0).unwrap();
    open_pool(&mut pool);
    pool
}

#[test]
fn initialize_sets_empty_record() {
    let pool = fresh_pool();
    assert_eq!(pool.status, PoolStatus::Created);
    assert_eq!(pool.reserve_a, 0);
    assert_eq!(pool.reserve_b, 0);
    assert_eq!(pool.lp_supply, 0);
    assert_eq!(pool.fee_numerator, 9975);
    assert_eq!(pool.fee_denominator, 10000);
    assert_eq!(pool.open_time, 50);
    assert_eq!(pool.mint_a, asset(1));
    assert_eq!(pool.mint_b, asset(2));
    assert_eq!(pool.lp_mint, asset(3));
    assert!(pool.is_well_formed());
}

#[test]
fn initialize_rejects_degenerate_configuration() {
    assert_eq!(
        initialize_pool(asset(1), asset(2), asset(3), 1, 0, 0),
        Err(DexError::InvalidConfiguration)
    );
    assert_eq!(
        initialize_pool(asset(1), asset(2), asset(3), 10001, 10000, 0),
        Err(DexError::InvalidConfiguration)
    );
    assert_eq!(
        initialize_pool(asset(7), asset(7), asset(3), 9975, 10000, 0),
        Err(DexError::InvalidConfiguration)
    );
    assert!(initialize_pool(asset(1), asset(2), asset(3), 10000, 10000, 0).is_ok());
    assert!(initialize_pool(asset(1), asset(2), asset(3), 0, 10000, 0).is_ok());
}

#[test]
fn asset_identity_compares_every_byte() {
    let a = asset(9);
    let mut b = asset(9);
    assert!(a.same_as(&b));
    b.bytes[31] = 8;
    assert!(!a.same_as(&b));
}

#[test]
fn bootstrap_deposit_mints_square_root() {
    let mut pool = fresh_pool();
    let d = deposit(&mut pool, 50, 100, 400, 0).unwrap();
    assert_eq!(d, DepositResult { amount_a: 100, amount_b: 400, lp_amount: 200 });
    assert_eq!(pool.lp_supply, 200);
    assert_eq!(pool.reserve_a, 100);
    assert_eq!(pool.reserve_b, 400);
}

#[test]
fn bootstrap_deposit_rounds_root_down() {
    let mut pool = fresh_pool();
    let d = deposit(&mut pool, 50, 1, 2, 1).unwrap();
    assert_eq!(d.lp_amount, 1);
    let mut pool = fresh_pool();
    let d = deposit(&mut pool, 50, 3, 5, 0).unwrap();
    assert_eq!(d.lp_amount, 3);
}

#[test]
fn bootstrap_deposit_requires_both_sides() {
    let mut pool = fresh_pool();
    let before = pool;
    assert_eq!(deposit(&mut pool, 50, 0, 400, 0), Err(DexError::InvalidAmount));
    assert_eq!(deposit(&mut pool, 50, 100, 0, 1), Err(DexError::InvalidAmount));
    assert_eq!(pool, before);
}

#[test]
fn deposit_before_open_time_is_refused() {
    let mut pool = fresh_pool();
    let before = pool;
    assert_eq!(deposit(&mut pool, 49, 100, 400, 0), Err(DexError::PoolNotOpen));
    assert_eq!(deposit(&mut pool, -1, 100, 400, 0), Err(DexError::PoolNotOpen));
    assert_eq!(pool, before);
}

#[test]
fn steady_deposit_side_a_exact() {
    let mut pool = funded_pool();
    let d = deposit(&mut pool, 100, 10, 100, 0).unwrap();
    assert_eq!(d, DepositResult { amount_a: 10, amount_b: 40, lp_amount: 20 });
    assert_eq!((pool.reserve_a, pool.reserve_b, pool.lp_supply), (110, 440, 220));
}

#[test]
fn steady_deposit_side_b_exact_rounds_for_pool() {
    let mut pool = funded_pool();
    let d = deposit(&mut pool, 100, 50, 7, 1).unwrap();
    assert_eq!(d, DepositResult { amount_a: 1, amount_b: 7, lp_amount: 2 });
    assert_eq!((pool.reserve_a, pool.reserve_b, pool.lp_supply), (101, 407, 202));
}

#[test]
fn steady_deposit_keeps_price_within_one_part() {
    let mut pool = funded_pool();
    let (ra, rb) = (pool.reserve_a as u128, pool.reserve_b as u128);
    deposit(&mut pool, 100, 33, 1000, 0).unwrap();
    let (ra2, rb2) = (pool.reserve_a as u128, pool.reserve_b as u128);
    let gap = (ra2 * rb).abs_diff(ra * rb2);
    assert!(gap * ra.min(rb) < ra * rb2);
    assert!(gap * ra2.min(rb2) < ra * rb2);
}

#[test]
fn steady_deposit_over_bound_is_slippage() {
    let mut pool = funded_pool();
    let before = pool;
    assert_eq!(deposit(&mut pool, 100, 10, 39, 0), Err(DexError::SlippageExceeded));
    assert_eq!(deposit(&mut pool, 100, 1, 8, 1), Err(DexError::SlippageExceeded));
    assert_eq!(pool, before);
}

#[test]
fn deposit_overflow_is_refused() {
    let mut pool = fresh_pool();
    let d = deposit(&mut pool, 50, u64::MAX, 1, 0).unwrap();
    assert_eq!(d.lp_amount, 4294967295);
    let before = pool;
    assert_eq!(deposit(&mut pool, 50, 1, 1, 0), Err(DexError::Overflow));
    assert_eq!(pool, before);
}

#[test]
fn swap_requires_open_pool() {
    let mut pool = fresh_pool();
    deposit(&mut pool, 100, 100, 400, 0).unwrap();
    let before = pool;
    assert_eq!(swap_base_in(&mut pool, SwapDirection::AToB, 10, 0), Err(DexError::PoolNotReady));
    assert_eq!(pool, before);
}

#[test]
fn swap_a_to_b_pays_formula_output() {
    let mut pool = funded_pool();
    assert_eq!(swap_base_in(&mut pool, SwapDirection::AToB, 10, 36), Ok(36));
    assert_eq!((pool.reserve_a, pool.reserve_b, pool.lp_supply), (110, 364, 200));
    assert!(110u64 * 364 > 100 * 400);
}

#[test]
fn swap_b_to_a_pays_formula_output() {
    let mut pool = funded_pool();
    assert_eq!(swap_base_in(&mut pool, SwapDirection::BToA, 40, 0), Ok(9));
    assert_eq!((pool.reserve_a, pool.reserve_b), (91, 440));
    assert!(91u64 * 440 > 100 * 400);
}

#[test]
fn swap_minimum_one_above_output_is_slippage() {
    let mut pool = funded_pool();
    let before = pool;
    assert_eq!(swap_base_in(&mut pool, SwapDirection::AToB, 10, 37), Err(DexError::SlippageExceeded));
    assert_eq!(pool, before);
}

#[test]
fn swap_zero_input_is_invalid() {
    let mut pool = funded_pool();
    assert_eq!(swap_base_in(&mut pool, SwapDirection::AToB, 0, 0), Err(DexError::InvalidAmount));
}

#[test]
fn swap_against_empty_pool_is_insufficient_liquidity() {
    let mut pool = fresh_pool();
    open_pool(&mut pool);
    assert_eq!(
        swap_base_in(&mut pool, SwapDirection::BToA, 5, 0),
        Err(DexError::InsufficientLiquidity)
    );
}

#[test]
fn swap_reserve_overflow_is_refused() {
    let mut pool = funded_pool();
    let before = pool;
    assert_eq!(swap_base_in(&mut pool, SwapDirection::AToB, u64::MAX, 0), Err(DexError::Overflow));
    assert_eq!(pool, before);
}

#[test]
fn swap_strictly_grows_product_over_many_trades() {
    let mut pool = funded_pool();
    let mut product = pool.reserve_a as u128 * pool.reserve_b as u128;
    for i in 1..50u64 {
        let direction = if i % 2 == 0 { SwapDirection::AToB } else { SwapDirection::BToA };
        swap_base_in(&mut pool, direction, i, 0).unwrap();
        let next = pool.reserve_a as u128 * pool.reserve_b as u128;
        assert!(next > product);
        product = next;
    }
}

#[test]
fn withdraw_from_empty_pool_is_no_liquidity() {
    let mut pool = fresh_pool();
    let before = pool;
    assert_eq!(withdraw(&mut pool, 10), Err(DexError::NoLiquidity));
    assert_eq!(pool, before);
}

#[test]
fn withdraw_rejects_zero_and_excess_shares() {
    let mut pool = funded_pool();
    let before = pool;
    assert_eq!(withdraw(&mut pool, 0), Err(DexError::InvalidAmount));
    assert_eq!(withdraw(&mut pool, 201), Err(DexError::InvalidAmount));
    assert_eq!(pool, before);
}

#[test]
fn withdraw_pays_proportional_share() {
    let mut pool = funded_pool();
    assert_eq!(withdraw(&mut pool, 50), Ok(WithdrawResult { amount_a: 25, amount_b: 100 }));
    assert_eq!((pool.reserve_a, pool.reserve_b, pool.lp_supply), (75, 300, 150));
    assert_eq!(withdraw(&mut pool, 150), Ok(WithdrawResult { amount_a: 75, amount_b: 300 }));
    assert_eq!((pool.reserve_a, pool.reserve_b, pool.lp_supply), (0, 0, 0));
    assert!(pool.is_well_formed());
}

#[test]
fn withdraw_rounds_down() {
    let mut pool = funded_pool();
    swap_base_in(&mut pool, SwapDirection::AToB, 10, 0).unwrap();
    assert_eq!(withdraw(&mut pool, 3), Ok(WithdrawResult { amount_a: 1, amount_b: 5 }));
}

#[test]
fn deposit_then_withdraw_returns_no_more() {
    let mut pool = funded_pool();
    let d = deposit(&mut pool, 100, 50, 7, 1).unwrap();
    let w = withdraw(&mut pool, d.lp_amount).unwrap();
    assert_eq!(w, WithdrawResult { amount_a: 1, amount_b: 4 });
    assert!(w.amount_a <= d.amount_a && w.amount_b <= d.amount_b);
}

#[test]
fn bootstrap_deposit_then_withdraw_returns_exactly() {
    let mut pool = fresh_pool();
    let d = deposit(&mut pool, 60, 123, 4567, 0).unwrap();
    let w = withdraw(&mut pool, d.lp_amount).unwrap();
    assert_eq!(w, WithdrawResult { amount_a: 123, amount_b: 4567 });
}

#[test]
fn well_formedness_check() {
    let mut pool = funded_pool();
    assert!(pool.is_well_formed());
    pool.lp_supply = 0;
    assert!(!pool.is_well_formed());
    let mut pool = funded_pool();
    pool.reserve_b = 0;
    assert!(!pool.is_well_formed());
    let mut pool = funded_pool();
    pool.mint_b = pool.mint_a;
    assert!(!pool.is_well_formed());
}

#[test]
fn swap_without_fee_can_keep_product() {
    let mut pool = initialize_pool(asset(1), asset(2), asset(3), 1, 1, 0).unwrap();
    deposit(&mut pool, 0, 1, 2, 0).unwrap();
    open_pool(&mut pool);
    assert_eq!(swap_base_in(&mut pool, SwapDirection::AToB, 1, 0), Ok(1));
    assert_eq!((pool.reserve_a, pool.reserve_b), (2, 1));
    assert_eq!(pool.reserve_a * pool.reserve_b, 1 * 2);
}

#[test]
fn steady_deposit_side_b_keeps_price_within_one_part() {
    let mut pool = funded_pool();
    let (ra, rb) = (pool.reserve_a as u128, pool.reserve_b as u128);
    deposit(&mut pool, 100, 1000, 333, 1).unwrap();
    let (ra2, rb2) = (pool.reserve_a as u128, pool.reserve_b as u128);
    assert_eq!((ra2, rb2), (183, 733));
    let gap = (ra2 * rb).abs_diff(ra * rb2);
    assert!(gap * ra.min(rb) < ra * rb2);
    assert!(gap * ra2.min(rb2) < ra * rb2);
}
