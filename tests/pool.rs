use bonding_curve::error::CustomError;
use bonding_curve::pool::{buy, initialize, sell, PoolState};
use bonding_curve::pricing::{ceil_div_wide, price_buy, price_sell, wide_product};

const MINT: [u8; 32] = [7u8; 32];

fn pool(base: u64, quote: u64) -> PoolState {
    initialize(MINT, 254, base, quote).unwrap()
}

#[test]
fn initialize_sets_reserves_and_product() {
    let p = pool(1000, 2000);
    assert_eq!(p.reserve_base, 1000);
    assert_eq!(p.reserve_quote, 2000);
    assert_eq!(p.invariant_k, 2_000_000);
    assert_eq!(p.asset_id, MINT);
    assert_eq!(p.bump, 254);
}

#[test]
fn scenario_initialize_then_buy() {
    let mut p = pool(1000, 2000);
    assert_eq!(p.invariant_k, 2_000_000);
    assert_eq!(buy(&mut p, 1000), Ok(1000));
    assert_eq!(p.reserve_base, 2000);
    assert_eq!(p.reserve_quote, 1000);
    assert_eq!(p.invariant_k, 2_000_000);
}

#[test]
fn scenario_sell_after_buy_rounds_payout_down() {
    let mut p = pool(1000, 2000);
    assert_eq!(buy(&mut p, 1000), Ok(1000));
    // The exact payout is 666.67: the trader gets 666 and the product grows.
    assert_eq!(sell(&mut p, 500), Ok(666));
    assert_eq!(p.reserve_base, 1334);
    assert_eq!(p.reserve_quote, 1500);
    assert_eq!(p.invariant_k, 2_001_000);
    assert!(p.invariant_k >= 2_000_000);
}

#[test]
fn initialize_rejects_empty_reserves() {
    assert_eq!(initialize(MINT, 1, 0, 100), Err(CustomError::InsufficientLiquidity));
    assert_eq!(initialize(MINT, 1, 100, 0), Err(CustomError::InsufficientLiquidity));
    assert_eq!(initialize(MINT, 1, 0, 0), Err(CustomError::InsufficientLiquidity));
}

#[test]
fn price_buy_whole_quote_reserve_is_refused() {
    assert_eq!(price_buy(1000, 2000, 2000), Err(CustomError::InsufficientLiquidity));
    assert_eq!(price_buy(1000, 2000, 2001), Err(CustomError::InsufficientLiquidity));
    assert_eq!(price_buy(1000, 2000, 1999), Ok(1_999_000));
}

#[test]
fn buy_whole_quote_reserve_leaves_pool_unchanged() {
    let mut p = pool(1000, 2000);
    let before = p;
    assert_eq!(buy(&mut p, 2000), Err(CustomError::InsufficientLiquidity));
    assert_eq!(p, before);
}

#[test]
fn price_buy_rejects_zero_amount_and_empty_base() {
    assert_eq!(price_buy(1000, 2000, 0), Err(CustomError::InsufficientLiquidity));
    assert_eq!(price_buy(0, 2000, 10), Err(CustomError::InsufficientLiquidity));
}

#[test]
fn price_buy_rounds_cost_up() {
    // 3_000_000 / 2999 = 1000.33..., so the new base reserve is 1001.
    assert_eq!(price_buy(1000, 3000, 1), Ok(1));
    let mut p = pool(1000, 3000);
    assert_eq!(buy(&mut p, 1), Ok(1));
    assert_eq!(p.invariant_k, 3_001_999);
    assert!(p.invariant_k >= 3_000_000);
}

#[test]
fn price_buy_overflow_of_new_base_reserve() {
    let m = u64::MAX;
    assert_eq!(price_buy(m, m, m - 1), Err(CustomError::ArithmeticOverflow));
    let mut p = pool(m, m);
    let before = p;
    assert_eq!(buy(&mut p, m - 1), Err(CustomError::ArithmeticOverflow));
    assert_eq!(p, before);
}

#[test]
fn price_sell_payout_never_exceeds_base_reserve() {
    let m = u64::MAX;
    // 100 / (2^64 - 1) rounds up to 1, so 9 of the 10 leave.
    assert_eq!(price_sell(10, 10, m - 10), Ok(9));
    let mut p = pool(10, 10);
    assert_eq!(sell(&mut p, m - 10), Ok(9));
    assert_eq!(p.reserve_base, 1);
    assert_eq!(p.reserve_quote, m);
}

#[test]
fn price_sell_rejects_zero_and_overflow() {
    assert_eq!(price_sell(1000, 2000, 0), Err(CustomError::InsufficientLiquidity));
    assert_eq!(price_sell(0, 2000, 5), Err(CustomError::InsufficientLiquidity));
    assert_eq!(price_sell(1000, 0, 5), Err(CustomError::InsufficientLiquidity));
    assert_eq!(price_sell(1, u64::MAX, 1), Err(CustomError::ArithmeticOverflow));
    let mut p = pool(1, u64::MAX);
    let before = p;
    assert_eq!(sell(&mut p, 1), Err(CustomError::ArithmeticOverflow));
    assert_eq!(p, before);
}

#[test]
fn price_sell_exact_division() {
    // 2_000_000 / 2500 = 800 exactly.
    assert_eq!(price_sell(1000, 2000, 500), Ok(200));
}

#[test]
fn buy_then_sell_back_never_gains() {
    let mut p = pool(1000, 3000);
    let paid = buy(&mut p, 7).unwrap();
    assert_eq!(paid, 3);
    let got = sell(&mut p, 7).unwrap();
    assert_eq!(got, 2);
    assert!(got <= paid);
    assert_eq!(p.reserve_base, 1001);
    assert_eq!(p.reserve_quote, 3000);
}

#[test]
fn trades_never_lower_product() {
    let mut p = pool(12_345, 67_891);
    let mut k = p.invariant_k;
    let steps: [(bool, u64); 6] = [(true, 10_000), (false, 333), (true, 1), (false, 77_777), (true, 50_000), (false, 1)];
    for (is_buy, amount) in steps {
        let r = if is_buy { buy(&mut p, amount) } else { sell(&mut p, amount) };
        assert!(r.is_ok());
        assert!(p.invariant_k >= k);
        assert_eq!(p.invariant_k, (p.reserve_base as u128) * (p.reserve_quote as u128));
        k = p.invariant_k;
    }
}

#[test]
fn wide_product_and_ceil_div_are_exact() {
    assert_eq!(wide_product(u64::MAX, u64::MAX), 340282366920938463426481119284349108225);
    assert_eq!(wide_product(1000, 2000), 2_000_000);
    assert_eq!(ceil_div_wide(7, 2), 4);
    assert_eq!(ceil_div_wide(6, 2), 3);
    assert_eq!(ceil_div_wide(0, 5), 0);
    assert_eq!(ceil_div_wide(u128::MAX, 2), u128::MAX / 2 + 1);
}
