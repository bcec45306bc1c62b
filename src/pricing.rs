//! Pure pricing on the curve `reserve_base * reserve_quote = k`.
//!
//! The cost of a buy is rounded up and the payout of a sell is rounded down,
//! so that the product of the reserves after any trade is at least what it
//! was before.
use crate::error::CustomError;
use vstd::arithmetic::div_mod::{
    lemma_div_is_ordered, lemma_div_multiples_vanish, lemma_fundamental_div_mod,
    lemma_mod_pos_bound,
};
use vstd::prelude::*;

verus! {

/// `a / b` rounded up, for `b > 0`.
pub open spec fn ceil_div(a: int, b: int) -> int {
    if a % b == 0 {
        a / b
    } else {
        a / b + 1
    }
}

/// The product of two reserves.
pub open spec fn product(reserve_base: int, reserve_quote: int) -> int {
    reserve_base * reserve_quote
}

/// The base reserve after `quote_out` of the quote reserve has left the pool:
/// the least base reserve that keeps the product at or above `k`.
pub open spec fn base_after_buy(reserve_base: u64, reserve_quote: u64, quote_out: u64) -> int {
    ceil_div(product(reserve_base as int, reserve_quote as int), reserve_quote - quote_out)
}

/// The base reserve after `quote_in` has entered the quote reserve: the least
/// base reserve that keeps the product at or above `k`.
pub open spec fn base_after_sell(reserve_base: u64, reserve_quote: u64, quote_in: u64) -> int {
    ceil_div(product(reserve_base as int, reserve_quote as int), reserve_quote + quote_in)
}

/// What `price_buy` returns: the base amount a trader must pay in to take
/// `quote_out` out of the pool.
pub open spec fn buy_result(reserve_base: u64, reserve_quote: u64, quote_out: u64) -> Result<
    u64,
    CustomError,
> {
    if reserve_base == 0 || quote_out == 0 || quote_out >= reserve_quote {
        Err(CustomError::InsufficientLiquidity)
    } else if base_after_buy(reserve_base, reserve_quote, quote_out) > u64::MAX {
        Err(CustomError::ArithmeticOverflow)
    } else {
        Ok((base_after_buy(reserve_base, reserve_quote, quote_out) - reserve_base) as u64)
    }
}

/// What `price_sell` returns: the base amount a trader receives for putting
/// `quote_in` into the pool.
pub open spec fn sell_result(reserve_base: u64, reserve_quote: u64, quote_in: u64) -> Result<
    u64,
    CustomError,
> {
    if reserve_base == 0 || reserve_quote == 0 || quote_in == 0 {
        Err(CustomError::InsufficientLiquidity)
    } else if reserve_quote + quote_in > u64::MAX {
        Err(CustomError::ArithmeticOverflow)
    } else {
        Ok((reserve_base - base_after_sell(reserve_base, reserve_quote, quote_in)) as u64)
    }
}

/// `ceil_div(a, n) * n` covers `a`.
pub proof fn lemma_ceil_div_covers(a: int, n: int)
    requires
        0 <= a,
        0 < n,
    ensures
        ceil_div(a, n) * n >= a,
        ceil_div(a, n) * n < a + n,
        0 <= ceil_div(a, n),
{
    lemma_fundamental_div_mod(a, n);
    lemma_mod_pos_bound(a, n);
    assert(0 <= a / n) by {
        lemma_div_is_ordered(0, a, n);
    }
    assert(ceil_div(a, n) * n >= a && ceil_div(a, n) * n < a + n) by (nonlinear_arith)
        requires
            a == n * (a / n) + a % n,
            0 <= a % n < n,
            ceil_div(a, n) == if a % n == 0 { a / n } else { a / n + 1 },
    ;
}

/// Rounding up is monotone in the numerator.
pub proof fn lemma_ceil_div_monotone(a: int, b: int, n: int)
    requires
        0 <= a <= b,
        0 < n,
    ensures
        ceil_div(a, n) <= ceil_div(b, n),
{
    lemma_ceil_div_covers(a, n);
    lemma_ceil_div_covers(b, n);
    let ca = ceil_div(a, n);
    let cb = ceil_div(b, n);
    assert(ca <= cb) by (nonlinear_arith)
        requires
            ca * n < a + n,
            cb * n >= b,
            a <= b,
            0 < n,
    ;
}

/// An exact multiple divides exactly.
pub proof fn lemma_ceil_div_exact(x: int, n: int)
    requires
        0 <= x,
        0 < n,
    ensures
        ceil_div(x * n, n) == x,
{
    lemma_div_multiples_vanish(x, n);
    lemma_fundamental_div_mod(x * n, n);
    assert(n * x == x * n) by (nonlinear_arith);
}

/// The exact product of two 64-bit reserves, which always fits in 128 bits.
pub fn wide_product(a: u64, b: u64) -> (k: u128)
    ensures
        k == product(a as int, b as int),
{
    assert((a as int) * (b as int) <= (u64::MAX as int) * (u64::MAX as int)) by (nonlinear_arith)
        requires
            a <= u64::MAX,
            b <= u64::MAX,
    ;
    (a as u128) * (b as u128)
}

/// `a / n` rounded up.
pub fn ceil_div_wide(a: u128, n: u128) -> (q: u128)
    requires
        n > 0,
    ensures
        q == ceil_div(a as int, n as int),
{
    let floor: u128 = a / n;
    if a % n == 0 {
        floor
    } else {
        proof {
            lemma_fundamental_div_mod(a as int, n as int);
            lemma_mod_pos_bound(a as int, n as int);
            lemma_div_is_ordered(0, a as int, n as int);
            assert(a / n < a) by (nonlinear_arith)
                requires
                    a as int == n * (a / n) + a % n,
                    a % n >= 1,
                    n >= 1,
                    a / n >= 0,
            ;
        }
        floor + 1
    }
}

/// The base amount a trader must pay in to take `desired_quote_out` of the
/// quote asset out of a pool holding the given reserves.
///
/// The new base reserve is `k / (reserve_quote - desired_quote_out)` rounded
/// up, so the trader never pays less than the curve asks. The amount taken out
/// must be positive and strictly below the quote reserve: the quote reserve
/// never reaches zero.
pub fn price_buy(reserve_base: u64, reserve_quote: u64, desired_quote_out: u64) -> (r: Result<
    u64,
    CustomError,
>)
    ensures
        r == buy_result(reserve_base, reserve_quote, desired_quote_out),
{
    if reserve_base == 0 || desired_quote_out == 0 || desired_quote_out >= reserve_quote {
        return Err(CustomError::InsufficientLiquidity);
    }
    let k: u128 = wide_product(reserve_base, reserve_quote);
    let new_reserve_quote: u64 = reserve_quote - desired_quote_out;
    let new_reserve_base: u128 = ceil_div_wide(k, new_reserve_quote as u128);
    if new_reserve_base > u64::MAX as u128 {
        return Err(CustomError::ArithmeticOverflow);
    }
    proof {
        lemma_buy_base_grows(reserve_base, reserve_quote, desired_quote_out);
    }
    Ok((new_reserve_base - reserve_base as u128) as u64)
}

/// The base amount a trader receives for putting `quote_in` of the quote
/// asset into a pool holding the given reserves.
///
/// The new base reserve is `k / (reserve_quote + quote_in)` rounded up, so
/// the payout is rounded down and never exceeds what the curve yields.
pub fn price_sell(reserve_base: u64, reserve_quote: u64, quote_in: u64) -> (r: Result<
    u64,
    CustomError,
>)
    ensures
        r == sell_result(reserve_base, reserve_quote, quote_in),
        r matches Ok(base_out) ==> base_out <= reserve_base,
{
    if reserve_base == 0 || reserve_quote == 0 || quote_in == 0 {
        return Err(CustomError::InsufficientLiquidity);
    }
    if quote_in > u64::MAX - reserve_quote {
        return Err(CustomError::ArithmeticOverflow);
    }
    let k: u128 = wide_product(reserve_base, reserve_quote);
    let new_reserve_quote: u64 = reserve_quote + quote_in;
    let new_reserve_base: u128 = ceil_div_wide(k, new_reserve_quote as u128);
    proof {
        lemma_sell_base_shrinks(reserve_base, reserve_quote, quote_in);
    }
    Ok((reserve_base as u128 - new_reserve_base) as u64)
}

/// Taking quote out of the pool never lowers the base reserve the curve asks
/// for.
pub proof fn lemma_buy_base_grows(reserve_base: u64, reserve_quote: u64, quote_out: u64)
    requires
        quote_out < reserve_quote,
    ensures
        base_after_buy(reserve_base, reserve_quote, quote_out) >= reserve_base,
{
    let n = reserve_quote - quote_out;
    let rb = reserve_base as int;
    assert(rb * n <= rb * reserve_quote) by (nonlinear_arith)
        requires
            0 <= rb,
            0 < n <= reserve_quote,
    ;
    lemma_ceil_div_exact(rb, n);
    lemma_ceil_div_monotone(rb * n, rb * reserve_quote, n);
}

/// Putting quote into a non-empty pool leaves a positive base reserve no
/// larger than before.
pub proof fn lemma_sell_base_shrinks(reserve_base: u64, reserve_quote: u64, quote_in: u64)
    requires
        reserve_base > 0,
        reserve_quote > 0,
    ensures
        1 <= base_after_sell(reserve_base, reserve_quote, quote_in) <= reserve_base,
{
    let n = reserve_quote + quote_in;
    let rb = reserve_base as int;
    let k = rb * reserve_quote;
    assert(1 <= k <= rb * n) by (nonlinear_arith)
        requires
            1 <= rb,
            1 <= reserve_quote <= n,
            k == rb * reserve_quote,
    ;
    lemma_ceil_div_exact(rb, n);
    lemma_ceil_div_monotone(k, rb * n, n);
    lemma_ceil_div_covers(k, n);
    assert(ceil_div(k, n) >= 1) by (nonlinear_arith)
        requires
            ceil_div(k, n) * n >= k,
            k >= 1,
            n >= 1,
            ceil_div(k, n) >= 0,
    ;
}

/// A buy never lowers the product of the reserves: the base reserve after
/// the trade times the quote reserve after it is at least the product before.
pub proof fn lemma_buy_keeps_product(reserve_base: u64, reserve_quote: u64, quote_out: u64)
    requires
        buy_result(reserve_base, reserve_quote, quote_out) is Ok,
    ensures
        ({
            let base_in = buy_result(reserve_base, reserve_quote, quote_out)->Ok_0;
            product(reserve_base + base_in, reserve_quote - quote_out) >= product(
                reserve_base as int,
                reserve_quote as int,
            )
        }),
{
    lemma_buy_base_grows(reserve_base, reserve_quote, quote_out);
    lemma_ceil_div_covers(
        product(reserve_base as int, reserve_quote as int),
        reserve_quote - quote_out,
    );
}

/// A sell never lowers the product of the reserves: the base reserve after
/// the trade times the quote reserve after it is at least the product before.
pub proof fn lemma_sell_keeps_product(reserve_base: u64, reserve_quote: u64, quote_in: u64)
    requires
        sell_result(reserve_base, reserve_quote, quote_in) is Ok,
    ensures
        ({
            let base_out = sell_result(reserve_base, reserve_quote, quote_in)->Ok_0;
            product(reserve_base - base_out, reserve_quote + quote_in) >= product(
                reserve_base as int,
                reserve_quote as int,
            )
        }),
{
    lemma_sell_base_shrinks(reserve_base, reserve_quote, quote_in);
    lemma_ceil_div_covers(
        product(reserve_base as int, reserve_quote as int),
        reserve_quote + quote_in,
    );
}

/// Buying `quote_out` and then selling the same `quote_out` back into the
/// pool the buy left behind always succeeds, and returns no more base than
/// the buy cost: a round trip can only lose to rounding, never gain.
pub proof fn lemma_buy_then_sell_no_gain(reserve_base: u64, reserve_quote: u64, quote_out: u64)
    requires
        buy_result(reserve_base, reserve_quote, quote_out) is Ok,
    ensures
        ({
            let base_in = buy_result(reserve_base, reserve_quote, quote_out)->Ok_0;
            let back = sell_result(
                (reserve_base + base_in) as u64,
                (reserve_quote - quote_out) as u64,
                quote_out,
            );
            back is Ok && back->Ok_0 <= base_in
        }),
{
    let base_in = buy_result(reserve_base, reserve_quote, quote_out)->Ok_0;
    let rb2 = (reserve_base + base_in) as u64;
    let rq2 = (reserve_quote - quote_out) as u64;
    lemma_buy_keeps_product(reserve_base, reserve_quote, quote_out);
    lemma_buy_base_grows(reserve_base, reserve_quote, quote_out);
    lemma_sell_base_shrinks(rb2, rq2, quote_out);
    let k = product(reserve_base as int, reserve_quote as int);
    let k2 = product(rb2 as int, rq2 as int);
    lemma_ceil_div_exact(reserve_base as int, reserve_quote as int);
    lemma_ceil_div_monotone(k, k2, reserve_quote as int);
}

} // verus!
