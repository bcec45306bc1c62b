//! The state of one pool and the three operations that change it.
//!
//! Each operation first computes everything it will write, checks it, and only
//! then stores it: an operation that fails leaves the pool untouched. Moving
//! the two legs of a trade between the trader and the pool is left to the
//! caller, which does it only after the operation here has succeeded.
use crate::error::CustomError;
use crate::pricing::{
    buy_result, lemma_buy_base_grows, lemma_buy_keeps_product, lemma_sell_base_shrinks,
    lemma_sell_keeps_product, price_buy, price_sell, product, sell_result, wide_product,
};
use vstd::prelude::*;

verus! {

/// One pool: the two reserves it holds and the product of the two at the last
/// settlement.
#[derive(Clone, Copy, Debug, PartialEq, Eq)]
pub struct PoolState {
    /// Balance of the pricing asset held by the pool.
    pub reserve_base: u64,
    /// Balance of the traded asset held by the pool.
    pub reserve_quote: u64,
    /// Identifier of the traded asset; the pool's address is derived from it.
    pub asset_id: [u8; 32],
    /// `reserve_base * reserve_quote`, as stored at the last settlement.
    pub invariant_k: u128,
    /// The seed that lets the pool sign for transfers out of its own vaults.
    pub bump: u8,
}

impl PoolState {
    /// Both reserves are positive and `invariant_k` is their product.
    pub open spec fn wf(&self) -> bool {
        &&& self.reserve_base > 0
        &&& self.reserve_quote > 0
        &&& self.invariant_k == product(self.reserve_base as int, self.reserve_quote as int)
    }

    /// This pool with new reserves, the rest kept and `invariant_k` recomputed.
    pub open spec fn with_reserves(self, reserve_base: int, reserve_quote: int) -> PoolState {
        PoolState {
            reserve_base: reserve_base as u64,
            reserve_quote: reserve_quote as u64,
            invariant_k: product(reserve_base, reserve_quote) as u128,
            ..self
        }
    }
}

/// Creates a pool holding `amount_base` of the pricing asset and
/// `amount_quote` of the traded asset.
///
/// A pool with an empty reserve has no curve, so either amount being zero is
/// refused with `InsufficientLiquidity`.
pub fn initialize(asset_id: [u8; 32], bump: u8, amount_base: u64, amount_quote: u64) -> (r: Result<
    PoolState,
    CustomError,
>)
    ensures
        r is Err <==> amount_base == 0 || amount_quote == 0,
        r matches Err(e) ==> e == CustomError::InsufficientLiquidity,
        r matches Ok(pool) ==> {
            &&& pool.wf()
            &&& pool.reserve_base == amount_base
            &&& pool.reserve_quote == amount_quote
            &&& pool.asset_id == asset_id
            &&& pool.bump == bump
        },
{
    if amount_base == 0 || amount_quote == 0 {
        return Err(CustomError::InsufficientLiquidity);
    }
    Ok(
        PoolState {
            reserve_base: amount_base,
            reserve_quote: amount_quote,
            asset_id,
            invariant_k: wide_product(amount_base, amount_quote),
            bump,
        },
    )
}

/// Takes `desired_quote_out` of the traded asset out of the pool and returns
/// the base amount the trader must pay in for it, which the pool's base
/// reserve now includes.
pub fn buy(pool: &mut PoolState, desired_quote_out: u64) -> (r: Result<u64, CustomError>)
    requires
        old(pool).wf(),
    ensures
        final(pool).wf(),
        r == buy_result(old(pool).reserve_base, old(pool).reserve_quote, desired_quote_out),
        r matches Ok(base_in) ==> *final(pool) == old(pool).with_reserves(
            old(pool).reserve_base + base_in,
            old(pool).reserve_quote - desired_quote_out,
        ),
        r is Err ==> *final(pool) == *old(pool),
        final(pool).invariant_k >= old(pool).invariant_k,
{
    let base_in = match price_buy(pool.reserve_base, pool.reserve_quote, desired_quote_out) {
        Ok(v) => v,
        Err(e) => return Err(e),
    };
    if desired_quote_out > pool.reserve_quote {
        return Err(CustomError::InsufficientLiquidity);
    }
    proof {
        lemma_buy_base_grows(pool.reserve_base, pool.reserve_quote, desired_quote_out);
        lemma_buy_keeps_product(pool.reserve_base, pool.reserve_quote, desired_quote_out);
    }
    let new_base: u64 = pool.reserve_base + base_in;
    let new_quote: u64 = pool.reserve_quote - desired_quote_out;
    let new_k: u128 = wide_product(new_base, new_quote);
    if new_k < pool.invariant_k {
        return Err(CustomError::InvariantViolation);
    }
    pool.reserve_base = new_base;
    pool.reserve_quote = new_quote;
    pool.invariant_k = new_k;
    Ok(base_in)
}

/// Puts `quote_in` of the traded asset into the pool and returns the base
/// amount paid out to the trader, which the pool's base reserve no longer
/// includes.
pub fn sell(pool: &mut PoolState, quote_in: u64) -> (r: Result<u64, CustomError>)
    requires
        old(pool).wf(),
    ensures
        final(pool).wf(),
        r == sell_result(old(pool).reserve_base, old(pool).reserve_quote, quote_in),
        r matches Ok(base_out) ==> *final(pool) == old(pool).with_reserves(
            old(pool).reserve_base - base_out,
            old(pool).reserve_quote + quote_in,
        ),
        r is Err ==> *final(pool) == *old(pool),
        final(pool).invariant_k >= old(pool).invariant_k,
{
    let base_out = match price_sell(pool.reserve_base, pool.reserve_quote, quote_in) {
        Ok(v) => v,
        Err(e) => return Err(e),
    };
    if base_out > pool.reserve_base {
        return Err(CustomError::InsufficientReserve);
    }
    proof {
        lemma_sell_base_shrinks(pool.reserve_base, pool.reserve_quote, quote_in);
        lemma_sell_keeps_product(pool.reserve_base, pool.reserve_quote, quote_in);
    }
    let new_base: u64 = pool.reserve_base - base_out;
    let new_quote: u64 = pool.reserve_quote + quote_in;
    let new_k: u128 = wide_product(new_base, new_quote);
    if new_k < pool.invariant_k {
        return Err(CustomError::InvariantViolation);
    }
    pool.reserve_base = new_base;
    pool.reserve_quote = new_quote;
    pool.invariant_k = new_k;
    Ok(base_out)
}

} // verus!
