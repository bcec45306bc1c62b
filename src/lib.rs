//! A constant-product bonding curve: a two-reserve pool that prices trades of
//! a base asset against a quote asset so that `reserve_base * reserve_quote`
//! never decreases, with every rounding step taken in the pool's favour.

pub mod error;
pub mod pricing;
pub mod pool;
