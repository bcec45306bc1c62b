use vstd::prelude::*;

verus! {

/// Why a pool operation was refused. An operation that fails leaves the pool
/// as it was.
#[derive(Clone, Copy, Debug, PartialEq, Eq, Structural)]
pub enum CustomError {
    /// The trade would take as much or more than the pool holds on the other
    /// side, or a reserve or the traded amount is zero.
    InsufficientLiquidity,
    /// The computed payout exceeds what the pool holds.
    InsufficientReserve,
    /// A new reserve does not fit in 64 bits.
    ArithmeticOverflow,
    /// The product of the reserves went down after a trade.
    InvariantViolation,
}

} // verus!
