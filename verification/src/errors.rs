//! The failure taxonomy. Every operation either completes with no partial
//! effect or reports one of these and leaves the state as it found it.

use vstd::prelude::*;

verus! {

#[derive(Clone, Copy, Debug, PartialEq, Eq, Structural)]
pub enum Error {
    AlreadyInitialized,
    InsufficientAllowance,
    InsufficientBalance,
    ArithmeticOverflow,
    ArithmeticUnderflow,
    InsufficientOutputAmount,
    InsufficientLiquidity,
    InsufficientInputAmount,
    KInvariantViolated,
    InsufficientLiquidityBurned,
    LiquidityIsZero,
    TransferFailed,
    ExternalCallFailed,
}

} // verus!
