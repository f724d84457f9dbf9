//! Accounting core of a constant-product automated-market-maker pair:
//! a fungible claim-token ledger together with a pair engine that tracks
//! reserves, enforces the pricing invariant, accrues the protocol fee and
//! maintains a time-weighted price accumulator.

pub mod address;
pub mod amount;
pub mod codec;
pub mod erc20;
pub mod errors;
pub mod math;
pub mod pair;
