//! A 160-bit account address, split into a 32-bit high part and a 128-bit
//! low part. The zero address doubles as the uninitialized sentinel of the
//! pair and as the burn target of the locked bootstrap liquidity.

use vstd::prelude::*;

verus! {

#[derive(Clone, Copy, Debug, PartialEq, Eq, Structural)]
pub struct Address {
    pub hi: u32,
    pub lo: u128,
}

impl Address {
    pub open spec fn is_zero_spec(self) -> bool {
        self.hi == 0 && self.lo == 0
    }

    pub fn zero() -> (r: Address)
        ensures
            r.is_zero_spec(),
            r == (Address { hi: 0u32, lo: 0u128 }),
    {
        Address { hi: 0, lo: 0 }
    }

    pub fn is_zero(&self) -> (r: bool)
        ensures
            r == self.is_zero_spec(),
    {
        self.hi == 0 && self.lo == 0
    }
}

} // verus!
