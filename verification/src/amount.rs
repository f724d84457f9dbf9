//! 256-bit unsigned amounts, the arithmetic type of the ledger and the pair
//! engine. A value is held as two 128-bit halves; its mathematical value is
//! `hi * 2^128 + lo`. The checked operations that need more than 128 bits of
//! intermediate precision call `alloy_primitives::U256` behind trusted
//! wrappers with exact contracts; everything else is verified here.

use vstd::prelude::*;

verus! {

pub open spec fn two_pow_112() -> nat {
    0x10000000000000000000000000000nat
}

pub open spec fn two_pow_128() -> nat {
    0x100000000000000000000000000000000nat
}

pub open spec fn two_pow_256() -> nat {
    0x10000000000000000000000000000000000000000000000000000000000000000nat
}

#[derive(Clone, Copy, Debug, PartialEq, Eq, Structural)]
pub struct Amount {
    pub hi: u128,
    pub lo: u128,
}

impl Amount {
    /// The mathematical value this amount stands for: `hi * 2^128 + lo`.
    pub open spec fn val(self) -> nat {
        (self.hi * 0x100000000000000000000000000000000 + self.lo) as nat
    }

    pub fn zero() -> (r: Amount)
        ensures
            r.val() == 0,
    {
        Amount { hi: 0, lo: 0 }
    }

    pub fn from_u128(x: u128) -> (r: Amount)
        ensures
            r.val() == x,
    {
        Amount { hi: 0, lo: x }
    }

    /// The low 128 bits, exact when the value fits them.
    pub fn to_u128(&self) -> (r: Option<u128>)
        ensures
            (r is Some) == (self.val() < two_pow_128()),
            (match r {
                Some(x) => x == self.val(),
                None => true,
            }),
    {
        proof {
            lemma_val_parts(*self);
        }
        if self.hi == 0 {
            Some(self.lo)
        } else {
            None
        }
    }

    pub fn is_zero(&self) -> (r: bool)
        ensures
            r == (self.val() == 0),
    {
        proof {
            lemma_val_parts(*self);
        }
        self.hi == 0 && self.lo == 0
    }

    pub fn lt(&self, other: &Amount) -> (r: bool)
        ensures
            r == (self.val() < other.val()),
    {
        proof {
            lemma_val_order(*self, *other);
        }
        if self.hi != other.hi {
            self.hi < other.hi
        } else {
            self.lo < other.lo
        }
    }

    /// Whether the value fits the 112 bits that a reserve may hold.
    pub fn fits_reserve(&self) -> (r: bool)
        ensures
            r == (self.val() < two_pow_112()),
    {
        proof {
            lemma_val_parts(*self);
        }
        self.hi == 0 && self.lo < 0x10000000000000000000000000000u128
    }

    pub fn min(self, other: Amount) -> (r: Amount)
        ensures
            r.val() == if self.val() <= other.val() {
                self.val()
            } else {
                other.val()
            },
    {
        if self.lt(&other) {
            self
        } else {
            other
        }
    }
}

/// How a value relates to its halves: each half bounds its share.
pub proof fn lemma_val_parts(a: Amount)
    ensures
        a.val() == a.hi * two_pow_128() + a.lo,
        a.val() < two_pow_256(),
        a.hi > 0 ==> a.val() >= two_pow_128(),
        a.val() == 0 <==> (a.hi == 0 && a.lo == 0),
{
    assert(a.hi * two_pow_128() + a.lo < two_pow_256()) by (nonlinear_arith)
        requires
            a.hi < two_pow_128(),
            a.lo < two_pow_128(),
    ;
    assert(a.hi > 0 ==> a.hi * two_pow_128() >= two_pow_128()) by (nonlinear_arith);
}

/// Comparing two values is comparing the halves lexicographically.
proof fn lemma_val_order(a: Amount, b: Amount)
    ensures
        a.val() < b.val() <==> (a.hi < b.hi || (a.hi == b.hi && a.lo < b.lo)),
        a.val() == b.val() <==> (a.hi == b.hi && a.lo == b.lo),
{
    lemma_val_parts(a);
    lemma_val_parts(b);
    assert(a.hi < b.hi ==> a.hi * two_pow_128() + two_pow_128() <= b.hi * two_pow_128())
        by (nonlinear_arith);
    assert(b.hi < a.hi ==> b.hi * two_pow_128() + two_pow_128() <= a.hi * two_pow_128())
        by (nonlinear_arith);
}

/// Relies on `alloy_primitives::U256::checked_add`: `Some(a + b)` unless the
/// sum overflows 256 bits, `None` then.
#[verifier::external_body]
pub(crate) fn u256_checked_add(a: Amount, b: Amount) -> (r: Option<Amount>)
    ensures
        (r is Some) == (a.val() + b.val() < two_pow_256()),
        (match r {
            Some(c) => c.val() == a.val() + b.val(),
            None => true,
        }),
{
    let x = alloy_primitives::U256::from_limbs([a.lo as u64, (a.lo >> 64) as u64, a.hi as u64, (a.hi >> 64) as u64]);
    let y = alloy_primitives::U256::from_limbs([b.lo as u64, (b.lo >> 64) as u64, b.hi as u64, (b.hi >> 64) as u64]);
    x.checked_add(y).map(|z: alloy_primitives::U256| {
        let l = z.into_limbs();
        Amount { lo: l[0] as u128 | ((l[1] as u128) << 64), hi: l[2] as u128 | ((l[3] as u128) << 64) }
    })
}

/// Relies on `alloy_primitives::U256::checked_sub`: `Some(a - b)` unless the
/// difference would be negative, `None` then.
#[verifier::external_body]
pub(crate) fn u256_checked_sub(a: Amount, b: Amount) -> (r: Option<Amount>)
    ensures
        (r is Some) == (a.val() >= b.val()),
        (match r {
            Some(c) => c.val() + b.val() == a.val(),
            None => true,
        }),
{
    let x = alloy_primitives::U256::from_limbs([a.lo as u64, (a.lo >> 64) as u64, a.hi as u64, (a.hi >> 64) as u64]);
    let y = alloy_primitives::U256::from_limbs([b.lo as u64, (b.lo >> 64) as u64, b.hi as u64, (b.hi >> 64) as u64]);
    x.checked_sub(y).map(|z: alloy_primitives::U256| {
        let l = z.into_limbs();
        Amount { lo: l[0] as u128 | ((l[1] as u128) << 64), hi: l[2] as u128 | ((l[3] as u128) << 64) }
    })
}

/// Relies on `alloy_primitives::U256::checked_mul`: `Some(a * b)` unless the
/// product overflows 256 bits, `None` then.
#[verifier::external_body]
pub(crate) fn u256_checked_mul(a: Amount, b: Amount) -> (r: Option<Amount>)
    ensures
        (r is Some) == (a.val() * b.val() < two_pow_256()),
        (match r {
            Some(c) => c.val() == a.val() * b.val(),
            None => true,
        }),
{
    let x = alloy_primitives::U256::from_limbs([a.lo as u64, (a.lo >> 64) as u64, a.hi as u64, (a.hi >> 64) as u64]);
    let y = alloy_primitives::U256::from_limbs([b.lo as u64, (b.lo >> 64) as u64, b.hi as u64, (b.hi >> 64) as u64]);
    x.checked_mul(y).map(|z: alloy_primitives::U256| {
        let l = z.into_limbs();
        Amount { lo: l[0] as u128 | ((l[1] as u128) << 64), hi: l[2] as u128 | ((l[3] as u128) << 64) }
    })
}

/// Relies on `alloy_primitives::U256::checked_div`: floor division, `None`
/// only on a zero divisor, which the precondition rules out.
#[verifier::external_body]
pub(crate) fn u256_div(a: Amount, b: Amount) -> (r: Amount)
    requires
        b.val() != 0,
    ensures
        r.val() == a.val() / b.val(),
{
    let x = alloy_primitives::U256::from_limbs([a.lo as u64, (a.lo >> 64) as u64, a.hi as u64, (a.hi >> 64) as u64]);
    let y = alloy_primitives::U256::from_limbs([b.lo as u64, (b.lo >> 64) as u64, b.hi as u64, (b.hi >> 64) as u64]);
    let l = x.checked_div(y).unwrap().into_limbs();
    Amount { lo: l[0] as u128 | ((l[1] as u128) << 64), hi: l[2] as u128 | ((l[3] as u128) << 64) }
}

} // verus!
