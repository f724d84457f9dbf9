//! Integer square root on 256-bit amounts, by the Babylonian method, with
//! the lemmas that pin it to the mathematical floor square root.

use vstd::prelude::*;
use vstd::arithmetic::div_mod::lemma_div_is_ordered;
use vstd::arithmetic::div_mod::lemma_div_is_ordered_by_denominator;
use vstd::arithmetic::div_mod::lemma_fundamental_div_mod;
use vstd::arithmetic::div_mod::lemma_fundamental_div_mod_converse_div;
use vstd::arithmetic::div_mod::lemma_mod_bound;
use crate::amount::Amount;
use crate::amount::two_pow_256;
use crate::amount::u256_checked_add;
use crate::amount::u256_div;

verus! {

/// Floor of the square root, defined by counting up from zero.
pub open spec fn floor_sqrt(n: nat) -> nat
    decreases n,
{
    if n == 0 {
        0
    } else {
        let r = floor_sqrt((n - 1) as nat);
        if (r + 1) * (r + 1) <= n {
            (r + 1) as nat
        } else {
            r
        }
    }
}

/// The defining property: the square of the root bounds `n` from below,
/// the next square from above.
pub proof fn lemma_floor_sqrt(n: nat)
    ensures
        floor_sqrt(n) * floor_sqrt(n) <= n,
        n < (floor_sqrt(n) + 1) * (floor_sqrt(n) + 1),
    decreases n,
{
    if n > 0 {
        lemma_floor_sqrt((n - 1) as nat);
        let r = floor_sqrt((n - 1) as nat);
        assert(floor_sqrt(n) == if (r + 1) * (r + 1) <= n {
            (r + 1) as nat
        } else {
            r
        });
        let t = floor_sqrt(n);
        if (r + 1) * (r + 1) <= n {
            assert(t == (r + 1) as nat);
            assert(n <= (r + 1) * (r + 1));
            assert(n < (t + 1) * (t + 1)) by (nonlinear_arith)
                requires
                    t == r + 1,
                    n <= (r + 1) * (r + 1),
            ;
        } else {
            assert(t == r);
            assert(n < (t + 1) * (t + 1)) by (nonlinear_arith)
                requires
                    t == r,
                    n < (r + 1) * (r + 1),
            ;
        }
    } else {
        assert(floor_sqrt(0) == 0);
        assert(n < (floor_sqrt(n) + 1) * (floor_sqrt(n) + 1)) by (nonlinear_arith)
            requires
                n == 0,
                floor_sqrt(n) == 0,
        ;
    }
}

/// Two naturals whose squares bracket `n` the same way are the same.
pub proof fn lemma_sqrt_unique(n: nat, a: nat, b: nat)
    requires
        a * a <= n < (a + 1) * (a + 1),
        b * b <= n < (b + 1) * (b + 1),
    ensures
        a == b,
{
    assert(a == b) by (nonlinear_arith)
        requires
            a * a <= n < (a + 1) * (a + 1),
            b * b <= n < (b + 1) * (b + 1),
    ;
}

/// A root below anything whose square exceeds `n`.
pub proof fn lemma_floor_sqrt_below(n: nat, b: nat)
    requires
        n < b * b,
    ensures
        floor_sqrt(n) < b,
{
    lemma_floor_sqrt(n);
    assert(floor_sqrt(n) < b) by (nonlinear_arith)
        requires
            floor_sqrt(n) * floor_sqrt(n) <= n,
            n < b * b,
    ;
}

/// The root never exceeds its argument.
pub proof fn lemma_floor_sqrt_le(n: nat)
    ensures
        floor_sqrt(n) <= n,
{
    lemma_floor_sqrt(n);
    assert(floor_sqrt(n) <= n) by (nonlinear_arith)
        requires
            floor_sqrt(n) * floor_sqrt(n) <= n,
    ;
}

/// One Babylonian step taken from any point at least 1 lands at or above
/// twice the root: `x + n / x >= 2 * floor_sqrt(n)`.
proof fn lemma_newton_step(n: nat, x: nat, s: nat)
    requires
        x >= 1,
        s * s <= n,
        n < (s + 1) * (s + 1),
    ensures
        x + n / x >= 2 * s,
{
    let q = n / x;
    lemma_fundamental_div_mod(n as int, x as int);
    lemma_mod_bound(n as int, x as int);
    assert(x * q <= n < x * q + x);
    if x + q < 2 * s {
        assert(false) by (nonlinear_arith)
            requires
                x >= 1,
                s * s <= n,
                x * q <= n < x * q + x,
                x + q < 2 * s,
        ;
    }
}

/// Integer square root by the Babylonian method, seeded at `y / 2 + 1`,
/// with the small values special-cased.
pub fn sqrt(y: Amount) -> (r: Amount)
    ensures
        r.val() == floor_sqrt(y.val()),
{
    let ghost n = y.val();
    let ghost s = floor_sqrt(n);
    proof {
        lemma_floor_sqrt(n);
    }
    let three = Amount::from_u128(3);
    let two = Amount::from_u128(2);
    if three.lt(&y) {
        proof {
            assert(s >= 2) by (nonlinear_arith)
                requires
                    s * s <= n,
                    n < (s + 1) * (s + 1),
                    n >= 4,
            ;
            lemma_fundamental_div_mod(n as int, 2);
            lemma_mod_bound(n as int, 2);
            assert(2 * s <= s * s) by (nonlinear_arith)
                requires
                    s >= 2,
            ;
            lemma_div_is_ordered(2 * s as int, n as int, 2);
            lemma_fundamental_div_mod_converse_div(2 * s as int, 2, s as int, 0);
        }
        let half = u256_div(y, two);
        let one = Amount::from_u128(1);
        let mut x = u256_checked_add(half, one).unwrap();
        let mut z = y;
        while x.lt(&z)
            invariant
                n == y.val(),
                s == floor_sqrt(n),
                s * s <= n,
                n < (s + 1) * (s + 1),
                s >= 2,
                4 <= n,
                two.val() == 2,
                x.val() >= s,
                z.val() >= s,
                x.val() <= n / 2 + 1,
                x.val() >= z.val() ==> z.val() * z.val() <= n,
            decreases z.val(),
        {
            z = x;
            let ghost zv = z.val();
            let q = u256_div(y, z);
            proof {
                let qv = n / zv;
                lemma_fundamental_div_mod(n as int, zv as int);
                lemma_mod_bound(n as int, zv as int);
                lemma_fundamental_div_mod(n as int, 2);
                lemma_mod_bound(n as int, 2);
                // the sum fits: z <= n/2 + 1 and n/z <= n/2, so z + n/z <= 2*(n/2) + 1
                lemma_div_is_ordered_by_denominator(n as int, 2, zv as int);
                assert(zv + qv <= 2 * (n / 2) + 1);
                assert(2 * (n / 2) <= n);
                assert(zv + qv < two_pow_256());
            }
            let sum = u256_checked_add(z, q).unwrap();
            let x2 = u256_div(sum, two);
            proof {
                let qv = n / zv;
                lemma_newton_step(n, zv, s);
                // x2 is at least s: (z + q) / 2 >= (2s) / 2 == s
                lemma_div_is_ordered(2 * s as int, (zv + qv) as int, 2);
                lemma_fundamental_div_mod_converse_div(2 * s as int, 2, s as int, 0);
                // x2 at most n/2 + 1: z + q <= 2*(n/2) + 1, and (2*(n/2) + 1) / 2 == n/2
                lemma_div_is_ordered((zv + qv) as int, 2 * (n / 2) as int + 1, 2);
                lemma_fundamental_div_mod_converse_div(2 * (n / 2) as int + 1, 2, n as int / 2, 1);
                // if the step did not go below z, then z * z <= n
                lemma_fundamental_div_mod((zv + qv) as int, 2);
                lemma_mod_bound((zv + qv) as int, 2);
                if x2.val() >= zv {
                    assert(qv >= zv);
                    assert(zv * zv <= zv * qv <= n) by (nonlinear_arith)
                        requires
                            zv <= qv,
                            zv * qv <= n,
                    ;
                }
            }
            x = x2;
        }
        proof {
            assert(z.val() * z.val() <= n);
            assert(z.val() <= s) by (nonlinear_arith)
                requires
                    z.val() * z.val() <= n,
                    n < (s + 1) * (s + 1),
                    z.val() >= 0,
            ;
        }
        z
    } else if y.is_zero() {
        proof {
            assert(floor_sqrt(0) == 0);
        }
        Amount::zero()
    } else {
        proof {
            assert(1 <= n <= 3);
            assert(1nat * 1nat == 1nat) by (nonlinear_arith);
            assert((1nat + 1) * (1nat + 1) == 4nat) by (nonlinear_arith);
            lemma_sqrt_unique(n, s, 1nat);
        }
        Amount::from_u128(1)
    }
}

} // verus!
