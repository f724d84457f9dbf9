//! The pair engine: reserves, pricing invariant, protocol fee and the
//! time-weighted price accumulator, over an embedded claim-token ledger.
//!
//! Reading the pooled assets' external balances and moving those assets are
//! the host's work: every operation takes the balances it would have read as
//! arguments, and an operation that in between hands control back to the
//! host (withdrawing assets in `burn`, the optimistic transfer and callback
//! of `swap`) is split into a step that decides and mutates the ledger and a
//! step that re-syncs the reserves afterwards.

use vstd::prelude::*;
use crate::address::Address;
use crate::amount::Amount;
use crate::amount::two_pow_112;
use crate::amount::two_pow_256;
use crate::amount::u256_checked_add;
use crate::amount::u256_checked_mul;
use crate::amount::u256_checked_sub;
use crate::amount::u256_div;
use crate::erc20::TokenMeta;
use crate::erc20::UniswapV2ERC20;
use crate::errors::Error;
use crate::math::floor_sqrt;
use crate::math::sqrt;

verus! {

/// Units of the claim token locked forever at the zero address by the
/// first deposit.
pub const MINIMUM_LIQUIDITY: u128 = 1000;

pub open spec fn min_nat(a: nat, b: nat) -> nat {
    if a <= b {
        a
    } else {
        b
    }
}

/// A timestamp reduced to the 32 bits the pair records.
pub open spec fn ts_mod(timestamp: u64) -> nat {
    (timestamp % 0x100000000) as nat
}

pub struct UniswapV2Pair {
    pub factory: Address,
    pub token0: Address,
    pub token1: Address,
    pub fee_to: Address,
    pub reserve0: Amount,
    pub reserve1: Amount,
    pub block_timestamp_last: u32,
    pub price0_cumulative_last: Amount,
    pub price1_cumulative_last: Amount,
    pub k_last: Amount,
    pub token: UniswapV2ERC20,
}

impl UniswapV2Pair {
    /// Well-formedness: the ledger's invariant, and reserves that fit the
    /// 112 bits they are recorded in.
    pub open spec fn wf(self) -> bool {
        &&& self.token.wf()
        &&& self.reserve0.val() < two_pow_112()
        &&& self.reserve1.val() < two_pow_112()
    }

    /// A nonzero factory is the record that `initialize` has run.
    pub open spec fn initialized(self) -> bool {
        !self.factory.is_zero_spec()
    }

    /// The protocol-fee switch: set when a fee collector is recorded.
    pub open spec fn fee_on(self) -> bool {
        !self.fee_to.is_zero_spec()
    }

    /// The protocol-fee liquidity owed for the growth of `sqrt(k)` since
    /// the last fee-bearing sync; zero when none is owed.
    pub open spec fn fee_liq_spec(self) -> nat {
        let rk = floor_sqrt(self.reserve0.val() * self.reserve1.val());
        let rkl = floor_sqrt(self.k_last.val());
        if self.fee_on() && self.k_last.val() != 0 && rk > rkl {
            (self.token.total() * ((rk - rkl) as nat)) / (rk * 5 + rkl)
        } else {
            0
        }
    }

    /// Whether computing the fee numerator exceeds 256 bits.
    pub open spec fn fee_overflows(self) -> bool {
        let rk = floor_sqrt(self.reserve0.val() * self.reserve1.val());
        let rkl = floor_sqrt(self.k_last.val());
        &&& self.fee_on()
        &&& self.k_last.val() != 0
        &&& rk > rkl
        &&& self.token.total() * ((rk - rkl) as nat) >= two_pow_256()
    }

    /// Seconds elapsed since the last sync, modulo 2^32.
    pub open spec fn elapsed_spec(self, timestamp: u64) -> nat {
        ((ts_mod(timestamp) + 0x100000000 - self.block_timestamp_last) % 0x100000000) as nat
    }

    /// The accumulator only advances when time has passed and both
    /// reserves are nonzero.
    pub open spec fn accum_active(self, timestamp: u64) -> bool {
        &&& self.elapsed_spec(timestamp) > 0
        &&& self.reserve0.val() > 0
        &&& self.reserve1.val() > 0
    }

    /// What one sync adds to the first price accumulator: the marginal
    /// price of the first asset in the second, in Q112 fixed point, times
    /// the elapsed time.
    pub open spec fn step0(self, timestamp: u64) -> nat {
        (self.reserve1.val() * two_pow_112() / self.reserve0.val()) * self.elapsed_spec(timestamp)
    }

    pub open spec fn step1(self, timestamp: u64) -> nat {
        (self.reserve0.val() * two_pow_112() / self.reserve1.val()) * self.elapsed_spec(timestamp)
    }

    pub open spec fn new_price0(self, timestamp: u64) -> nat {
        if self.accum_active(timestamp) {
            self.price0_cumulative_last.val() + self.step0(timestamp)
        } else {
            self.price0_cumulative_last.val()
        }
    }

    pub open spec fn new_price1(self, timestamp: u64) -> nat {
        if self.accum_active(timestamp) {
            self.price1_cumulative_last.val() + self.step1(timestamp)
        } else {
            self.price1_cumulative_last.val()
        }
    }

    /// When a sync to the given balances goes through: they fit the
    /// reserves' 112 bits and neither accumulator overflows.
    pub open spec fn sync_ok(self, b0: nat, b1: nat, timestamp: u64) -> bool {
        &&& b0 < two_pow_112()
        &&& b1 < two_pow_112()
        &&& self.new_price0(timestamp) < two_pow_256()
        &&& self.new_price1(timestamp) < two_pow_256()
    }

    /// A fresh, uninitialized pair with an empty ledger.
    pub fn new(meta: TokenMeta) -> (r: UniswapV2Pair)
        ensures
            r.wf(),
            !r.initialized(),
            r.token.total() == 0,
            forall|a: Address| #[trigger] r.token.bal(a) == 0,
            r.reserve0.val() == 0,
            r.reserve1.val() == 0,
            r.k_last.val() == 0,
            r.price0_cumulative_last.val() == 0,
            r.price1_cumulative_last.val() == 0,
            r.block_timestamp_last == 0,
            r.token.meta == meta,
    {
        UniswapV2Pair {
            factory: Address::zero(),
            token0: Address::zero(),
            token1: Address::zero(),
            fee_to: Address::zero(),
            reserve0: Amount::zero(),
            reserve1: Amount::zero(),
            block_timestamp_last: 0,
            price0_cumulative_last: Amount::zero(),
            price1_cumulative_last: Amount::zero(),
            k_last: Amount::zero(),
            token: UniswapV2ERC20::new(meta),
        }
    }

    /// Record the caller as factory and store the asset and fee addresses;
    /// single-shot, refused once the factory is set.
    pub fn initialize(&mut self, sender: Address, token0: Address, token1: Address, fee_to: Address)
        -> (r: Result<(), Error>)
        ensures
            (r is Ok) <==> !old(self).initialized(),
            (r matches Err(e) ==> e == Error::AlreadyInitialized && *final(self) == *old(self)),
            r is Ok ==> *final(self) == (UniswapV2Pair {
                factory: sender,
                token0: token0,
                token1: token1,
                fee_to: fee_to,
                ..*old(self)
            }),
    {
        if !self.factory.is_zero() {
            return Err(Error::AlreadyInitialized);
        }
        self.factory = sender;
        self.token0 = token0;
        self.token1 = token1;
        self.fee_to = fee_to;
        Ok(())
    }

    /// The cached reserves; a pure read, no external call.
    pub fn get_reserves(&self) -> (r: (Amount, Amount))
        ensures
            r.0.val() == self.reserve0.val(),
            r.1.val() == self.reserve1.val(),
    {
        (self.reserve0, self.reserve1)
    }

    /// The price accumulators and timestamp one sync would record; refused
    /// exactly when an accumulator would overflow or a balance does not
    /// fit a reserve. A pure computation: callers mutate nothing before
    /// knowing the whole transition goes through.
    fn sync_compute(&self, balance0: Amount, balance1: Amount, timestamp: u64) -> (r: Result<
        (Amount, Amount, u32),
        Error,
    >)
        requires
            self.wf(),
        ensures
            (r is Ok) <==> self.sync_ok(balance0.val(), balance1.val(), timestamp),
            (r matches Err(e) ==> e == Error::ArithmeticOverflow),
            (r matches Ok(v) ==> {
                &&& v.0.val() == self.new_price0(timestamp)
                &&& v.1.val() == self.new_price1(timestamp)
                &&& v.2 as nat == ts_mod(timestamp)
            }),
    {
        let ts32: u64 = timestamp % 0x100000000;
        let last: u64 = self.block_timestamp_last as u64;
        let te: u64 = (ts32 + 0x100000000 - last) % 0x100000000;
        if !balance0.fits_reserve() || !balance1.fits_reserve() {
            return Err(Error::ArithmeticOverflow);
        }
        if te > 0 && !self.reserve0.is_zero() && !self.reserve1.is_zero() {
            let q112 = Amount::from_u128(0x10000000000000000000000000000);
            proof {
                crate::amount::lemma_val_parts(self.reserve0);
                crate::amount::lemma_val_parts(self.reserve1);
                assert(self.reserve1.val() * two_pow_112() < two_pow_256()) by (nonlinear_arith)
                    requires
                        self.reserve1.val() < two_pow_112(),
                ;
                assert(self.reserve0.val() * two_pow_112() < two_pow_256()) by (nonlinear_arith)
                    requires
                        self.reserve0.val() < two_pow_112(),
                ;
            }
            let te_amt = Amount::from_u128(te as u128);
            let m0 = u256_checked_mul(self.reserve1, q112).unwrap();
            let frac0 = u256_div(m0, self.reserve0);
            let m1 = u256_checked_mul(self.reserve0, q112).unwrap();
            let frac1 = u256_div(m1, self.reserve1);
            let step0 = match u256_checked_mul(frac0, te_amt) {
                Some(v) => v,
                None => {
                    return Err(Error::ArithmeticOverflow);
                },
            };
            let step1 = match u256_checked_mul(frac1, te_amt) {
                Some(v) => v,
                None => {
                    return Err(Error::ArithmeticOverflow);
                },
            };
            let np0 = match u256_checked_add(self.price0_cumulative_last, step0) {
                Some(v) => v,
                None => {
                    return Err(Error::ArithmeticOverflow);
                },
            };
            let np1 = match u256_checked_add(self.price1_cumulative_last, step1) {
                Some(v) => v,
                None => {
                    return Err(Error::ArithmeticOverflow);
                },
            };
            Ok((np0, np1, (ts32 as u32)))
        } else {
            Ok((self.price0_cumulative_last, self.price1_cumulative_last, (ts32 as u32)))
        }
    }

    /// Overwrite the reserves with the given balances and record the
    /// accumulators and timestamp a sync computed. Pure bookkeeping; the
    /// ledger and the configuration are untouched.
    fn sync_apply(&mut self, balance0: Amount, balance1: Amount, vals: (Amount, Amount, u32))
        requires
            balance0.val() < two_pow_112(),
            balance1.val() < two_pow_112(),
        ensures
            *final(self) == (UniswapV2Pair {
                reserve0: balance0,
                reserve1: balance1,
                price0_cumulative_last: vals.0,
                price1_cumulative_last: vals.1,
                block_timestamp_last: vals.2,
                ..*old(self)
            }),
    {
        self.reserve0 = balance0;
        self.reserve1 = balance1;
        self.price0_cumulative_last = vals.0;
        self.price1_cumulative_last = vals.1;
        self.block_timestamp_last = vals.2;
    }

    /// Sync the reserves to the given balances, advancing the price
    /// accumulators first; all 256-bit arithmetic checked.
    pub fn _update(&mut self, balance0: Amount, balance1: Amount, timestamp: u64) -> (r: Result<
        (),
        Error,
    >)
        requires
            old(self).wf(),
        ensures
            final(self).wf(),
            (r is Ok) <==> old(self).sync_ok(balance0.val(), balance1.val(), timestamp),
            (r matches Err(e) ==> e == Error::ArithmeticOverflow && *final(self) == *old(self)),
            r is Ok ==> {
                &&& final(self).reserve0.val() == balance0.val()
                &&& final(self).reserve1.val() == balance1.val()
                &&& final(self).price0_cumulative_last.val() == old(self).new_price0(timestamp)
                &&& final(self).price1_cumulative_last.val() == old(self).new_price1(timestamp)
                &&& final(self).block_timestamp_last as nat == ts_mod(timestamp)
                &&& final(self).token == old(self).token
                &&& final(self).k_last == old(self).k_last
                &&& final(self).factory == old(self).factory
                &&& final(self).token0 == old(self).token0
                &&& final(self).token1 == old(self).token1
                &&& final(self).fee_to == old(self).fee_to
            },
    {
        let vals = match self.sync_compute(balance0, balance1, timestamp) {
            Ok(v) => v,
            Err(e) => {
                return Err(e);
            },
        };
        self.sync_apply(balance0, balance1, vals);
        Ok(())
    }

    /// The protocol-fee liquidity owed right now, a pure computation;
    /// refused exactly when the fee numerator exceeds 256 bits.
    fn fee_liquidity(&self) -> (r: Result<Amount, Error>)
        requires
            self.wf(),
        ensures
            (r is Ok) <==> !self.fee_overflows(),
            (r matches Err(e) ==> e == Error::ArithmeticOverflow),
            (r matches Ok(a) ==> a.val() == self.fee_liq_spec()),
    {
        if self.fee_to.is_zero() {
            return Ok(Amount::zero());
        }
        if self.k_last.is_zero() {
            return Ok(Amount::zero());
        }
        proof {
            assert(self.reserve0.val() * self.reserve1.val() < two_pow_112() * two_pow_112())
                by (nonlinear_arith)
                requires
                    self.reserve0.val() < two_pow_112(),
                    self.reserve1.val() < two_pow_112(),
            ;
            crate::math::lemma_floor_sqrt_below(
                self.reserve0.val() * self.reserve1.val(),
                two_pow_112(),
            );
            crate::amount::lemma_val_parts(self.k_last);
            crate::math::lemma_floor_sqrt_below(self.k_last.val(), crate::amount::two_pow_128());
        }
        let prod = u256_checked_mul(self.reserve0, self.reserve1).unwrap();
        let rk = sqrt(prod);
        let rkl = sqrt(self.k_last);
        if rkl.lt(&rk) {
            let diff = u256_checked_sub(rk, rkl).unwrap();
            let numerator = match u256_checked_mul(self.token.totalSupply(), diff) {
                Some(v) => v,
                None => {
                    return Err(Error::ArithmeticOverflow);
                },
            };
            let five = Amount::from_u128(5);
            let m5 = u256_checked_mul(rk, five).unwrap();
            let denominator = u256_checked_add(m5, rkl).unwrap();
            let liq = u256_div(numerator, denominator);
            Ok(liq)
        } else {
            Ok(Amount::zero())
        }
    }

    /// The decision `mint` makes for given balances: the liquidity minted
    /// to the depositor, or the failure, with each error tied to exactly
    /// the inputs that cause it.
    pub open spec fn mint_outcome(self, b0: nat, b1: nat, timestamp: u64) -> Result<nat, Error> {
        let r0 = self.reserve0.val();
        let r1 = self.reserve1.val();
        if b0 < r0 || b1 < r1 {
            Err(Error::ArithmeticUnderflow)
        } else {
            let a0 = (b0 - r0) as nat;
            let a1 = (b1 - r1) as nat;
            if self.fee_overflows() {
                Err(Error::ArithmeticOverflow)
            } else {
                let ts2 = self.token.total() + self.fee_liq_spec();
                if ts2 >= two_pow_256() {
                    Err(Error::ArithmeticOverflow)
                } else if ts2 == 0 {
                    if a0 * a1 >= two_pow_256() {
                        Err(Error::ArithmeticOverflow)
                    } else if floor_sqrt(a0 * a1) < 1000 {
                        Err(Error::ArithmeticUnderflow)
                    } else {
                        let liq = (floor_sqrt(a0 * a1) - 1000) as nat;
                        if liq == 0 {
                            Err(Error::LiquidityIsZero)
                        } else if !self.sync_ok(b0, b1, timestamp) {
                            Err(Error::ArithmeticOverflow)
                        } else {
                            Ok(liq)
                        }
                    }
                } else if r0 == 0 || r1 == 0 {
                    Err(Error::ArithmeticOverflow)
                } else if a0 * ts2 >= two_pow_256() || a1 * ts2 >= two_pow_256() {
                    Err(Error::ArithmeticOverflow)
                } else {
                    let liq = min_nat(a0 * ts2 / r0, a1 * ts2 / r1);
                    if liq == 0 {
                        Err(Error::LiquidityIsZero)
                    } else if ts2 + liq >= two_pow_256() {
                        Err(Error::ArithmeticOverflow)
                    } else if !self.sync_ok(b0, b1, timestamp) {
                        Err(Error::ArithmeticOverflow)
                    } else {
                        Ok(liq)
                    }
                }
            }
        }
    }

    /// The state a successful `mint` leaves behind, relative to the state
    /// it started from.
    pub open spec fn mint_post(pre: UniswapV2Pair, post: UniswapV2Pair, to: Address, b0: nat, b1: nat, timestamp: u64, l: nat) -> bool {
        let fee = pre.fee_liq_spec();
        let ts2 = pre.token.total() + fee;
        &&& post.reserve0.val() == b0
        &&& post.reserve1.val() == b1
        &&& post.price0_cumulative_last.val() == pre.new_price0(timestamp)
        &&& post.price1_cumulative_last.val() == pre.new_price1(timestamp)
        &&& post.block_timestamp_last as nat == ts_mod(timestamp)
        &&& post.k_last.val() == (if pre.fee_on() { b0 * b1 } else { 0nat })
        &&& post.token.total() == ts2 + l + (if ts2 == 0 { 1000nat } else { 0nat })
        &&& (forall|a: Address| #[trigger] post.token.bal(a) == pre.token.bal(a)
                + (if a == pre.fee_to && fee > 0 { fee } else { 0nat })
                + (if ts2 == 0 && a == (Address { hi: 0u32, lo: 0u128 }) { 1000nat } else { 0nat })
                + (if a == to { l } else { 0nat }))
        &&& post.token.allowances@ == pre.token.allowances@
        &&& post.token.meta == pre.token.meta
        &&& post.factory == pre.factory
        &&& post.token0 == pre.token0
        &&& post.token1 == pre.token1
        &&& post.fee_to == pre.fee_to
    }

    /// Credit a deposit: the depositor owes the difference between the
    /// given external balances and the cached reserves, and is minted the
    /// matching share of the claim token; the first deposit locks
    /// `MINIMUM_LIQUIDITY` at the zero address. Syncs the reserves.
    pub fn mint(&mut self, to: Address, balance0: Amount, balance1: Amount, timestamp: u64) -> (r:
        Result<Amount, Error>)
        requires
            old(self).wf(),
            old(self).initialized(),
        ensures
            final(self).wf(),
            (r matches Err(e) ==> *final(self) == *old(self) && Err::<nat, Error>(e) == old(
                self,
            ).mint_outcome(balance0.val(), balance1.val(), timestamp)),
            (r matches Ok(l) ==> Ok::<nat, Error>(l.val()) == old(self).mint_outcome(
                balance0.val(),
                balance1.val(),
                timestamp,
            ) && Self::mint_post(
                *old(self),
                *final(self),
                to,
                balance0.val(),
                balance1.val(),
                timestamp,
                l.val(),
            )),
    {
        let amount0 = match u256_checked_sub(balance0, self.reserve0) {
            Some(v) => v,
            None => {
                return Err(Error::ArithmeticUnderflow);
            },
        };
        let amount1 = match u256_checked_sub(balance1, self.reserve1) {
            Some(v) => v,
            None => {
                return Err(Error::ArithmeticUnderflow);
            },
        };
        let fee = match self.fee_liquidity() {
            Ok(f) => f,
            Err(e) => {
                return Err(e);
            },
        };
        let total2 = match u256_checked_add(self.token.totalSupply(), fee) {
            Some(v) => v,
            None => {
                return Err(Error::ArithmeticOverflow);
            },
        };
        let bootstrap = total2.is_zero();
        let liquidity: Amount;
        if bootstrap {
            let prod = match u256_checked_mul(amount0, amount1) {
                Some(v) => v,
                None => {
                    return Err(Error::ArithmeticOverflow);
                },
            };
            let root = sqrt(prod);
            proof {
                crate::math::lemma_floor_sqrt_le(prod.val());
                crate::amount::lemma_val_parts(prod);
            }
            let minliq = Amount::from_u128(MINIMUM_LIQUIDITY);
            liquidity = match u256_checked_sub(root, minliq) {
                Some(v) => v,
                None => {
                    return Err(Error::ArithmeticUnderflow);
                },
            };
        } else {
            if self.reserve0.is_zero() || self.reserve1.is_zero() {
                return Err(Error::ArithmeticOverflow);
            }
            let x0 = match u256_checked_mul(amount0, total2) {
                Some(v) => v,
                None => {
                    return Err(Error::ArithmeticOverflow);
                },
            };
            let l0 = u256_div(x0, self.reserve0);
            let x1 = match u256_checked_mul(amount1, total2) {
                Some(v) => v,
                None => {
                    return Err(Error::ArithmeticOverflow);
                },
            };
            let l1 = u256_div(x1, self.reserve1);
            liquidity = l0.min(l1);
        }
        if liquidity.is_zero() {
            return Err(Error::LiquidityIsZero);
        }
        if !bootstrap {
            match u256_checked_add(total2, liquidity) {
                Some(_) => (),
                None => {
                    return Err(Error::ArithmeticOverflow);
                },
            };
        }
        let vals = match self.sync_compute(balance0, balance1, timestamp) {
            Ok(v) => v,
            Err(e) => {
                return Err(e);
            },
        };
        if !fee.is_zero() {
            self.token._mint(self.fee_to, fee);
        }
        if bootstrap {
            self.token._mint(Address::zero(), Amount::from_u128(MINIMUM_LIQUIDITY));
        }
        self.token._mint(to, liquidity);
        self.sync_apply(balance0, balance1, vals);
        if !self.fee_to.is_zero() {
            proof {
                assert(self.reserve0.val() * self.reserve1.val() < two_pow_256())
                    by (nonlinear_arith)
                    requires
                        self.reserve0.val() < two_pow_112(),
                        self.reserve1.val() < two_pow_112(),
                ;
            }
            self.k_last = u256_checked_mul(self.reserve0, self.reserve1).unwrap();
        } else if !self.k_last.is_zero() {
            self.k_last = Amount::zero();
        }
        Ok(liquidity)
    }

    /// The decision `burn` makes: the pair's own claim-token balance is
    /// redeemed for a proportional share of both given balances.
    pub open spec fn burn_outcome(self, pair: Address, b0: nat, b1: nat) -> Result<
        (nat, nat),
        Error,
    > {
        let liq = self.token.bal(pair);
        if self.fee_overflows() {
            Err(Error::ArithmeticOverflow)
        } else {
            let ts2 = self.token.total() + self.fee_liq_spec();
            if ts2 >= two_pow_256() {
                Err(Error::ArithmeticOverflow)
            } else if liq * b0 >= two_pow_256() {
                Err(Error::ArithmeticOverflow)
            } else if ts2 == 0 {
                Err(Error::ArithmeticOverflow)
            } else if liq * b1 >= two_pow_256() {
                Err(Error::ArithmeticOverflow)
            } else {
                let a0 = liq * b0 / ts2;
                let a1 = liq * b1 / ts2;
                if a0 == 0 || a1 == 0 {
                    Err(Error::InsufficientLiquidityBurned)
                } else {
                    Ok((a0, a1))
                }
            }
        }
    }

    /// The state a successful `burn` leaves behind: the pair's claim-token
    /// balance is destroyed, the fee minted, reserves untouched until
    /// `burn_finalize`.
    pub open spec fn burn_post(pre: UniswapV2Pair, post: UniswapV2Pair, pair: Address) -> bool {
        let liq = pre.token.bal(pair);
        let fee = pre.fee_liq_spec();
        &&& post.token.total() + liq == pre.token.total() + fee
        &&& (forall|a: Address| #[trigger] post.token.bal(a) + (if a == pair { liq } else { 0nat })
                == pre.token.bal(a) + (if a == pre.fee_to && fee > 0 { fee } else { 0nat }))
        &&& post.token.allowances@ == pre.token.allowances@
        &&& post.token.meta == pre.token.meta
        &&& post.reserve0 == pre.reserve0
        &&& post.reserve1 == pre.reserve1
        &&& post.price0_cumulative_last == pre.price0_cumulative_last
        &&& post.price1_cumulative_last == pre.price1_cumulative_last
        &&& post.block_timestamp_last == pre.block_timestamp_last
        &&& post.k_last.val() == (if pre.fee_on() { pre.k_last.val() } else { 0nat })
        &&& post.factory == pre.factory
        &&& post.token0 == pre.token0
        &&& post.token1 == pre.token1
        &&& post.fee_to == pre.fee_to
    }

    /// Redeem the claim tokens held by the pair itself (at address `pair`)
    /// for a proportional share of the given external balances. The caller
    /// then pays the two amounts out and calls `burn_finalize` with the
    /// balances after the withdrawal.
    pub fn burn(&mut self, pair: Address, balance0: Amount, balance1: Amount) -> (r: Result<
        (Amount, Amount),
        Error,
    >)
        requires
            old(self).wf(),
            old(self).initialized(),
        ensures
            final(self).wf(),
            (r matches Err(e) ==> *final(self) == *old(self) && Err::<(nat, nat), Error>(e) == old(
                self,
            ).burn_outcome(pair, balance0.val(), balance1.val())),
            (r matches Ok(v) ==> Ok::<(nat, nat), Error>((v.0.val(), v.1.val())) == old(
                self,
            ).burn_outcome(pair, balance0.val(), balance1.val()) && Self::burn_post(
                *old(self),
                *final(self),
                pair,
            )),
    {
        let liq = self.token.balanceOf(pair);
        let fee = match self.fee_liquidity() {
            Ok(f) => f,
            Err(e) => {
                return Err(e);
            },
        };
        let total2 = match u256_checked_add(self.token.totalSupply(), fee) {
            Some(v) => v,
            None => {
                return Err(Error::ArithmeticOverflow);
            },
        };
        let x0 = match u256_checked_mul(liq, balance0) {
            Some(v) => v,
            None => {
                return Err(Error::ArithmeticOverflow);
            },
        };
        if total2.is_zero() {
            return Err(Error::ArithmeticOverflow);
        }
        let amount0 = u256_div(x0, total2);
        let x1 = match u256_checked_mul(liq, balance1) {
            Some(v) => v,
            None => {
                return Err(Error::ArithmeticOverflow);
            },
        };
        let amount1 = u256_div(x1, total2);
        if amount0.is_zero() || amount1.is_zero() {
            return Err(Error::InsufficientLiquidityBurned);
        }
        proof {
            crate::erc20::lemma_bal_le_total(self.token, pair);
        }
        if !fee.is_zero() {
            self.token._mint(self.fee_to, fee);
        }
        let br = self.token._burn(pair, liq);
        proof {
            assert(br is Ok);
        }
        if self.fee_to.is_zero() && !self.k_last.is_zero() {
            self.k_last = Amount::zero();
        }
        Ok((amount0, amount1))
    }

    /// Re-sync the reserves to the balances left after a withdrawal, and
    /// refresh the fee snapshot `k_last` when the fee switch is on.
    pub fn burn_finalize(&mut self, balance0: Amount, balance1: Amount, timestamp: u64) -> (r:
        Result<(), Error>)
        requires
            old(self).wf(),
        ensures
            final(self).wf(),
            (r is Ok) <==> old(self).sync_ok(balance0.val(), balance1.val(), timestamp),
            (r matches Err(e) ==> e == Error::ArithmeticOverflow && *final(self) == *old(self)),
            r is Ok ==> {
                &&& final(self).reserve0.val() == balance0.val()
                &&& final(self).reserve1.val() == balance1.val()
                &&& final(self).price0_cumulative_last.val() == old(self).new_price0(timestamp)
                &&& final(self).price1_cumulative_last.val() == old(self).new_price1(timestamp)
                &&& final(self).block_timestamp_last as nat == ts_mod(timestamp)
                &&& final(self).k_last.val() == (if old(self).fee_on() {
                    balance0.val() * balance1.val()
                } else {
                    old(self).k_last.val()
                })
                &&& final(self).token == old(self).token
                &&& final(self).factory == old(self).factory
                &&& final(self).token0 == old(self).token0
                &&& final(self).token1 == old(self).token1
                &&& final(self).fee_to == old(self).fee_to
            },
    {
        match self._update(balance0, balance1, timestamp) {
            Ok(()) => (),
            Err(e) => {
                return Err(e);
            },
        };
        if !self.fee_to.is_zero() {
            proof {
                assert(self.reserve0.val() * self.reserve1.val() < two_pow_256())
                    by (nonlinear_arith)
                    requires
                        self.reserve0.val() < two_pow_112(),
                        self.reserve1.val() < two_pow_112(),
                ;
            }
            self.k_last = u256_checked_mul(self.reserve0, self.reserve1).unwrap();
        }
        Ok(())
    }

    /// The decision `swap` makes once the requested outputs have been paid
    /// out optimistically and the balances re-read: the inputs implied by
    /// the balances, or the failure.
    pub open spec fn swap_outcome(
        self,
        a0out: nat,
        a1out: nat,
        b0: nat,
        b1: nat,
        timestamp: u64,
    ) -> Result<(nat, nat), Error> {
        let r0 = self.reserve0.val();
        let r1 = self.reserve1.val();
        if a0out == 0 && a1out == 0 {
            Err(Error::InsufficientOutputAmount)
        } else if a0out >= r0 || a1out >= r1 {
            Err(Error::InsufficientLiquidity)
        } else {
            let a0in = if b0 + a0out > r0 { (b0 + a0out - r0) as nat } else { 0nat };
            let a1in = if b1 + a1out > r1 { (b1 + a1out - r1) as nat } else { 0nat };
            if a0in == 0 && a1in == 0 {
                Err(Error::InsufficientInputAmount)
            } else if b0 * 1000 >= two_pow_256() || b1 * 1000 >= two_pow_256() {
                Err(Error::ArithmeticOverflow)
            } else {
                let adj0 = (b0 * 1000 - 3 * a0in) as nat;
                let adj1 = (b1 * 1000 - 3 * a1in) as nat;
                if adj0 * adj1 >= two_pow_256() {
                    Err(Error::ArithmeticOverflow)
                } else if adj0 * adj1 < r0 * r1 * 1000000 {
                    Err(Error::KInvariantViolated)
                } else if !self.sync_ok(b0, b1, timestamp) {
                    Err(Error::ArithmeticOverflow)
                } else {
                    Ok((a0in, a1in))
                }
            }
        }
    }

    /// The checks `swap` makes before anything is paid out: some output is
    /// requested and both outputs are covered by the reserves. Callers run
    /// this before the optimistic transfer.
    pub fn swap_precheck(&self, amount0_out: Amount, amount1_out: Amount) -> (r: Result<(), Error>)
        ensures
            (r is Ok) <==> (!(amount0_out.val() == 0 && amount1_out.val() == 0) && amount0_out.val()
                < self.reserve0.val() && amount1_out.val() < self.reserve1.val()),
            (r matches Err(e) ==> e == (if amount0_out.val() == 0 && amount1_out.val() == 0 {
                Error::InsufficientOutputAmount
            } else {
                Error::InsufficientLiquidity
            })),
    {
        if amount0_out.is_zero() && amount1_out.is_zero() {
            return Err(Error::InsufficientOutputAmount);
        }
        if !amount0_out.lt(&self.reserve0) || !amount1_out.lt(&self.reserve1) {
            return Err(Error::InsufficientLiquidity);
        }
        Ok(())
    }

    /// Settle a swap: derive the inputs from the given post-transfer
    /// balances, enforce the fee-adjusted constant-product invariant
    /// against the old reserves, and sync. The ledger is untouched.
    pub fn swap(
        &mut self,
        amount0_out: Amount,
        amount1_out: Amount,
        balance0: Amount,
        balance1: Amount,
        timestamp: u64,
    ) -> (r: Result<(Amount, Amount), Error>)
        requires
            old(self).wf(),
            old(self).initialized(),
        ensures
            final(self).wf(),
            (r matches Err(e) ==> *final(self) == *old(self) && Err::<(nat, nat), Error>(e) == old(
                self,
            ).swap_outcome(
                amount0_out.val(),
                amount1_out.val(),
                balance0.val(),
                balance1.val(),
                timestamp,
            )),
            (r matches Ok(v) ==> Ok::<(nat, nat), Error>((v.0.val(), v.1.val())) == old(
                self,
            ).swap_outcome(
                amount0_out.val(),
                amount1_out.val(),
                balance0.val(),
                balance1.val(),
                timestamp,
            )),
            (r matches Ok(v) ==> {
                &&& (balance0.val() * 1000 - 3 * v.0.val()) * (balance1.val() * 1000 - 3
                    * v.1.val()) >= old(self).reserve0.val() * old(self).reserve1.val() * 1000000
                &&& final(self).reserve0.val() == balance0.val()
                &&& final(self).reserve1.val() == balance1.val()
                &&& final(self).price0_cumulative_last.val() == old(self).new_price0(timestamp)
                &&& final(self).price1_cumulative_last.val() == old(self).new_price1(timestamp)
                &&& final(self).block_timestamp_last as nat == ts_mod(timestamp)
                &&& final(self).token == old(self).token
                &&& final(self).k_last == old(self).k_last
                &&& final(self).factory == old(self).factory
                &&& final(self).token0 == old(self).token0
                &&& final(self).token1 == old(self).token1
                &&& final(self).fee_to == old(self).fee_to
            }),
    {
        if amount0_out.is_zero() && amount1_out.is_zero() {
            return Err(Error::InsufficientOutputAmount);
        }
        if !amount0_out.lt(&self.reserve0) || !amount1_out.lt(&self.reserve1) {
            return Err(Error::InsufficientLiquidity);
        }
        let r0less = u256_checked_sub(self.reserve0, amount0_out).unwrap();
        let r1less = u256_checked_sub(self.reserve1, amount1_out).unwrap();
        let amount0_in = match u256_checked_sub(balance0, r0less) {
            Some(v) => v,
            None => Amount::zero(),
        };
        let amount1_in = match u256_checked_sub(balance1, r1less) {
            Some(v) => v,
            None => Amount::zero(),
        };
        if amount0_in.is_zero() && amount1_in.is_zero() {
            return Err(Error::InsufficientInputAmount);
        }
        let thousand = Amount::from_u128(1000);
        let three = Amount::from_u128(3);
        let m0 = match u256_checked_mul(balance0, thousand) {
            Some(v) => v,
            None => {
                return Err(Error::ArithmeticOverflow);
            },
        };
        let m1 = match u256_checked_mul(balance1, thousand) {
            Some(v) => v,
            None => {
                return Err(Error::ArithmeticOverflow);
            },
        };
        proof {
            assert(3 * amount0_in.val() <= 1000 * balance0.val()) by (nonlinear_arith)
                requires
                    amount0_in.val() <= balance0.val(),
            ;
            assert(3 * amount1_in.val() <= 1000 * balance1.val()) by (nonlinear_arith)
                requires
                    amount1_in.val() <= balance1.val(),
            ;
        }
        let f0 = u256_checked_mul(amount0_in, three).unwrap();
        let f1 = u256_checked_mul(amount1_in, three).unwrap();
        let adj0 = u256_checked_sub(m0, f0).unwrap();
        let adj1 = u256_checked_sub(m1, f1).unwrap();
        proof {
            assert(self.reserve0.val() * self.reserve1.val() * 1000000 < two_pow_256())
                by (nonlinear_arith)
                requires
                    self.reserve0.val() < two_pow_112(),
                    self.reserve1.val() < two_pow_112(),
            ;
        }
        let k0 = u256_checked_mul(self.reserve0, self.reserve1).unwrap();
        let million = Amount::from_u128(1000000);
        let k = u256_checked_mul(k0, million).unwrap();
        let lhs = match u256_checked_mul(adj0, adj1) {
            Some(v) => v,
            None => {
                return Err(Error::ArithmeticOverflow);
            },
        };
        if lhs.lt(&k) {
            return Err(Error::KInvariantViolated);
        }
        match self._update(balance0, balance1, timestamp) {
            Ok(()) => (),
            Err(e) => {
                return Err(e);
            },
        };
        Ok((amount0_in, amount1_in))
    }
}

} // verus!
