use uniswap_v2_pair::address::Address;
use uniswap_v2_pair::amount::Amount;
use uniswap_v2_pair::erc20::TokenMeta;
use uniswap_v2_pair::errors::Error;
use uniswap_v2_pair::math::sqrt;
use uniswap_v2_pair::pair::UniswapV2Pair;

fn amt(x: u128) -> Amount {
    Amount::from_u128(x)
}

fn addr(n: u128) -> Address {
    Address { hi: 0, lo: n }
}

fn meta() -> TokenMeta {
    TokenMeta {
        name: String::from("Stylus Uniswap V2"),
        symbol: String::from("STYLUS-UNI-V2"),
        decimals: 18,
    }
}

fn fresh_pair(fee_to: Address) -> UniswapV2Pair {
    let mut p = UniswapV2Pair::new(meta());
    p.initialize(addr(900), addr(901), addr(902), fee_to).unwrap();
    p
}

fn zero_addr() -> Address {
    Address { hi: 0, lo: 0 }
}

#[test]
fn initialize_sets_state_once() {
    let mut p = UniswapV2Pair::new(meta());
    assert_eq!(p.initialize(addr(900), addr(901), addr(902), zero_addr()), Ok(()));
    assert_eq!(p.factory, addr(900));
    assert_eq!(p.token0, addr(901));
    assert_eq!(p.token1, addr(902));
}

#[test]
fn second_initialize_fails_and_leaves_state() {
    let mut p = fresh_pair(zero_addr());
    let r = p.initialize(addr(7), addr(8), addr(9), addr(10));
    assert_eq!(r, Err(Error::AlreadyInitialized));
    assert_eq!(p.factory, addr(900));
    assert_eq!(p.token0, addr(901));
    assert_eq!(p.token1, addr(902));
}

#[test]
fn bootstrap_mint_locks_minimum_liquidity() {
    let mut p = fresh_pair(zero_addr());
    let provider = addr(1);
    let liq = p.mint(provider, amt(10000), amt(10000), 1).unwrap();
    assert_eq!(liq, amt(9000));
    assert_eq!(p.token.balanceOf(provider), amt(9000));
    assert_eq!(p.token.balanceOf(zero_addr()), amt(1000));
    assert_eq!(p.token.totalSupply(), amt(10000));
    let (r0, r1) = p.get_reserves();
    assert_eq!(r0, amt(10000));
    assert_eq!(r1, amt(10000));
}

#[test]
fn bootstrap_mint_below_minimum_fails() {
    let mut p = fresh_pair(zero_addr());
    let r = p.mint(addr(1), amt(10), amt(10), 1);
    assert_eq!(r, Err(Error::ArithmeticUnderflow));
    assert_eq!(p.token.totalSupply(), amt(0));
}

#[test]
fn bootstrap_mint_exactly_minimum_is_zero_liquidity() {
    let mut p = fresh_pair(zero_addr());
    let r = p.mint(addr(1), amt(1000), amt(1000), 1);
    assert_eq!(r, Err(Error::LiquidityIsZero));
}

#[test]
fn bootstrap_mint_product_overflow_fails() {
    let mut p = fresh_pair(zero_addr());
    let huge = Amount { hi: 1, lo: 0 };
    let r = p.mint(addr(1), huge, huge, 1);
    assert_eq!(r, Err(Error::ArithmeticOverflow));
}

#[test]
fn proportional_mint() {
    let mut p = fresh_pair(zero_addr());
    p.token._mint(addr(2), amt(1000));
    p.reserve0 = amt(1000);
    p.reserve1 = amt(1000);
    let liq = p.mint(addr(1), amt(1500), amt(1500), 1).unwrap();
    assert_eq!(liq, amt(500));
    assert_eq!(p.token.totalSupply(), amt(1500));
    assert_eq!(p.token.balanceOf(addr(1)), amt(500));
}

#[test]
fn mint_below_reserves_fails() {
    let mut p = fresh_pair(zero_addr());
    p.token._mint(addr(2), amt(1000));
    p.reserve0 = amt(1000);
    p.reserve1 = amt(1000);
    let r = p.mint(addr(1), amt(900), amt(1500), 1);
    assert_eq!(r, Err(Error::ArithmeticUnderflow));
}

#[test]
fn swap_pricing_exact_output() {
    let mut p = fresh_pair(zero_addr());
    p.reserve0 = amt(1000);
    p.reserve1 = amt(1000);
    // 100 of the first asset was sent in, 90 of the second is taken out:
    // floor(100*997*1000 / (1000*1000 + 100*997)) == 90
    let r = p.swap(amt(0), amt(90), amt(1100), amt(910), 1).unwrap();
    assert_eq!(r, (amt(100), amt(0)));
    let (r0, r1) = p.get_reserves();
    assert_eq!(r0, amt(1100));
    assert_eq!(r1, amt(910));
}

#[test]
fn swap_one_unit_past_the_price_fails() {
    let mut p = fresh_pair(zero_addr());
    p.reserve0 = amt(1000);
    p.reserve1 = amt(1000);
    let r = p.swap(amt(0), amt(91), amt(1100), amt(909), 1);
    assert_eq!(r, Err(Error::KInvariantViolated));
}

#[test]
fn swap_without_output_fails() {
    let mut p = fresh_pair(zero_addr());
    p.reserve0 = amt(1000);
    p.reserve1 = amt(1000);
    let r = p.swap(amt(0), amt(0), amt(1000), amt(1000), 1);
    assert_eq!(r, Err(Error::InsufficientOutputAmount));
}

#[test]
fn swap_beyond_reserves_fails() {
    let mut p = fresh_pair(zero_addr());
    p.reserve0 = amt(1000);
    p.reserve1 = amt(1000);
    let r = p.swap(amt(0), amt(1000), amt(2000), amt(0), 1);
    assert_eq!(r, Err(Error::InsufficientLiquidity));
}

#[test]
fn swap_without_input_fails() {
    let mut p = fresh_pair(zero_addr());
    p.reserve0 = amt(1000);
    p.reserve1 = amt(1000);
    // outputs taken, nothing sent in: balances match reserves less outputs
    let r = p.swap(amt(0), amt(90), amt(1000), amt(910), 1);
    assert_eq!(r, Err(Error::InsufficientInputAmount));
}

#[test]
fn swap_precheck_orders_errors() {
    let mut p = fresh_pair(zero_addr());
    p.reserve0 = amt(1000);
    p.reserve1 = amt(1000);
    assert_eq!(p.swap_precheck(amt(0), amt(0)), Err(Error::InsufficientOutputAmount));
    assert_eq!(p.swap_precheck(amt(0), amt(1000)), Err(Error::InsufficientLiquidity));
    assert_eq!(p.swap_precheck(amt(1), amt(999)), Ok(()));
}

#[test]
fn burn_returns_proportional_share() {
    let mut p = fresh_pair(zero_addr());
    let pair_addr = addr(500);
    p.token._mint(pair_addr, amt(500));
    p.token._mint(addr(2), amt(500));
    p.reserve0 = amt(1000);
    p.reserve1 = amt(1000);
    let (a0, a1) = p.burn(pair_addr, amt(1000), amt(1000)).unwrap();
    assert_eq!(a0, amt(500));
    assert_eq!(a1, amt(500));
    assert_eq!(p.token.balanceOf(pair_addr), amt(0));
    assert_eq!(p.token.totalSupply(), amt(500));
    // the withdrawal is paid out, then the reserves re-synced
    assert_eq!(p.burn_finalize(amt(500), amt(500), 1), Ok(()));
    let (r0, r1) = p.get_reserves();
    assert_eq!(r0, amt(500));
    assert_eq!(r1, amt(500));
}

#[test]
fn burn_with_no_liquidity_fails() {
    let mut p = fresh_pair(zero_addr());
    p.token._mint(addr(2), amt(500));
    p.reserve0 = amt(1000);
    p.reserve1 = amt(1000);
    let r = p.burn(addr(500), amt(1000), amt(1000));
    assert_eq!(r, Err(Error::InsufficientLiquidityBurned));
}

#[test]
fn burn_with_empty_supply_fails() {
    let mut p = fresh_pair(zero_addr());
    let r = p.burn(addr(500), amt(1000), amt(1000));
    assert_eq!(r, Err(Error::ArithmeticOverflow));
}

#[test]
fn accumulator_advances_with_time() {
    let mut p = fresh_pair(zero_addr());
    p.mint(addr(1), amt(10000), amt(10000), 5).unwrap();
    assert_eq!(p.block_timestamp_last, 5);
    assert_eq!(p.price0_cumulative_last, amt(0));
    // a second sync 100 seconds later adds (r1 << 112 / r0) * 100
    p.mint(addr(1), amt(20000), amt(20000), 105).unwrap();
    assert_eq!(p.block_timestamp_last, 105);
    assert_eq!(p.price0_cumulative_last, Amount { hi: 0, lo: 100u128 << 112 });
    assert_eq!(p.price1_cumulative_last, Amount { hi: 0, lo: 100u128 << 112 });
}

#[test]
fn accumulator_still_with_no_elapsed_time() {
    let mut p = fresh_pair(zero_addr());
    p.mint(addr(1), amt(10000), amt(10000), 5).unwrap();
    p.mint(addr(1), amt(20000), amt(20000), 5).unwrap();
    assert_eq!(p.price0_cumulative_last, amt(0));
}

#[test]
fn oversized_balance_does_not_fit_a_reserve() {
    let mut p = fresh_pair(zero_addr());
    p.token._mint(addr(2), amt(1000));
    p.reserve0 = amt(1000);
    p.reserve1 = amt(1000);
    let too_big = Amount { hi: 0, lo: 1u128 << 112 };
    let r = p.mint(addr(1), too_big, too_big, 1);
    assert_eq!(r, Err(Error::ArithmeticOverflow));
    assert_eq!(p.reserve0, amt(1000));
}

#[test]
fn protocol_fee_minted_on_k_growth() {
    let mut p = fresh_pair(addr(999));
    let liq = p.mint(addr(1), amt(10000), amt(10000), 1).unwrap();
    assert_eq!(liq, amt(9000));
    // the fee switch is on, so the first mint records k
    assert_eq!(p.k_last, amt(100000000));
    // trades since then grew the synced reserves while k_last stood still
    p.reserve0 = amt(40000);
    p.reserve1 = amt(40000);
    // sqrt(k) grew from 10000 to 40000: fee = ts*(rk-rkl)/(rk*5+rkl)
    let fee_liq = 10000u128 * (40000 - 10000) / (40000 * 5 + 10000);
    assert_eq!(fee_liq, 1428);
    let minted = p.mint(addr(1), amt(80000), amt(80000), 2).unwrap();
    assert_eq!(p.token.balanceOf(addr(999)), amt(fee_liq));
    // liquidity for the depositor is computed on the grown supply
    let expected = (40000u128 * (10000 + fee_liq)) / 40000;
    assert_eq!(minted, amt(expected));
    assert_eq!(p.k_last, amt(80000 * 80000));
}

#[test]
fn fee_switch_off_clears_k_last() {
    let mut p = fresh_pair(zero_addr());
    p.k_last = amt(123);
    p.token._mint(addr(2), amt(1000));
    p.reserve0 = amt(1000);
    p.reserve1 = amt(1000);
    p.mint(addr(1), amt(1500), amt(1500), 1).unwrap();
    assert_eq!(p.k_last, amt(0));
}

#[test]
fn isqrt_known_values() {
    assert_eq!(sqrt(amt(0)), amt(0));
    assert_eq!(sqrt(amt(1)), amt(1));
    assert_eq!(sqrt(amt(3)), amt(1));
    assert_eq!(sqrt(amt(4)), amt(2));
    assert_eq!(sqrt(amt(1_000_000)), amt(1000));
}

#[test]
fn isqrt_more_values() {
    assert_eq!(sqrt(amt(2)), amt(1));
    assert_eq!(sqrt(amt(8)), amt(2));
    assert_eq!(sqrt(amt(9)), amt(3));
    assert_eq!(sqrt(amt(999999)), amt(999));
    assert_eq!(sqrt(amt(u128::MAX)), amt((1u128 << 64) - 1));
    assert_eq!(sqrt(Amount { hi: 1, lo: 0 }), amt(1u128 << 64));
}

#[test]
fn elapsed_time_wraps_modulo_2_pow_32() {
    let mut p = fresh_pair(zero_addr());
    p.token._mint(addr(2), amt(1000));
    p.reserve0 = amt(1000);
    p.reserve1 = amt(1000);
    p.block_timestamp_last = u32::MAX - 10;
    // the clock wrapped: 16 seconds passed across the 32-bit boundary
    p.mint(addr(1), amt(1500), amt(1500), (1u64 << 32) + 5).unwrap();
    assert_eq!(p.block_timestamp_last, 5);
    assert_eq!(p.price0_cumulative_last, Amount { hi: 0, lo: 16u128 << 112 });
}

#[test]
fn burn_finalize_refreshes_k_when_fee_is_on() {
    let mut p = fresh_pair(addr(999));
    let pair_addr = addr(500);
    p.token._mint(pair_addr, amt(500));
    p.token._mint(addr(2), amt(500));
    p.reserve0 = amt(1000);
    p.reserve1 = amt(1000);
    let (a0, a1) = p.burn(pair_addr, amt(1000), amt(1000)).unwrap();
    assert_eq!((a0, a1), (amt(500), amt(500)));
    p.burn_finalize(amt(500), amt(500), 1).unwrap();
    assert_eq!(p.k_last, amt(250000));
}
