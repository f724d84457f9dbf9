use uniswap_v2_pair::address::Address;
use uniswap_v2_pair::amount::Amount;
use uniswap_v2_pair::codec::safe_transfer_check;
use uniswap_v2_pair::codec::transfer_calldata;
use uniswap_v2_pair::erc20::TokenMeta;
use uniswap_v2_pair::erc20::UniswapV2ERC20;
use uniswap_v2_pair::errors::Error;

fn amt(x: u128) -> Amount {
    Amount::from_u128(x)
}

fn addr(n: u128) -> Address {
    Address { hi: 0, lo: n }
}

fn ledger() -> UniswapV2ERC20 {
    UniswapV2ERC20::new(TokenMeta {
        name: String::from("Stylus Uniswap V2"),
        symbol: String::from("STYLUS-UNI-V2"),
        decimals: 18,
    })
}

#[test]
fn metadata_getters() {
    let t = ledger();
    assert_eq!(t.name().as_str(), "Stylus Uniswap V2");
    assert_eq!(t.symbol().as_str(), "STYLUS-UNI-V2");
    assert_eq!(t.decimals(), 18);
    assert_eq!(t.totalSupply(), amt(0));
}

#[test]
fn mint_credits_balance_and_supply() {
    let mut t = ledger();
    t._mint(addr(1), amt(700));
    t._mint(addr(2), amt(300));
    assert_eq!(t.balanceOf(addr(1)), amt(700));
    assert_eq!(t.balanceOf(addr(2)), amt(300));
    assert_eq!(t.balanceOf(addr(3)), amt(0));
    assert_eq!(t.totalSupply(), amt(1000));
}

#[test]
fn burn_debits_balance_and_supply() {
    let mut t = ledger();
    t._mint(addr(1), amt(700));
    assert_eq!(t._burn(addr(1), amt(200)), Ok(()));
    assert_eq!(t.balanceOf(addr(1)), amt(500));
    assert_eq!(t.totalSupply(), amt(500));
    assert_eq!(t._burn(addr(1), amt(501)), Err(Error::InsufficientBalance));
    assert_eq!(t.balanceOf(addr(1)), amt(500));
}

#[test]
fn transfer_moves_value() {
    let mut t = ledger();
    t._mint(addr(1), amt(100));
    assert_eq!(t.transfer(addr(1), addr(2), amt(40)), Ok(true));
    assert_eq!(t.balanceOf(addr(1)), amt(60));
    assert_eq!(t.balanceOf(addr(2)), amt(40));
    assert_eq!(t.totalSupply(), amt(100));
}

#[test]
fn transfer_beyond_balance_fails() {
    let mut t = ledger();
    t._mint(addr(1), amt(100));
    assert_eq!(t.transfer(addr(1), addr(2), amt(101)), Err(Error::InsufficientBalance));
    assert_eq!(t.balanceOf(addr(1)), amt(100));
    assert_eq!(t.balanceOf(addr(2)), amt(0));
}

#[test]
fn transfer_to_self_changes_nothing() {
    let mut t = ledger();
    t._mint(addr(1), amt(100));
    assert_eq!(t.transfer(addr(1), addr(1), amt(100)), Ok(true));
    assert_eq!(t.balanceOf(addr(1)), amt(100));
    assert_eq!(t.totalSupply(), amt(100));
}

#[test]
fn approve_overwrites() {
    let mut t = ledger();
    assert_eq!(t.approve(addr(1), addr(2), amt(50)), Ok(true));
    assert_eq!(t.allowance(addr(1), addr(2)), amt(50));
    assert_eq!(t.approve(addr(1), addr(2), amt(7)), Ok(true));
    assert_eq!(t.allowance(addr(1), addr(2)), amt(7));
    assert_eq!(t.allowance(addr(2), addr(1)), amt(0));
}

#[test]
fn transfer_from_respects_allowance() {
    let mut t = ledger();
    t._mint(addr(1), amt(100));
    t.approve(addr(1), addr(9), amt(50)).unwrap();
    // one unit more than the allowance is refused
    assert_eq!(
        t.transferFrom(addr(9), addr(1), addr(2), amt(51)),
        Err(Error::InsufficientAllowance)
    );
    assert_eq!(t.balanceOf(addr(1)), amt(100));
    assert_eq!(t.allowance(addr(1), addr(9)), amt(50));
    // exactly the allowance drains it
    assert_eq!(t.transferFrom(addr(9), addr(1), addr(2), amt(50)), Ok(true));
    assert_eq!(t.allowance(addr(1), addr(9)), amt(0));
    assert_eq!(t.balanceOf(addr(1)), amt(50));
    assert_eq!(t.balanceOf(addr(2)), amt(50));
}

#[test]
fn transfer_from_checks_balance_after_allowance() {
    let mut t = ledger();
    t._mint(addr(1), amt(10));
    t.approve(addr(1), addr(9), amt(50)).unwrap();
    assert_eq!(
        t.transferFrom(addr(9), addr(1), addr(2), amt(20)),
        Err(Error::InsufficientBalance)
    );
    // the failed attempt left the allowance untouched
    assert_eq!(t.allowance(addr(1), addr(9)), amt(50));
}

#[test]
fn transfer_check_accepts_empty_payload() {
    assert_eq!(safe_transfer_check(true, &Vec::new()), Ok(()));
}

#[test]
fn transfer_check_accepts_true_word() {
    let mut word = vec![0u8; 32];
    word[31] = 1;
    assert_eq!(safe_transfer_check(true, &word), Ok(()));
}

#[test]
fn transfer_check_rejects_false_word() {
    let word = vec![0u8; 32];
    assert_eq!(safe_transfer_check(true, &word), Err(Error::TransferFailed));
}

#[test]
fn transfer_check_rejects_garbage() {
    assert_eq!(safe_transfer_check(true, &vec![1u8]), Err(Error::TransferFailed));
    let mut word = vec![0u8; 32];
    word[0] = 1;
    word[31] = 1;
    assert_eq!(safe_transfer_check(true, &word), Err(Error::TransferFailed));
    assert_eq!(safe_transfer_check(true, &vec![0u8; 33]), Err(Error::TransferFailed));
}

#[test]
fn transfer_check_rejects_failed_call() {
    assert_eq!(safe_transfer_check(false, &Vec::new()), Err(Error::TransferFailed));
    let mut word = vec![0u8; 32];
    word[31] = 1;
    assert_eq!(safe_transfer_check(false, &word), Err(Error::TransferFailed));
}

#[test]
fn calldata_layout() {
    let to = Address { hi: 0xaabbccdd, lo: 0x00112233445566778899aabbccddeeff };
    let value = Amount { hi: 0, lo: 1000 };
    let data = transfer_calldata(to, value);
    assert_eq!(data.len(), 68);
    // the selector of transfer(address,uint256)
    assert_eq!(&data[0..4], &[0xa9, 0x05, 0x9c, 0xbb]);
    // the address, left-padded to a 32-byte word
    assert_eq!(&data[4..16], &[0u8; 12]);
    assert_eq!(&data[16..20], &[0xaa, 0xbb, 0xcc, 0xdd]);
    assert_eq!(
        &data[20..36],
        &[0x00, 0x11, 0x22, 0x33, 0x44, 0x55, 0x66, 0x77, 0x88, 0x99, 0xaa, 0xbb, 0xcc, 0xdd,
            0xee, 0xff]
    );
    // the amount as a 32-byte big-endian word: 1000 == 0x03e8
    let mut word = vec![0u8; 32];
    word[30] = 0x03;
    word[31] = 0xe8;
    assert_eq!(&data[36..68], word.as_slice());
}
