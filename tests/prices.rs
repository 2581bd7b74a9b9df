use std::str::FromStr;

use bigdecimal::BigDecimal;
use uniswap_v3_state::decimal::Decimal;
use uniswap_v3_state::pool::Pool;
use uniswap_v3_state::price::{
    find_eth_per_token, get_eth_price_in_usd, sqrt_price_x96_to_token_prices, tick_prices,
};
use uniswap_v3_state::store::VersionedStore;
use uniswap_v3_state::tokens::Erc20Token;
use uniswap_v3_state::usd::{calculate_amount_usd, get_tracked_amount_usd};

const WETH: &str = "c02aaa39b223fe8d0a0e5c4f27ead9083c756cc2";
const USDC: &str = "a0b86991c6218b36c1d19d4a2e9eb0ce3606eb48";
const DAI: &str = "6b175474e89094c44da98b954eedeac495271d0f";
const REFERENCE_POOL: &str = "8ad599c3a0ff1de082011efddc58f1908eb6e6d8";
const TOKEN: &str = "1234567890123456789012345678901234567890";

fn dec(s: &str) -> Decimal {
    let (i, scale) = BigDecimal::from_str(s).unwrap().into_bigint_and_exponent();
    Decimal { digits: i.to_string(), scale }
}

fn big(d: &Decimal) -> BigDecimal {
    BigDecimal::new(d.digits.parse().unwrap(), d.scale)
}

fn token(address: &str, decimals: u64) -> Erc20Token {
    Erc20Token {
        address: address.to_string(),
        name: String::new(),
        symbol: String::new(),
        decimals,
        whitelist_pools: vec![],
    }
}

fn pool(address: &str, token0: &str, token1: &str) -> Pool {
    Pool {
        address: address.to_string(),
        token0: token(token0, 18),
        token1: token(token1, 18),
        creation_transaction_id: String::new(),
        fee: 3000,
        block_num: 1,
        log_ordinal: 1,
        tick_spacing: 60,
    }
}

struct Stores {
    pools: VersionedStore<Pool>,
    liquidity: VersionedStore<Decimal>,
    whitelist: VersionedStore<Vec<String>>,
    locked: VersionedStore<Decimal>,
    prices: VersionedStore<Decimal>,
}

impl Stores {
    fn new() -> Stores {
        Stores {
            pools: VersionedStore::new(),
            liquidity: VersionedStore::new(),
            whitelist: VersionedStore::new(),
            locked: VersionedStore::new(),
            prices: VersionedStore::new(),
        }
    }

    /// A pool of TOKEN against WETH holding `weth` WETH, with TOKEN priced at `price` against WETH.
    fn weth_pool(&mut self, address: &str, weth: &str, price: &str) {
        self.pools.set(1, format!("pool:{}", address), pool(address, TOKEN, WETH));
        self.liquidity.set(1, format!("liquidity:{}", address), dec("1000"));
        self.whitelist.append(1, format!("token:{}:whitelist", TOKEN), address.to_string());
        self.locked.set(1, format!("amount_locked:{}:{}", address, WETH), dec(weth));
        self.prices.set(1, format!("price:{}:{}:token1", address, WETH), dec(price));
    }

    fn eth_per_token(&self, ordinal: u64, t: &str) -> BigDecimal {
        big(&find_eth_per_token(
            ordinal,
            &String::new(),
            &t.to_string(),
            &self.pools,
            &self.liquidity,
            &self.whitelist,
            &self.locked,
            &self.prices,
        ))
    }
}

#[test]
fn weth_is_worth_one_eth() {
    let s = Stores::new();
    let r = find_eth_per_token(
        5,
        &String::new(),
        &WETH.to_string(),
        &s.pools,
        &s.liquidity,
        &s.whitelist,
        &s.locked,
        &s.prices,
    );
    assert_eq!(r.digits, "1");
    assert_eq!(r.scale, 0);
}

#[test]
fn stable_coin_is_inverse_of_eth_price() {
    let mut s = Stores::new();
    s.prices.set(3, format!("price:{}:{}:token0", REFERENCE_POOL, USDC), dec("2000"));
    s.prices.set(4, format!("price:{}:{}", USDC, WETH), dec("1"));
    assert_eq!(s.eth_per_token(5, DAI), BigDecimal::from_str("0.0005").unwrap());
    assert_eq!(s.eth_per_token(2, DAI), BigDecimal::from(0));
    assert_eq!(big(&get_eth_price_in_usd(&s.prices, 5)), BigDecimal::from(2000));
    assert_eq!(big(&get_eth_price_in_usd(&s.prices, 2)), BigDecimal::from(0));
}

#[test]
fn price_through_deepest_pool() {
    let mut s = Stores::new();
    s.weth_pool("00000000000000000000000000000000000000a1", "100", "0.5");
    assert_eq!(s.eth_per_token(5, TOKEN), BigDecimal::from(50));
}

#[test]
fn pool_under_floor_gives_zero() {
    let mut s = Stores::new();
    s.weth_pool("00000000000000000000000000000000000000a1", "60", "0.5");
    assert_eq!(s.eth_per_token(5, TOKEN), BigDecimal::from(0));
}

#[test]
fn token_without_whitelist_list_gives_zero() {
    let s = Stores::new();
    assert_eq!(s.eth_per_token(5, TOKEN), BigDecimal::from(0));
}

#[test]
fn larger_pool_wins_and_ties_go_to_the_last() {
    let mut s = Stores::new();
    let a = "00000000000000000000000000000000000000a1";
    let b = "00000000000000000000000000000000000000b2";
    let c = "00000000000000000000000000000000000000c3";
    s.weth_pool(a, "100", "0.5");
    s.weth_pool(b, "80", "0.5");
    assert_eq!(s.eth_per_token(5, TOKEN), BigDecimal::from(50));
    // A DAI pool locking as much ether, priced later in the list, takes over.
    s.pools.set(1, format!("pool:{}", c), pool(c, DAI, TOKEN));
    s.liquidity.set(1, format!("liquidity:{}", c), dec("1"));
    s.whitelist.append(1, format!("token:{}:whitelist", TOKEN), c.to_string());
    s.locked.set(1, format!("amount_locked:{}:{}", c, DAI), dec("200000"));
    s.prices.set(1, format!("price:{}:{}", DAI, WETH), dec("0.0005"));
    s.prices.set(1, format!("price:{}:{}:token0", c, DAI), dec("3"));
    assert_eq!(s.eth_per_token(5, TOKEN), BigDecimal::from(300));
}

#[test]
fn pool_without_liquidity_is_skipped() {
    let mut s = Stores::new();
    let a = "00000000000000000000000000000000000000a1";
    s.weth_pool(a, "100", "0.5");
    s.liquidity.set(2, format!("liquidity:{}", a), dec("0"));
    assert_eq!(s.eth_per_token(5, TOKEN), BigDecimal::from(0));
}

#[test]
fn sqrt_price_of_one() {
    let q96 = dec("79228162514264337593543950336");
    let (price0, price1) = sqrt_price_x96_to_token_prices(&q96, &token(USDC, 18), &token(WETH, 18)).unwrap();
    assert_eq!(big(&price1), BigDecimal::from(1));
    assert_eq!(big(&price0), BigDecimal::from(1));
    let (price0, price1) = sqrt_price_x96_to_token_prices(&q96, &token(USDC, 6), &token(WETH, 18)).unwrap();
    assert_eq!(big(&price1), BigDecimal::from_str("0.000000000001").unwrap());
    assert_eq!(big(&price0), BigDecimal::from_str("1000000000000").unwrap());
    let twice = dec("158456325028528675187087900672");
    let (price0, price1) = sqrt_price_x96_to_token_prices(&twice, &token(USDC, 18), &token(WETH, 18)).unwrap();
    assert_eq!(big(&price1), BigDecimal::from(4));
    assert_eq!(big(&price0), BigDecimal::from_str("0.25").unwrap());
}

#[test]
fn sqrt_prices_are_inverse() {
    let sqrt = dec("1234567890123456789012345678901");
    let (price0, price1) = sqrt_price_x96_to_token_prices(&sqrt, &token(USDC, 6), &token(WETH, 18)).unwrap();
    let product = big(&price0) * big(&price1);
    let error = (product - BigDecimal::from(1)).abs();
    assert!(error < BigDecimal::from_str("1e-90").unwrap());
}

#[test]
fn zero_sqrt_price_gives_zero_prices() {
    let (price0, price1) = sqrt_price_x96_to_token_prices(&dec("0"), &token(USDC, 18), &token(WETH, 18)).unwrap();
    assert_eq!(big(&price0), BigDecimal::from(0));
    assert_eq!(big(&price1), BigDecimal::from(0));
}

#[test]
fn tick_zero_prices_are_one() {
    let (price0, price1) = tick_prices(0).unwrap();
    assert_eq!(big(&price0), BigDecimal::from(1));
    assert_eq!(big(&price1), BigDecimal::from(1));
}

#[test]
fn tick_prices_step_by_one_basis_point() {
    let (price0, price1) = tick_prices(1).unwrap();
    assert_eq!(big(&price0), BigDecimal::from_str("1.0001").unwrap());
    let product = big(&price0) * big(&price1);
    assert!((product - BigDecimal::from(1)).abs() < BigDecimal::from_str("1e-90").unwrap());
    let (price0, _) = tick_prices(2).unwrap();
    assert_eq!(big(&price0), BigDecimal::from_str("1.00020001").unwrap());
    let (price0, price1) = tick_prices(-2).unwrap();
    assert_eq!(big(&price1).round(20), BigDecimal::from_str("1.00020001").unwrap());
    assert!(big(&price0) < BigDecimal::from(1));
}

#[test]
fn usd_amounts() {
    let r = calculate_amount_usd(&dec("2"), &dec("3"), &dec("0.5"), &dec("0.25"), &dec("2000"));
    assert_eq!(big(&r), BigDecimal::from(3500));
    let w = WETH.to_string();
    let u = USDC.to_string();
    let t = TOKEN.to_string();
    let counted = |a: &String, b: &String| {
        big(&get_tracked_amount_usd(a, b, &dec("0.5"), &dec("0.25"), &dec("2"), &dec("3"), &dec("2000")))
    };
    assert_eq!(counted(&w, &u), BigDecimal::from(3500));
    assert_eq!(counted(&w, &t), BigDecimal::from(4000));
    assert_eq!(counted(&t, &w), BigDecimal::from(3000));
    assert_eq!(counted(&t, &t), BigDecimal::from(0));
}

#[test]
fn tick_prices_order_with_the_tick() {
    let (low0, low1) = tick_prices(-100).unwrap();
    let (high0, high1) = tick_prices(100).unwrap();
    assert!(big(&low0) < big(&high0));
    assert!(big(&low1) > big(&high1));
    assert!((big(&low0) - big(&high1)).abs() < BigDecimal::from_str("1e-90").unwrap());
}

#[test]
fn tick_prices_rounded_to_hundred_digits() {
    let (price0, price1) = tick_prices(30).unwrap();
    let step = BigDecimal::from_str("1.0001").unwrap();
    let mut exact = BigDecimal::from(1);
    for _ in 0..30 {
        exact = exact * step.clone();
    }
    let error = (big(&price0) - exact.clone()).abs();
    assert!(error < BigDecimal::from_str("1e-95").unwrap());
    assert!(big(&price0).digits() <= 100);
    let inverse = (big(&price1) * exact - BigDecimal::from(1)).abs();
    assert!(inverse < BigDecimal::from_str("1e-90").unwrap());
}
