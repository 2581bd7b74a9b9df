//! Prices: spot prices from a pool's square-root price, the price of a token
//! in ether derived through the pools of the whitelist, and the price of ether
//! in dollars.
use crate::decimal::{
    digit_len, exceeds, fits_i64, greater,
    digit_count, is_zero_value, lemma_digit_count_product, lemma_nat_text_len, lemma_pow10_one, one_like, pow10, prec_rounded_of, product,
    product_fits, safe_div, safe_quotient, times, with_prec, Decimal,
};
use crate::text::{int_text, nat_text};
use crate::keyer::{
    pool_key, pool_liquidity, pool_native_total_value_locked_token, prices_pool_token_key,
    prices_token_pair,
    token_pool_whitelist,
};
use crate::pool::Pool;
use crate::store::{lemma_numbers_found_wf, lemma_reads_follow_ordinals, lookup_at, lookup_last, number_last, VersionedStore, Write};
use crate::text::text_is;
use crate::tokens::{is_stable_coin, stable_coins_contains, Erc20Token, USDC_ADDRESS, WETH_ADDRESS};
use vstd::prelude::*;

verus! {

/// `2^192`, the square of the fixed-point unit of a square-root price.
/// The USDC/WETH 0.3% pool, whose USDC price is the price of ether in dollars.
pub const USDC_WETH_03_POOL: &'static str = "8ad599c3a0ff1de082011efddc58f1908eb6e6d8";

/// A scale of a square-root price small enough that its spot prices' scales
/// stay in range.
pub const SCALE_BOUND: i64 = 1152921504606846976;

/// Token decimals small enough that the spot prices' scales stay in range.
pub const DECIMALS_BOUND: u64 = 4611686018427387904;

/// The least ether a pool must hold on the counterpart's side to price a token.
pub const MINIMUM_ETH_LOCKED: u64 = 60;

/// `2^192`, the square of the fixed-point unit of a square-root price.
pub open spec fn q192() -> (int, int) {
    ((4294967296 * 4294967296 * 4294967296 * 4294967296 * 4294967296 * 4294967296) as int, 0)
}

/// The number read at `key` and `ordinal`, zero where there is none.
pub open spec fn number_at(log: Seq<Write<Decimal>>, ordinal: int, key: Seq<char>) -> (int, int) {
    match lookup_at(log, ordinal, key) {
        Some(d) => d@,
        None => (0, 0),
    }
}

pub open spec fn price_key_text(a: Seq<char>, b: Seq<char>) -> Seq<char> {
    "price:"@ + a + ":"@ + b
}

/// The key of the price of `token` recorded by `pool`, where `side` is the
/// token's place in the pool.
pub open spec fn pool_price_key_text(pool: Seq<char>, token: Seq<char>, side: Seq<char>) -> Seq<char> {
    "price:"@ + pool + ":"@ + token + ":"@ + side
}

/// The key of the reference price: USDC's price (token0) in the USDC/WETH
/// 0.3% pool, that is dollars per ether.
pub open spec fn reference_price_key() -> Seq<char> {
    pool_price_key_text(USDC_WETH_03_POOL@, USDC_ADDRESS@, "token0"@)
}

/// The price of ether in dollars at `ordinal`: the reference price, zero
/// where none is recorded.
pub open spec fn eth_price_in_usd(prices: Seq<Write<Decimal>>, ordinal: int) -> (int, int) {
    number_at(prices, ordinal, reference_price_key())
}

/// Two writes of the reference price at ordinals `o1 < o2`: the price of
/// ether read at an ordinal in `[o1, o2)` is the first, at `o2` or later the
/// second.
pub proof fn lemma_eth_price_follows_ordinals(
    log: Seq<Write<Decimal>>,
    key: String,
    o1: u64,
    v1: Decimal,
    o2: u64,
    v2: Decimal,
    o: int,
)
    requires
        key@ == reference_price_key(),
        forall|i: int| 0 <= i < log.len() ==> (#[trigger] log[i]).key@ != key@,
        o1 < o2,
        o1 <= o,
    ensures
        ({
            let after = log.push(Write { ordinal: o1, key, value: v1 }).push(
                Write { ordinal: o2, key, value: v2 },
            );
            &&& o < o2 ==> eth_price_in_usd(after, o) == v1@
            &&& o2 <= o ==> eth_price_in_usd(after, o) == v2@
        }),
{
    lemma_reads_follow_ordinals(log, key, o1, v1, o2, v2, o);
}

/// Length of the text of the recorded price of ether in dollars (1, the
/// length of `0`, where none is recorded).
pub open spec fn eth_price_text_len(prices: Seq<Write<Decimal>>, ordinal: int) -> int {
    match lookup_at(prices, ordinal, reference_price_key()) {
        Some(d) => d.digits@.len() as int,
        None => 1,
    }
}

/// The price of ether in dollars at `ordinal`, zero where none is recorded.
pub fn get_eth_price_in_usd(prices_store: &VersionedStore<Decimal>, ordinal: u64) -> (r: Decimal)
    requires
        prices_store.numbers_wf(),
    ensures
        r.wf(),
        r@ == eth_price_in_usd(prices_store@, ordinal as int),
        r.digits@.len() == eth_price_text_len(prices_store@, ordinal as int),
{
    let pool = String::from_str(USDC_WETH_03_POOL);
    let usdc = String::from_str(USDC_ADDRESS);
    let key = prices_pool_token_key(&pool, &usdc, "token0");
    proof {
        lemma_numbers_found_wf(prices_store, ordinal as int, key@);
    }
    match prices_store.get_at(ordinal, &key) {
        Some(p) => p.duplicate(),
        None => Decimal::zero(),
    }
}

/// The counterpart of `token` in `pool` and its place: token1 where token0
/// is `token`, else token0 where token1 is `token`.
pub open spec fn counterpart(pool: Pool, token: Seq<char>) -> Option<(Seq<char>, Seq<char>)> {
    if pool.token0.address@ == token {
        Some((pool.token1.address@, "token1"@))
    } else if pool.token1.address@ == token {
        Some((pool.token0.address@, "token0"@))
    } else {
        None
    }
}

/// Ether locked in pool `pool` on the side of token `c`: the amount of `c`
/// it holds, times the price of `c` in ether (1 for WETH itself). None where
/// that price is not known.
pub open spec fn eth_locked(
    ordinal: int,
    locked: Seq<Write<Decimal>>,
    prices: Seq<Write<Decimal>>,
    pool: Seq<char>,
    c: Seq<char>,
) -> Option<(int, int)> {
    let native = number_last(locked, "amount_locked:"@ + pool + ":"@ + c);
    if c == WETH_ADDRESS@ {
        Some(native)
    } else {
        match lookup_at(prices, ordinal, price_key_text(c, WETH_ADDRESS@)) {
            Some(p) => if fits_i64(native.1 + p@.1) {
                Some(product(native, p@))
            } else {
                None
            },
            None => None,
        }
    }
}

/// One pool of the whitelist list of `token`, applied to the state (largest
/// ether locked so far, price so far). A pool that exists, has liquidity,
/// holds `token`, and locks more than the floor and at least the largest so
/// far, with a recorded price of `token` against its counterpart, becomes the
/// best pool: the price so far is that price times the ether locked.
pub open spec fn scan_step(
    state: ((int, int), (int, int)),
    ordinal: int,
    token: Seq<char>,
    pools: Seq<Write<Pool>>,
    liquidities: Seq<Write<Decimal>>,
    locked: Seq<Write<Decimal>>,
    prices: Seq<Write<Decimal>>,
    p: Seq<char>,
) -> ((int, int), (int, int)) {
    match lookup_last(pools, "pool:"@ + p) {
        None => state,
        Some(pool) => {
            if !greater(number_last(liquidities, "liquidity:"@ + pool.address@), (0, 0)) {
                state
            } else {
                match counterpart(pool, token) {
                    None => state,
                    Some(c) => match eth_locked(ordinal, locked, prices, pool.address@, c.0) {
                        None => state,
                        Some(e) => {
                            if greater(e, (MINIMUM_ETH_LOCKED as int, 0)) && !greater(state.0, e) {
                                match lookup_at(prices, ordinal, pool_price_key_text(pool.address@, c.0, c.1)) {
                                    Some(tp) => if fits_i64(tp@.1 + e.1) {
                                        (e, product(tp@, e))
                                    } else {
                                        state
                                    },
                                    None => state,
                                }
                            } else {
                                state
                            }
                        },
                    },
                }
            }
        },
    }
}

/// The state after the pools of `list`, in order, starting from zero ether and price zero.
pub open spec fn scan_pools(
    list: Seq<String>,
    ordinal: int,
    token: Seq<char>,
    pools: Seq<Write<Pool>>,
    liquidities: Seq<Write<Decimal>>,
    locked: Seq<Write<Decimal>>,
    prices: Seq<Write<Decimal>>,
) -> ((int, int), (int, int))
    decreases list.len(),
{
    if list.len() == 0 {
        ((0, 0), (0, 0))
    } else {
        scan_step(
            scan_pools(list.drop_last(), ordinal, token, pools, liquidities, locked, prices),
            ordinal,
            token,
            pools,
            liquidities,
            locked,
            prices,
            list.last()@,
        )
    }
}

/// The price of `token` in ether: 1 for WETH, the inverse of the price of
/// ether in dollars for a stable coin, else the price through the best pool of
/// its whitelist list (zero where it has no list or no pool qualifies).
pub open spec fn eth_per_token(
    ordinal: int,
    token: Seq<char>,
    pools: Seq<Write<Pool>>,
    liquidities: Seq<Write<Decimal>>,
    whitelists: Seq<Write<Vec<String>>>,
    locked: Seq<Write<Decimal>>,
    prices: Seq<Write<Decimal>>,
) -> (int, int) {
    if token == WETH_ADDRESS@ {
        (1, 0)
    } else if is_stable_coin(token) {
        safe_quotient((1, 0), eth_price_in_usd(prices, ordinal), eth_price_text_len(prices, ordinal))
    } else {
        match lookup_last(whitelists, "token:"@ + token + ":whitelist"@) {
            None => (0, 0),
            Some(list) => scan_pools(list@, ordinal, token, pools, liquidities, locked, prices).1,
        }
    }
}

/// The price of `token_address` in ether, as seen at `log_ordinal`.
pub fn find_eth_per_token(
    log_ordinal: u64,
    pool_address: &String,
    token_address: &String,
    pools_store: &VersionedStore<Pool>,
    pool_liquidities_store: &VersionedStore<Decimal>,
    tokens_whitelist_pools_store: &VersionedStore<Vec<String>>,
    total_native_value_locked_store: &VersionedStore<Decimal>,
    prices_store: &VersionedStore<Decimal>,
) -> (r: Decimal)
    requires
        pool_liquidities_store.numbers_wf(),
        total_native_value_locked_store.numbers_wf(),
        prices_store.numbers_wf(),
    ensures
        r.wf(),
        r@ == eth_per_token(
            log_ordinal as int,
            token_address@,
            pools_store@,
            pool_liquidities_store@,
            tokens_whitelist_pools_store@,
            total_native_value_locked_store@,
            prices_store@,
        ),
        token_address@ == WETH_ADDRESS@ ==> r@ == (1int, 0int),
        token_address@ != WETH_ADDRESS@ && is_stable_coin(token_address@) ==> r@ == safe_quotient(
            (1, 0),
            eth_price_in_usd(prices_store@, log_ordinal as int),
            eth_price_text_len(prices_store@, log_ordinal as int),
        ),
{
    if text_is(token_address, WETH_ADDRESS) {
        return Decimal::one();
    }
    if stable_coins_contains(token_address) {
        let eth_price_usd = get_eth_price_in_usd(prices_store, log_ordinal);
        return safe_div(&Decimal::one(), &eth_price_usd);
    }
    let wl_key = token_pool_whitelist(token_address);
    let wl = match tokens_whitelist_pools_store.get_last(&wl_key) {
        None => {
            return Decimal::zero();
        },
        Some(list) => list,
    };
    let ghost ord = log_ordinal as int;
    let ghost token = token_address@;
    let ghost pools = pools_store@;
    let ghost liqs = pool_liquidities_store@;
    let ghost locked = total_native_value_locked_store@;
    let ghost prices = prices_store@;
    let zero = Decimal::zero();
    let minimum = Decimal::from_u64(MINIMUM_ETH_LOCKED);
    let weth = String::from_str(WETH_ADDRESS);
    let mut largest_eth_locked = Decimal::zero();
    let mut price_so_far = Decimal::zero();
    let mut i: usize = 0;
    while i < wl.len()
        invariant
            i <= wl@.len(),
            ord == log_ordinal as int,
            token == token_address@,
            pools == pools_store@,
            liqs == pool_liquidities_store@,
            locked == total_native_value_locked_store@,
            prices == prices_store@,
            weth@ == WETH_ADDRESS@,
            zero@ == (0int, 0int),
            minimum@ == (MINIMUM_ETH_LOCKED as int, 0int),
            zero.wf(),
            minimum.wf(),
            largest_eth_locked.wf(),
            price_so_far.wf(),
            pool_liquidities_store.numbers_wf(),
            total_native_value_locked_store.numbers_wf(),
            prices_store.numbers_wf(),
            largest_eth_locked@ == scan_pools(wl@.take(i as int), ord, token, pools, liqs, locked, prices).0,
            price_so_far@ == scan_pools(wl@.take(i as int), ord, token, pools, liqs, locked, prices).1,
        decreases wl@.len() - i,
    {
        let ghost before = scan_pools(wl@.take(i as int), ord, token, pools, liqs, locked, prices);
        proof {
            assert(wl@.take(i + 1).drop_last() =~= wl@.take(i as int));
            assert(wl@.take(i + 1).last() == wl@[i as int]);
        }
        let p = &wl[i];
        let key = pool_key(p);
        match pools_store.get_last(&key) {
            None => {},
            Some(pool) => {
                let liq_key = pool_liquidity(&pool.address);
                proof {
                    lemma_numbers_found_wf(pool_liquidities_store, ord, liq_key@);
                }
                let liquidity = match pool_liquidities_store.get_last(&liq_key) {
                    Some(l) => l.duplicate(),
                    None => Decimal::zero(),
                };
                if exceeds(&liquidity, &zero) {
                    let side: Option<(&Erc20Token, &str)> = if pool.token0.address == *token_address {
                        Some((&pool.token1, "token1"))
                    } else if pool.token1.address == *token_address {
                        Some((&pool.token0, "token0"))
                    } else {
                        None
                    };
                    match side {
                        None => {},
                        Some((c, label)) => {
                            let native_key = pool_native_total_value_locked_token(
                                &pool.address,
                                &c.address,
                            );
                            proof {
                                lemma_numbers_found_wf(total_native_value_locked_store, ord, native_key@);
                            }
                            let native = match total_native_value_locked_store.get_last(&native_key) {
                                Some(v) => v.duplicate(),
                                None => Decimal::zero(),
                            };
                            let eth: Option<Decimal> = if c.address == weth {
                                Some(native)
                            } else {
                                let pk = prices_token_pair(&c.address, &weth);
                                proof {
                                    lemma_numbers_found_wf(prices_store, ord, pk@);
                                }
                                match prices_store.get_at(log_ordinal, &pk) {
                                    Some(pr) => if product_fits(&native, pr) {
                                        Some(times(&native, pr))
                                    } else {
                                        None
                                    },
                                    None => None,
                                }
                            };
                            let ghost spec_eth = eth_locked(ord, locked, prices, pool.address@, c.address@);
                            match eth {
                                None => {},
                                Some(e) => {
                                    if exceeds(&e, &minimum) && !exceeds(&largest_eth_locked, &e) {
                                        let tk = prices_pool_token_key(&pool.address, &c.address, label);
                                        proof {
                                            lemma_numbers_found_wf(prices_store, ord, tk@);
                                        }
                                        match prices_store.get_at(log_ordinal, &tk) {
                                            Some(tp) => {
                                                if product_fits(tp, &e) {
                                                    price_so_far = times(tp, &e);
                                                    largest_eth_locked = e;
                                                }
                                            },
                                            None => {},
                                        }
                                    }
                                },
                            }
                        },
                    }
                }
            },
        }
        i = i + 1;
    }
    proof {
        assert(wl@.take(wl@.len() as int) =~= wl@);
    }
    price_so_far
}

/// The price step between adjacent ticks, `1.0001`.
pub open spec fn tick_step() -> (int, int) {
    (10001, 4)
}

/// The price step between adjacent ticks, `1.0001`.
pub fn tick_base() -> (r: Decimal)
    ensures
        r.wf(),
        r.canonical(),
        r@ == tick_step(),
{
    let n = Decimal::from_u64(10001);
    Decimal { digits: n.digits, scale: 4 }
}

/// `acc * base` rounded to 100 significant digits, where the scales of the
/// product and of the rounding stay in range.
pub open spec fn power_step(acc: (int, int), base: (int, int)) -> Option<(int, int)> {
    let p = product(acc, base);
    if fits_i64(p.1) && p.1 + 100 <= i64::MAX && p.1 - digit_len(p.0) >= i64::MIN {
        Some(prec_rounded_of(p, 100))
    } else {
        None
    }
}

/// `base` multiplied by itself `k` more times, rounding each product.
pub open spec fn power_steps(base: (int, int), k: nat) -> Option<(int, int)>
    decreases k,
{
    if k == 0 {
        Some(base)
    } else {
        match power_steps(base, (k - 1) as nat) {
            Some(acc) => power_step(acc, base),
            None => None,
        }
    }
}

/// `base` raised to `e`: 1 for `e == 0`; else `base` multiplied by itself
/// `|e| - 1` times, each product rounded to 100 significant digits, and
/// inverted (by the safe division) for a negative `e`. None where a scale
/// would leave its range.
pub open spec fn exponated(base: (int, int), e: int) -> Option<(int, int)> {
    if e == 0 {
        Some((1, 0))
    } else {
        let k = if e < 0 { -e } else { e };
        match power_steps(base, (k - 1) as nat) {
            None => None,
            Some(v) => if e > 0 {
                Some(v)
            } else {
                Some(safe_quotient((1, 0), v, digit_len(v.0)))
            },
        }
    }
}

proof fn lemma_power_steps_none(base: (int, int), j: nat, m: nat)
    requires
        j <= m,
        power_steps(base, j) is None,
    ensures
        power_steps(base, m) is None,
    decreases m,
{
    if m > j {
        lemma_power_steps_none(base, j, (m - 1) as nat);
    }
}

/// `amount` raised to `exponent`, each product rounded to 100 significant
/// digits; a negative exponent gives the inverse of the positive power.
/// None where a scale would leave its range.
pub fn big_decimal_exponated(amount: &Decimal, exponent: i32) -> (r: Option<Decimal>)
    requires
        amount.wf(),
        amount.canonical(),
    ensures
        r is Some <==> exponated(amount@, exponent as int) is Some,
        r matches Some(d) ==> (d.wf() && d.canonical() && exponated(amount@, exponent as int) == Some(d@)),
        amount@ == tick_step() ==> r is Some,
{
    if exponent == 0 {
        return Some(Decimal::one());
    }
    let k: u32 = if exponent < 0 { (-(exponent as i64)) as u32 } else { exponent as u32 };
    let mut result = amount.duplicate();
    let mut i: u32 = 0;
    proof {
        if amount@ == tick_step() {
            reveal_with_fuel(pow10, 6);
            lemma_nat_text_len(10001, 5);
        }
    }
    while i < k - 1
        invariant
            1 <= k <= 2147483648,
            k as int == (if exponent < 0 { -(exponent as int) } else { exponent as int }),
            i <= k - 1,
            result.wf(),
            result.canonical(),
            amount.wf(),
            power_steps(amount@, i as nat) == Some(result@),
            amount@ == tick_step() ==> (digit_count(result@.0) <= 101 && 4 - 2 * i <= result@.1
                && result@.1 <= 4 + 103 * i),
        decreases k - 1 - i,
    {
        proof {
            if amount@ == tick_step() {
                reveal_with_fuel(pow10, 6);
                lemma_nat_text_len(10001, 5);
                lemma_digit_count_product(result@.0, 10001);
            }
        }
        if !product_fits(&result, amount) {
            proof {
                lemma_power_steps_none(amount@, (i + 1) as nat, (k - 1) as nat);
            }
            return None;
        }
        let p = times(&result, amount);
        let len = p.digits.unicode_len();
        proof {
            if amount@ == tick_step() {
                let m = p@.0;
                let x: nat = (if m < 0 { -m } else { m }) as nat;
                if m < 0 {
                    assert(int_text(m) == seq!['-'].add(nat_text(x)));
                } else {
                    assert(int_text(m) == nat_text(x));
                }
                assert(len <= digit_count(m) + 1);
            }
        }
        if p.scale > i64::MAX - 100 || (p.scale as i128) - (len as i128) < i64::MIN as i128 {
            proof {
                lemma_power_steps_none(amount@, (i + 1) as nat, (k - 1) as nat);
            }
            return None;
        }
        result = with_prec(&p, 100);
        proof {
            if amount@ == tick_step() {
                lemma_digit_count_product(p@.0, 1);
            }
        }
        i = i + 1;
    }
    if exponent < 0 {
        result = safe_div(&Decimal::one(), &result);
    }
    Some(result)
}

/// The prices at a tick: `price0 = 1.0001^tick` (see `exponated`) and
/// `price1 = 1 / price0` by the safe division.
pub open spec fn tick_prices_of(tick: int) -> Option<((int, int), (int, int))> {
    match exponated(tick_step(), tick) {
        None => None,
        Some(p0) => Some((p0, safe_quotient((1, 0), p0, digit_len(p0.0)))),
    }
}

/// The two prices at a tick: `price0 = 1.0001^tick` and `price1 = 1 / price0`.
pub fn tick_prices(tick: i32) -> (r: Option<(Decimal, Decimal)>)
    ensures
        r is Some,
        tick_prices_of(tick as int) is Some,
        r matches Some(p) ==> (p.0.wf() && p.1.wf() && tick_prices_of(tick as int) == Some((p.0@, p.1@))),
        tick == 0 ==> (r matches Some(p) && p.0@ == (1int, 0int) && p.1@ == (1int, 0int)),
{
    let base = tick_base();
    let price0 = match big_decimal_exponated(&base, tick) {
        Some(p) => p,
        None => {
            return None;
        },
    };
    let one = Decimal::one();
    let price1 = safe_div(&one, &price0);
    proof {
        if tick == 0 {
            assert(price0.digits@ == int_text(1));
            assert(int_text(1).len() == 1);
        }
    }
    Some((price0, price1))
}

/// `price1 = sqrt_price^2 / 2^192 * 10^decimals0 / 10^decimals1`, each
/// division the safe one; None where a product's scale leaves its range.
pub open spec fn spot_price1(s: (int, int), decimals0: int, decimals1: int) -> Option<(int, int)> {
    let sq = product(s, s);
    if !fits_i64(sq.1) {
        None
    } else {
        let scaled = product(safe_quotient(sq, q192(), digit_len(q192().0)), (1, -decimals0));
        if !fits_i64(scaled.1) {
            None
        } else {
            Some(safe_quotient(scaled, (1, -decimals1), 1))
        }
    }
}

/// `2^192` has at most 60 digits.
proof fn lemma_q192_len()
    ensures
        digit_len(q192().0) <= 60,
        q192().0 > 1,
{
    reveal_with_fuel(pow10, 61);
    assert(q192().0 < pow10(60));
    lemma_nat_text_len(q192().0 as nat, 60);
}

/// The spot prices `(price0, price1)`: `price0 = 1 / price1` by the safe division.
pub open spec fn spot_prices(s: (int, int), decimals0: int, decimals1: int) -> Option<((int, int), (int, int))> {
    match spot_price1(s, decimals0, decimals1) {
        None => None,
        Some(p1) => Some((safe_quotient((1, 0), p1, digit_len(p1.0)), p1)),
    }
}

/// The two spot prices of a pool from its square-root price: `price1` is
/// `sqrt_price^2 / 2^192 * 10^decimals0 / 10^decimals1` (the price of token0
/// in token1) and `price0` is `1 / price1`, zero where `price1` is zero.
/// None where a scale would leave its range.
pub fn sqrt_price_x96_to_token_prices(
    sqrt_price: &Decimal,
    token_0: &Erc20Token,
    token_1: &Erc20Token,
) -> (r: Option<(Decimal, Decimal)>)
    requires
        sqrt_price.wf(),
        token_0.decimals <= i64::MAX,
        token_1.decimals <= i64::MAX,
    ensures
        r is Some <==> spot_prices(sqrt_price@, token_0.decimals as int, token_1.decimals as int) is Some,
        r matches Some(p) ==> (p.0.wf() && p.1.wf() && spot_prices(
            sqrt_price@,
            token_0.decimals as int,
            token_1.decimals as int,
        ) == Some((p.0@, p.1@))),
        -SCALE_BOUND <= sqrt_price@.1 <= SCALE_BOUND && token_0.decimals <= DECIMALS_BOUND ==> r is Some,
        is_zero_value(sqrt_price@) ==> (r matches Some(p) ==> is_zero_value(p.0@) && is_zero_value(p.1@)),
        sqrt_price@.0 * sqrt_price@.0 == q192().0 && sqrt_price@.1 == 0 && token_0.decimals <= DECIMALS_BOUND
            && token_1.decimals <= DECIMALS_BOUND ==> (r matches Some(p) && p.1@ == (1int, token_1.decimals
            - token_0.decimals) && p.0@ == (1int, token_0.decimals - token_1.decimals)),
{
    if !product_fits(sqrt_price, sqrt_price) {
        return None;
    }
    let price = times(sqrt_price, sqrt_price);
    let unit = Decimal::from_u64(4294967296);
    let mut denominator = times(&unit, &unit);
    denominator = times(&denominator, &unit);
    denominator = times(&denominator, &unit);
    denominator = times(&denominator, &unit);
    denominator = times(&denominator, &unit);
    proof {
        lemma_q192_len();
    }
    let d0 = Decimal::exponent_to_big_decimal(token_0.decimals);
    let d1 = Decimal::exponent_to_big_decimal(token_1.decimals);
    let step1 = safe_div(&price, &denominator);
    if !product_fits(&step1, &d0) {
        return None;
    }
    let step2 = times(&step1, &d0);
    let price1 = safe_div(&step2, &d1);
    let one = Decimal::one();
    let price0 = safe_div(&one, &price1);
    proof {
        assert(d1.digits@.len() == 1);
        if price1@.0 == 1 {
            assert(price1.digits@.len() == 1);
        }
        if one_like(price1@) && price1@.0 == 1 {
            lemma_pow10_one(price1@.1 as nat);
        }
    }
    Some((price0, price1))
}

} // verus!
