//! Keys of the stores, built from typed parts in their exact textual form.
use crate::text::{i64_text, int_text, less_text, nat_text, text_less, u64_text};
use vstd::prelude::*;

verus! {

fn join2(a: &str, b: &str) -> (r: String)
    ensures
        r@ == a@ + b@,
{
    let mut s = String::from_str(a);
    s.append(b);
    s
}

fn join4(a: &str, b: &str, c: &str, d: &str) -> (r: String)
    ensures
        r@ == a@ + b@ + c@ + d@,
{
    let mut s = String::from_str(a);
    s.append(b);
    s.append(c);
    s.append(d);
    s
}

/// The two addresses of a pair in the order of their text, joined by `:`.
pub open spec fn tokens_pair_text(a: Seq<char>, b: Seq<char>) -> Seq<char> {
    if text_less(b, a) {
        b + ":"@ + a
    } else {
        a + ":"@ + b
    }
}

/// The two addresses of a pair in the order of their text, joined by `:`.
pub fn generate_tokens_key(a: &str, b: &str) -> (r: String)
    ensures
        r@ == tokens_pair_text(a@, b@),
{
    if less_text(b, a) {
        let r = join2(b, ":");
        join2(r.as_str(), a)
    } else {
        let r = join2(a, ":");
        join2(r.as_str(), b)
    }
}

/// `pool:{address}`
pub fn pool_key(address: &String) -> (r: String)
    ensures
        r@ == "pool:"@ + address@,
{
    join2("pool:", address.as_str())
}

/// `tokens:{a}:{b}`, the two addresses in the order of their text.
pub fn tokens_key(token0: &String, token1: &String) -> (r: String)
    ensures
        r@ == "tokens:"@ + tokens_pair_text(token0@, token1@),
{
    let pair = generate_tokens_key(token0.as_str(), token1.as_str());
    join2("tokens:", pair.as_str())
}

/// `tokens:{a}:{b}:{fee}`, the two addresses in the order of their text.
pub fn pool_token_index_key(token0: &String, token1: &String, fee: u32) -> (r: String)
    ensures
        r@ == "tokens:"@ + tokens_pair_text(token0@, token1@) + ":"@ + nat_text(fee as nat),
{
    let pair = tokens_key(token0, token1);
    let f = u64_text(fee as u64);
    let r = join2(pair.as_str(), ":");
    join2(r.as_str(), f.as_str())
}

/// `pool_init:{address}`
pub fn pool_init_key(address: &String) -> (r: String)
    ensures
        r@ == "pool_init:"@ + address@,
{
    join2("pool_init:", address.as_str())
}

/// `sqrt_price:{address}`
pub fn sqrt_price_key(address: &String) -> (r: String)
    ensures
        r@ == "sqrt_price:"@ + address@,
{
    join2("sqrt_price:", address.as_str())
}

/// `tick:{idx}:pool:{address}`
pub fn tick_key(idx: i32, address: &String) -> (r: String)
    ensures
        r@ == "tick:"@ + int_text(idx as int) + ":pool:"@ + address@,
{
    let t = i64_text(idx as i64);
    join4("tick:", t.as_str(), ":pool:", address.as_str())
}

/// `liquidity:{address}`
pub fn pool_liquidity(address: &String) -> (r: String)
    ensures
        r@ == "liquidity:"@ + address@,
{
    join2("liquidity:", address.as_str())
}

/// `total_value_locked:{a}:{b}`
pub fn total_value_locked(a: &String, b: &String) -> (r: String)
    ensures
        r@ == "total_value_locked:"@ + a@ + ":"@ + b@,
{
    join4("total_value_locked:", a.as_str(), ":", b.as_str())
}

/// `amount_locked:{pool}:{token}`
pub fn pool_native_total_value_locked_token(pool: &String, token: &String) -> (r: String)
    ensures
        r@ == "amount_locked:"@ + pool@ + ":"@ + token@,
{
    join4("amount_locked:", pool.as_str(), ":", token.as_str())
}

/// `price:{a}:{b}`
pub fn prices_token_pair(a: &String, b: &String) -> (r: String)
    ensures
        r@ == "price:"@ + a@ + ":"@ + b@,
{
    join4("price:", a.as_str(), ":", b.as_str())
}

/// `price:{pool}:{token}:{side}`, the price of a token recorded by one pool
/// (`side` is `token0` or `token1`, the token's place in the pool).
pub fn prices_pool_token_key(pool: &String, token: &String, side: &str) -> (r: String)
    ensures
        r@ == "price:"@ + pool@ + ":"@ + token@ + ":"@ + side@,
{
    let r = join4("price:", pool.as_str(), ":", token.as_str());
    let r = join2(r.as_str(), ":");
    join2(r.as_str(), side)
}

/// `token:{address}:dprice:eth`
pub fn token_derived_eth_price(address: &String) -> (r: String)
    ensures
        r@ == "token:"@ + address@ + ":dprice:eth"@,
{
    let r = join2("token:", address.as_str());
    join2(r.as_str(), ":dprice:eth")
}

/// `token:{address}:whitelist`
pub fn token_pool_whitelist(address: &String) -> (r: String)
    ensures
        r@ == "token:"@ + address@ + ":whitelist"@,
{
    let r = join2("token:", address.as_str());
    join2(r.as_str(), ":whitelist")
}

/// `fee:{fee}:{tick_spacing}`
pub fn fee_key(fee: u32, tick_spacing: i32) -> (r: String)
    ensures
        r@ == "fee:"@ + nat_text(fee as nat) + ":"@ + int_text(tick_spacing as int),
{
    let f = u64_text(fee as u64);
    let t = i64_text(tick_spacing as i64);
    join4("fee:", f.as_str(), ":", t.as_str())
}

} // verus!
