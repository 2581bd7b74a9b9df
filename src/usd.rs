//! Dollar amounts of token amounts.
use crate::decimal::{
    fits_i64, plus, product, same_value, sum, times,
    Decimal,
};
use crate::tokens::{is_whitelist_token, whitelist_contains};
use vstd::prelude::*;

verus! {

/// `amount * (price * usd)`, in dollars.
pub open spec fn usd_value(amount: (int, int), price: (int, int), usd: (int, int)) -> (int, int) {
    product(amount, product(price, usd))
}

/// The scales of `amount * (price * usd)` stay in range.
pub open spec fn usd_fits(amount: (int, int), price: (int, int), usd: (int, int)) -> bool {
    fits_i64(price.1 + usd.1) && fits_i64(amount.1 + price.1 + usd.1)
}

fn usd_of(amount: &Decimal, price: &Decimal, usd: &Decimal) -> (r: Decimal)
    requires
        amount.wf(),
        price.wf(),
        usd.wf(),
        usd_fits(amount@, price@, usd@),
    ensures
        r.wf(),
        r@ == usd_value(amount@, price@, usd@),
{
    let p = times(price, usd);
    times(amount, &p)
}

/// The dollar value of two amounts of the tokens of a pool, each priced in
/// ether and ether priced in dollars.
pub fn calculate_amount_usd(
    amount0: &Decimal,
    amount1: &Decimal,
    token0_derived_eth_price: &Decimal,
    token1_derived_eth_price: &Decimal,
    bundle_eth_price: &Decimal,
) -> (r: Decimal)
    requires
        amount0.wf(),
        amount1.wf(),
        token0_derived_eth_price.wf(),
        token1_derived_eth_price.wf(),
        bundle_eth_price.wf(),
        usd_fits(amount0@, token0_derived_eth_price@, bundle_eth_price@),
        usd_fits(amount1@, token1_derived_eth_price@, bundle_eth_price@),
    ensures
        r.wf(),
        same_value(
            r@,
            sum(
                usd_value(amount0@, token0_derived_eth_price@, bundle_eth_price@),
                usd_value(amount1@, token1_derived_eth_price@, bundle_eth_price@),
            ),
        ),
{
    let a = usd_of(amount0, token0_derived_eth_price, bundle_eth_price);
    let b = usd_of(amount1, token1_derived_eth_price, bundle_eth_price);
    plus(&a, &b)
}

/// The dollar value of a swap counted towards volume: where both tokens are
/// whitelisted, the sum of both amounts' values; where only one is, twice the
/// value of its amount; where neither is, zero.
pub open spec fn tracked_usd(
    token0: Seq<char>,
    token1: Seq<char>,
    price0: (int, int),
    price1: (int, int),
    a0: (int, int),
    a1: (int, int),
    usd: (int, int),
) -> (int, int) {
    if is_whitelist_token(token0) && is_whitelist_token(token1) {
        sum(usd_value(a0, price0, usd), usd_value(a1, price1, usd))
    } else if is_whitelist_token(token0) {
        product(usd_value(a0, price0, usd), (2, 0))
    } else if is_whitelist_token(token1) {
        product(usd_value(a1, price1, usd), (2, 0))
    } else {
        (0, 0)
    }
}

/// The dollar value of a swap counted towards volume.
pub fn get_tracked_amount_usd(
    token0_id: &String,
    token1_id: &String,
    token0_derived_eth_price: &Decimal,
    token1_derived_eth_price: &Decimal,
    amount0_abs: &Decimal,
    amount1_abs: &Decimal,
    eth_price_in_usd: &Decimal,
) -> (r: Decimal)
    requires
        token0_derived_eth_price.wf(),
        token1_derived_eth_price.wf(),
        amount0_abs.wf(),
        amount1_abs.wf(),
        eth_price_in_usd.wf(),
        usd_fits(amount0_abs@, token0_derived_eth_price@, eth_price_in_usd@),
        usd_fits(amount1_abs@, token1_derived_eth_price@, eth_price_in_usd@),
    ensures
        r.wf(),
        same_value(
            r@,
            tracked_usd(
                token0_id@,
                token1_id@,
                token0_derived_eth_price@,
                token1_derived_eth_price@,
                amount0_abs@,
                amount1_abs@,
                eth_price_in_usd@,
            ),
        ),
{
    let w0 = whitelist_contains(token0_id);
    let w1 = whitelist_contains(token1_id);
    if w0 && w1 {
        return calculate_amount_usd(
            amount0_abs,
            amount1_abs,
            token0_derived_eth_price,
            token1_derived_eth_price,
            eth_price_in_usd,
        );
    }
    if w0 {
        let v = usd_of(amount0_abs, token0_derived_eth_price, eth_price_in_usd);
        return times(&v, &Decimal::from_u64(2));
    }
    if w1 {
        let v = usd_of(amount1_abs, token1_derived_eth_price, eth_price_in_usd);
        return times(&v, &Decimal::from_u64(2));
    }
    Decimal::zero()
}

} // verus!
