//! Liquidity positions of the position manager.
use crate::decimal::{int_of_text, is_int_text, same_value, Decimal};
use crate::events::{hex_of, hex_text};
use crate::keyer::pool_token_index_key;
use crate::pool::Pool;
use crate::store::{lookup_last, VersionedStore};
use crate::text::{i64_text, int_text, nat_text};
use vstd::prelude::*;

verus! {

/// Text of the zero address.
pub const ZERO_ADDRESS: &'static str = "0000000000000000000000000000000000000000";

/// Relies on `substreams::scalar::BigInt::to_decimal`: the amount divided
/// by `10^decimals` (it divides by the decimal with mantissa 1 and exponent
/// `decimals`, an exact division), the number `amount * 10^(-decimals)`.
#[verifier::external_body]
fn to_decimal(amount: &Decimal, decimals: u64) -> (r: Decimal)
    requires
        amount.wf(),
        amount.scale == 0,
        decimals <= i64::MAX,
    ensures
        r.wf(),
        same_value(r@, (amount@.0, decimals as int)),
{
    let n: substreams::scalar::BigInt = amount.digits.parse().unwrap();
    let text = n.to_decimal(decimals).to_string();
    let (i, s) = text.parse::<bigdecimal::BigDecimal>().unwrap().into_bigint_and_exponent();
    Decimal { digits: i.to_string(), scale: s }
}

#[derive(PartialEq, Eq, Structural, Clone, Copy, Debug)]
pub enum PositionType {
    IncreaseLiquidity,
    DecreaseLiquidity,
    Collect,
    Transfer,
}

/// An event of the position manager about one position.
pub struct PositionEvent {
    pub token_id: String,
    /// Texts of integers.
    pub amount0: String,
    pub amount1: String,
    pub liquidity: String,
}

/// What the position manager's `positions(token_id)` answered.
pub struct PositionsCall {
    pub token0: Vec<u8>,
    pub token1: Vec<u8>,
    pub fee: u32,
    pub tick_lower: i32,
    pub tick_upper: i32,
    pub fee_growth_inside_0_last_x128: String,
    pub fee_growth_inside_1_last_x128: String,
}

pub struct Position {
    pub id: String,
    pub owner: String,
    pub pool: String,
    pub token0: String,
    pub token1: String,
    /// `{pool}#{tick}`
    pub tick_lower: String,
    pub tick_upper: String,
    pub transaction: String,
    pub fee_growth_inside_0_last_x_128: String,
    pub fee_growth_inside_1_last_x_128: String,
    pub liquidity: String,
    pub amount0: Decimal,
    pub amount1: Decimal,
    pub position_type: PositionType,
    pub log_ordinal: u64,
    pub timestamp: u64,
    pub block_number: u64,
}

/// The pool of a position: the one registered for its pair of tokens and
/// its fee, where its tokens' decimals fit a scale.
pub open spec fn position_pool(store_pool: &VersionedStore<Pool>, call: PositionsCall) -> Option<Pool> {
    match lookup_last(
        store_pool@,
        "tokens:"@ + crate::keyer::tokens_pair_text(hex_of(call.token0@), hex_of(call.token1@)) + ":"@
            + nat_text(call.fee as nat),
    ) {
        Some(p) => if p.token0.decimals <= i64::MAX && p.token1.decimals <= i64::MAX {
            Some(p)
        } else {
            None
        },
        None => None,
    }
}

/// The position an event of the position manager is about, from what the
/// manager answered for its token id (`None` where the call failed) and the
/// pool registered for the position's pair of tokens and fee (`None` where
/// there is none, or its decimals do not fit a scale).
pub fn get_position(
    store_pool: &VersionedStore<Pool>,
    transaction_hash: &Vec<u8>,
    position_type: PositionType,
    log_ordinal: u64,
    timestamp: u64,
    block_number: u64,
    event: &PositionEvent,
    positions_call_result: Option<PositionsCall>,
) -> (r: Option<Position>)
    requires
        is_int_text(event.amount0@),
        is_int_text(event.amount1@),
    ensures
        r is Some <==> (positions_call_result matches Some(c) && position_pool(store_pool, c) is Some),
        r matches Some(p) ==> {
            let c = positions_call_result->Some_0;
            let pool = position_pool(store_pool, c)->Some_0;
            &&& p.id@ == event.token_id@
            &&& p.owner@ == ZERO_ADDRESS@
            &&& p.pool@ == pool.address@
            &&& p.token0@ == hex_of(c.token0@)
            &&& p.token1@ == hex_of(c.token1@)
            &&& p.tick_lower@ == pool.address@ + "#"@ + int_text(c.tick_lower as int)
            &&& p.tick_upper@ == pool.address@ + "#"@ + int_text(c.tick_upper as int)
            &&& p.transaction@ == hex_of(transaction_hash@)
            &&& p.fee_growth_inside_0_last_x_128@ == c.fee_growth_inside_0_last_x128@
            &&& p.fee_growth_inside_1_last_x_128@ == c.fee_growth_inside_1_last_x128@
            &&& p.liquidity@ == event.liquidity@
            &&& same_value(p.amount0@, (int_of_text(event.amount0@), pool.token0.decimals as int))
            &&& same_value(p.amount1@, (int_of_text(event.amount1@), pool.token1.decimals as int))
            &&& p.position_type == position_type
            &&& p.log_ordinal == log_ordinal
            &&& p.timestamp == timestamp
            &&& p.block_number == block_number
        },
{
    let call = match positions_call_result {
        Some(c) => c,
        None => {
            return None;
        },
    };
    let token0 = hex_text(&call.token0);
    let token1 = hex_text(&call.token1);
    let key = pool_token_index_key(&token0, &token1, call.fee);
    let pool = match store_pool.get_last(&key) {
        Some(p) => p,
        None => {
            return None;
        },
    };
    if pool.token0.decimals > i64::MAX as u64 || pool.token1.decimals > i64::MAX as u64 {
        return None;
    }
    let amount0 = to_decimal(&Decimal::from_int_text(&event.amount0).unwrap(), pool.token0.decimals);
    let amount1 = to_decimal(&Decimal::from_int_text(&event.amount1).unwrap(), pool.token1.decimals);
    let mut tick_lower = pool.address.clone();
    tick_lower.append("#");
    tick_lower.append(i64_text(call.tick_lower as i64).as_str());
    let mut tick_upper = pool.address.clone();
    tick_upper.append("#");
    tick_upper.append(i64_text(call.tick_upper as i64).as_str());
    Some(
        Position {
            id: event.token_id.clone(),
            owner: String::from_str(ZERO_ADDRESS),
            pool: pool.address.clone(),
            token0,
            token1,
            tick_lower,
            tick_upper,
            transaction: hex_text(transaction_hash),
            fee_growth_inside_0_last_x_128: call.fee_growth_inside_0_last_x128,
            fee_growth_inside_1_last_x_128: call.fee_growth_inside_1_last_x128,
            liquidity: event.liquidity.clone(),
            amount0,
            amount1,
            position_type,
            log_ordinal,
            timestamp,
            block_number,
        },
    )
}

} // verus!
