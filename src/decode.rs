//! Decoding the logs of the factory and of the pools: the event is told by
//! the hash of its signature, the first topic; indexed fields are the other
//! topics, the rest are the words of the data.
use crate::abi::{
    has_word, signed_value, word, word_address, word_i32, word_int_text, word_text, word_u64,
};
use crate::chain::be_value;
use crate::events::{hex_of, hex_text, BurnData, LogEvent, MintData, SwapData};
use crate::text::{int_text, nat_text, text_is};
use vstd::prelude::*;

verus! {

/// `PoolCreated(address,address,uint24,int24,address)`
pub const POOL_CREATED_TOPIC: &'static str = "783cca1c0412dd0d695e784568c96da2e9c22ff989357a2e8b1d9b2b4e6b7118";
/// `Initialize(uint160,int24)`
pub const INITIALIZE_TOPIC: &'static str = "98636036cb66a9c19a37435efc1e90142190214e8abeb821bdba3f2990dd4c95";
/// `Swap(address,address,int256,int256,uint160,uint128,int24)`
pub const SWAP_TOPIC: &'static str = "c42079f94a6350d7e6235f29174924f928cc2ac818eb64fed8004e115fbcca67";
/// `Mint(address,address,int24,int24,uint128,uint256,uint256)`
pub const MINT_TOPIC: &'static str = "7a53080ba414158be7ec69b987b5fb7d07dee101fe85488f0853ae16239d0bde";
/// `Burn(address,int24,int24,uint128,uint256,uint256)`
pub const BURN_TOPIC: &'static str = "0c396cd989a39f4459b5fa1aed6a9a8dcdbc45908acfd67e028cd568da98982c";
/// `FeeAmountEnabled(uint24,int24)`
pub const FEE_AMOUNT_ENABLED_TOPIC: &'static str = "c66a3fdf07232cdd185febcc6579d408c241b47ae2f9907d84be655141eeaecc";
/// `Flash(address,address,uint256,uint256,uint256,uint256)`
pub const FLASH_TOPIC: &'static str = "bdbdb71d7860376ba52b25a5028beea23581364a40522f6bcfb86bb1f2dca633";

pub open spec fn topic(t: Seq<Vec<u8>>, i: int) -> Seq<u8> {
    t[i]@
}

pub open spec fn fits_i32(v: int) -> bool {
    i32::MIN <= v && v <= i32::MAX
}

/// The address in the `i`-th word of `raw`, as hex text.
pub open spec fn address_text(raw: Seq<u8>, i: int) -> Seq<char> {
    hex_of(word(raw, i).subrange(12, 32))
}

pub open spec fn uint_text(raw: Seq<u8>, i: int) -> Seq<char> {
    nat_text(be_value(word(raw, i)))
}

pub open spec fn sint_text(raw: Seq<u8>, i: int) -> Seq<char> {
    int_text(signed_value(word(raw, i)))
}

/// Which event the first topic names: 0 pool created, 1 initialize, 2 swap,
/// 3 mint, 4 burn, 5 fee amount enabled, 6 flash, 7 none of them.
pub open spec fn event_kind(t: Seq<Vec<u8>>) -> int {
    if t.len() == 0 || topic(t, 0).len() != 32 {
        7
    } else {
        let h = hex_of(topic(t, 0));
        if h == POOL_CREATED_TOPIC@ {
            0
        } else if h == INITIALIZE_TOPIC@ {
            1
        } else if h == SWAP_TOPIC@ {
            2
        } else if h == MINT_TOPIC@ {
            3
        } else if h == BURN_TOPIC@ {
            4
        } else if h == FEE_AMOUNT_ENABLED_TOPIC@ {
            5
        } else if h == FLASH_TOPIC@ {
            6
        } else {
            7
        }
    }
}

/// The topics and data have the words the event's fields are read from, and
/// each value fits its field.
pub open spec fn has_fields(kind: int, t: Seq<Vec<u8>>, d: Seq<u8>) -> bool {
    if kind == 0 {
        &&& t.len() == 4
        &&& has_word(topic(t, 1), 0) && has_word(topic(t, 2), 0) && has_word(topic(t, 3), 0)
        &&& be_value(word(topic(t, 3), 0)) <= u32::MAX
        &&& has_word(d, 1) && fits_i32(signed_value(word(d, 0)))
    } else if kind == 1 {
        t.len() == 1 && has_word(d, 1) && fits_i32(signed_value(word(d, 1)))
    } else if kind == 2 {
        &&& t.len() == 3 && has_word(topic(t, 1), 0) && has_word(topic(t, 2), 0)
        &&& has_word(d, 4) && fits_i32(signed_value(word(d, 4)))
    } else if kind == 3 || kind == 4 {
        &&& t.len() == 4
        &&& has_word(topic(t, 1), 0) && has_word(topic(t, 2), 0) && has_word(topic(t, 3), 0)
        &&& fits_i32(signed_value(word(topic(t, 2), 0))) && fits_i32(signed_value(word(topic(t, 3), 0)))
        &&& has_word(d, if kind == 3 { 3int } else { 2int })
    } else if kind == 5 {
        &&& t.len() == 3 && has_word(topic(t, 1), 0) && has_word(topic(t, 2), 0)
        &&& be_value(word(topic(t, 1), 0)) <= u32::MAX && fits_i32(signed_value(word(topic(t, 2), 0)))
    } else if kind == 6 {
        t.len() == 3 && has_word(topic(t, 1), 0) && has_word(topic(t, 2), 0)
    } else {
        false
    }
}

/// The event holds the fields read from the topics and data.
pub open spec fn fields_read(e: LogEvent, t: Seq<Vec<u8>>, d: Seq<u8>) -> bool {
    match e {
        LogEvent::PoolCreated { token0, token1, fee, tick_spacing, pool } => {
            &&& token0@ == word(topic(t, 1), 0).subrange(12, 32)
            &&& token1@ == word(topic(t, 2), 0).subrange(12, 32)
            &&& fee as int == be_value(word(topic(t, 3), 0))
            &&& tick_spacing as int == signed_value(word(d, 0))
            &&& pool@ == word(d, 1).subrange(12, 32)
        },
        LogEvent::Initialize { sqrt_price, tick } => {
            &&& sqrt_price@ == uint_text(d, 0)
            &&& tick as int == signed_value(word(d, 1))
        },
        LogEvent::Swap(s) => {
            &&& s.sender@ == address_text(topic(t, 1), 0)
            &&& s.recipient@ == address_text(topic(t, 2), 0)
            &&& s.amount_0@ == sint_text(d, 0)
            &&& s.amount_1@ == sint_text(d, 1)
            &&& s.sqrt_price@ == uint_text(d, 2)
            &&& s.liquidity@ == uint_text(d, 3)
            &&& s.tick as int == signed_value(word(d, 4))
        },
        LogEvent::Mint(m) => {
            &&& m.owner@ == address_text(topic(t, 1), 0)
            &&& m.sender@ == address_text(d, 0)
            &&& m.tick_lower as int == signed_value(word(topic(t, 2), 0))
            &&& m.tick_upper as int == signed_value(word(topic(t, 3), 0))
            &&& m.amount@ == uint_text(d, 1)
            &&& m.amount_0@ == uint_text(d, 2)
            &&& m.amount_1@ == uint_text(d, 3)
        },
        LogEvent::Burn(b) => {
            &&& b.owner@ == address_text(topic(t, 1), 0)
            &&& b.tick_lower as int == signed_value(word(topic(t, 2), 0))
            &&& b.tick_upper as int == signed_value(word(topic(t, 3), 0))
            &&& b.amount@ == uint_text(d, 0)
            &&& b.amount_0@ == uint_text(d, 1)
            &&& b.amount_1@ == uint_text(d, 2)
        },
        LogEvent::FeeAmountEnabled { fee, tick_spacing } => {
            &&& fee as int == be_value(word(topic(t, 1), 0))
            &&& tick_spacing as int == signed_value(word(topic(t, 2), 0))
        },
        LogEvent::Flash { sender, recipient } => {
            &&& sender@ == address_text(topic(t, 1), 0)
            &&& recipient@ == address_text(topic(t, 2), 0)
        },
        LogEvent::Other => true,
    }
}

/// The kind of event each variant stands for.
pub open spec fn kind_of(e: LogEvent) -> int {
    match e {
        LogEvent::PoolCreated { .. } => 0,
        LogEvent::Initialize { .. } => 1,
        LogEvent::Swap(_) => 2,
        LogEvent::Mint(_) => 3,
        LogEvent::Burn(_) => 4,
        LogEvent::FeeAmountEnabled { .. } => 5,
        LogEvent::Flash { .. } => 6,
        LogEvent::Other => 7,
    }
}

fn address_at(raw: &Vec<u8>, i: usize) -> (r: Option<String>)
    ensures
        r is Some <==> has_word(raw@, i as int),
        r matches Some(s) ==> s@ == address_text(raw@, i as int),
{
    match word_address(raw, i) {
        Some(a) => Some(hex_text(&a)),
        None => None,
    }
}

fn fee_at(raw: &Vec<u8>, i: usize) -> (r: Option<u32>)
    ensures
        r is Some <==> has_word(raw@, i as int) && be_value(word(raw@, i as int)) <= u32::MAX,
        r matches Some(v) ==> v as int == be_value(word(raw@, i as int)),
{
    match word_u64(raw, i) {
        Some(v) => if v <= u32::MAX as u64 {
            Some(v as u32)
        } else {
            None
        },
        None => None,
    }
}

fn decode_fields(kind: u8, topics: &Vec<Vec<u8>>, data: &Vec<u8>) -> (r: Option<LogEvent>)
    requires
        kind < 7,
    ensures
        r is Some <==> has_fields(kind as int, topics@, data@),
        r matches Some(e) ==> kind_of(e) == kind && fields_read(e, topics@, data@),
{
    let n = topics.len();
    if kind == 0 {
        if n != 4 {
            return None;
        }
        let token0 = match word_address(&topics[1], 0) { Some(v) => v, None => { return None; } };
        let token1 = match word_address(&topics[2], 0) { Some(v) => v, None => { return None; } };
        let fee = match fee_at(&topics[3], 0) { Some(v) => v, None => { return None; } };
        let pool = match word_address(data, 1) { Some(v) => v, None => { return None; } };
        let tick_spacing = match word_i32(data, 0) { Some(v) => v, None => { return None; } };
        Some(LogEvent::PoolCreated { token0, token1, fee, tick_spacing, pool })
    } else if kind == 1 {
        if n != 1 {
            return None;
        }
        let tick = match word_i32(data, 1) { Some(v) => v, None => { return None; } };
        let sqrt_price = match word_text(data, 0) { Some(v) => v, None => { return None; } };
        Some(LogEvent::Initialize { sqrt_price, tick })
    } else if kind == 2 {
        if n != 3 {
            return None;
        }
        let sender = match address_at(&topics[1], 0) { Some(v) => v, None => { return None; } };
        let recipient = match address_at(&topics[2], 0) { Some(v) => v, None => { return None; } };
        let tick = match word_i32(data, 4) { Some(v) => v, None => { return None; } };
        let amount_0 = match word_int_text(data, 0) { Some(v) => v, None => { return None; } };
        let amount_1 = match word_int_text(data, 1) { Some(v) => v, None => { return None; } };
        let sqrt_price = match word_text(data, 2) { Some(v) => v, None => { return None; } };
        let liquidity = match word_text(data, 3) { Some(v) => v, None => { return None; } };
        Some(LogEvent::Swap(SwapData { sender, recipient, amount_0, amount_1, sqrt_price, liquidity, tick }))
    } else if kind == 3 || kind == 4 {
        if n != 4 {
            return None;
        }
        let owner = match address_at(&topics[1], 0) { Some(v) => v, None => { return None; } };
        let tick_lower = match word_i32(&topics[2], 0) { Some(v) => v, None => { return None; } };
        let tick_upper = match word_i32(&topics[3], 0) { Some(v) => v, None => { return None; } };
        if kind == 3 {
            let amount_1 = match word_text(data, 3) { Some(v) => v, None => { return None; } };
            let amount_0 = match word_text(data, 2) { Some(v) => v, None => { return None; } };
            let amount = match word_text(data, 1) { Some(v) => v, None => { return None; } };
            let sender = match address_at(data, 0) { Some(v) => v, None => { return None; } };
            Some(LogEvent::Mint(MintData { owner, sender, amount_0, amount_1, tick_lower, tick_upper, amount }))
        } else {
            let amount_1 = match word_text(data, 2) { Some(v) => v, None => { return None; } };
            let amount_0 = match word_text(data, 1) { Some(v) => v, None => { return None; } };
            let amount = match word_text(data, 0) { Some(v) => v, None => { return None; } };
            Some(LogEvent::Burn(BurnData { owner, amount_0, amount_1, tick_lower, tick_upper, amount }))
        }
    } else if kind == 5 {
        if n != 3 {
            return None;
        }
        let fee = match fee_at(&topics[1], 0) { Some(v) => v, None => { return None; } };
        let tick_spacing = match word_i32(&topics[2], 0) { Some(v) => v, None => { return None; } };
        Some(LogEvent::FeeAmountEnabled { fee, tick_spacing })
    } else {
        if n != 3 {
            return None;
        }
        let sender = match address_at(&topics[1], 0) { Some(v) => v, None => { return None; } };
        let recipient = match address_at(&topics[2], 0) { Some(v) => v, None => { return None; } };
        Some(LogEvent::Flash { sender, recipient })
    }
}

/// The event a log holds: told by its first topic, with its fields read from
/// the other topics and the data; `Other` where the first topic names none
/// of these events or the log does not hold the event's fields.
pub fn decode_log(topics: &Vec<Vec<u8>>, data: &Vec<u8>) -> (r: LogEvent)
    ensures
        event_kind(topics@) < 7 && has_fields(event_kind(topics@), topics@, data@) ==> kind_of(r)
            == event_kind(topics@) && fields_read(r, topics@, data@),
        !(event_kind(topics@) < 7 && has_fields(event_kind(topics@), topics@, data@)) ==> r is Other,
{
    if topics.len() == 0 || topics[0].len() != 32 {
        return LogEvent::Other;
    }
    let h = hex_text(&topics[0]);
    let kind: u8 = if text_is(&h, POOL_CREATED_TOPIC) {
        0
    } else if text_is(&h, INITIALIZE_TOPIC) {
        1
    } else if text_is(&h, SWAP_TOPIC) {
        2
    } else if text_is(&h, MINT_TOPIC) {
        3
    } else if text_is(&h, BURN_TOPIC) {
        4
    } else if text_is(&h, FEE_AMOUNT_ENABLED_TOPIC) {
        5
    } else if text_is(&h, FLASH_TOPIC) {
        6
    } else {
        7
    };
    if kind == 7 {
        return LogEvent::Other;
    }
    match decode_fields(kind, topics, data) {
        Some(e) => e,
        None => LogEvent::Other,
    }
}

} // verus!
