//! Decoded logs of a block and the records mapped from them.
//!
//! A block arrives as the ordered list of its decoded logs; each carries the
//! transaction it belongs to, the address of the contract that emitted it,
//! its ordinal (unique and increasing within the block) and whether the call
//! that emitted it was reverted. Logs of reverted calls are never mapped.
use crate::text::digit_char;
use vstd::prelude::*;

verus! {

/// Address of the factory contract that creates the pools.
pub const UNISWAP_V3_FACTORY: &'static str = "1f98431c8ad98523631ae4a59f267346ea31f984";

pub open spec fn hex_digit(n: nat) -> char {
    if n < 10 {
        digit_char(n)
    } else if n == 10 {
        'a'
    } else if n == 11 {
        'b'
    } else if n == 12 {
        'c'
    } else if n == 13 {
        'd'
    } else if n == 14 {
        'e'
    } else {
        'f'
    }
}

/// Lower-case hex text of bytes, two digits per byte.
pub open spec fn hex_of(b: Seq<u8>) -> Seq<char>
    decreases b.len(),
{
    if b.len() == 0 {
        Seq::empty()
    } else {
        hex_of(b.drop_last()).push(hex_digit(b.last() as nat / 16)).push(
            hex_digit(b.last() as nat % 16),
        )
    }
}

/// Relies on `hex::encode`: two lower-case hex digits for each byte, in order.
#[verifier::external_body]
pub(crate) fn hex_text(b: &Vec<u8>) -> (r: String)
    ensures
        r@ == hex_of(b@),
{
    ::hex::encode(b)
}

/// What a swap did to a pool.
pub struct SwapData {
    pub sender: String,
    pub recipient: String,
    pub amount_0: String,
    pub amount_1: String,
    pub sqrt_price: String,
    pub liquidity: String,
    pub tick: i32,
}

/// Liquidity added to a pool between two ticks.
pub struct MintData {
    pub owner: String,
    pub sender: String,
    pub amount_0: String,
    pub amount_1: String,
    pub tick_lower: i32,
    pub tick_upper: i32,
    pub amount: String,
}

/// Liquidity removed from a pool between two ticks.
pub struct BurnData {
    pub owner: String,
    pub amount_0: String,
    pub amount_1: String,
    pub tick_lower: i32,
    pub tick_upper: i32,
    pub amount: String,
}

impl SwapData {
    pub fn duplicate(&self) -> (r: SwapData)
        ensures
            r == *self,
    {
        SwapData {
            sender: self.sender.clone(),
            recipient: self.recipient.clone(),
            amount_0: self.amount_0.clone(),
            amount_1: self.amount_1.clone(),
            sqrt_price: self.sqrt_price.clone(),
            liquidity: self.liquidity.clone(),
            tick: self.tick,
        }
    }
}

impl MintData {
    pub fn duplicate(&self) -> (r: MintData)
        ensures
            r == *self,
    {
        MintData {
            owner: self.owner.clone(),
            sender: self.sender.clone(),
            amount_0: self.amount_0.clone(),
            amount_1: self.amount_1.clone(),
            tick_lower: self.tick_lower,
            tick_upper: self.tick_upper,
            amount: self.amount.clone(),
        }
    }
}

impl BurnData {
    pub fn duplicate(&self) -> (r: BurnData)
        ensures
            r == *self,
    {
        BurnData {
            owner: self.owner.clone(),
            amount_0: self.amount_0.clone(),
            amount_1: self.amount_1.clone(),
            tick_lower: self.tick_lower,
            tick_upper: self.tick_upper,
            amount: self.amount.clone(),
        }
    }
}

/// A decoded log. Addresses in payloads are hex text; amounts are the
/// decimal text of integers.
pub enum LogEvent {
    PoolCreated { token0: Vec<u8>, token1: Vec<u8>, fee: u32, tick_spacing: i32, pool: Vec<u8> },
    Initialize { sqrt_price: String, tick: i32 },
    Swap(SwapData),
    Mint(MintData),
    Burn(BurnData),
    FeeAmountEnabled { fee: u32, tick_spacing: i32 },
    Flash { sender: String, recipient: String },
    Other,
}

pub struct LogEntry {
    pub transaction_hash: Vec<u8>,
    /// The contract that emitted the log.
    pub address: Vec<u8>,
    pub ordinal: u64,
    /// The call that emitted the log was reverted.
    pub reverted: bool,
    pub event: LogEvent,
}

pub struct Block {
    pub number: u64,
    pub timestamp: u64,
    pub logs: Vec<LogEntry>,
}

/// The items `f` gives for the elements of `s`, in order, where it gives one.
pub open spec fn filter_map<A, B>(s: Seq<A>, f: spec_fn(A) -> Option<B>) -> Seq<B>
    decreases s.len(),
{
    if s.len() == 0 {
        Seq::empty()
    } else {
        let p = filter_map(s.drop_last(), f);
        match f(s.last()) {
            Some(b) => p.push(b),
            None => p,
        }
    }
}

pub proof fn lemma_filter_map_step<A, B>(s: Seq<A>, f: spec_fn(A) -> Option<B>, i: int)
    requires
        0 <= i < s.len(),
    ensures
        filter_map(s.take(i + 1), f) == match f(s[i]) {
            Some(b) => filter_map(s.take(i), f).push(b),
            None => filter_map(s.take(i), f),
        },
{
    assert(s.take(i + 1).drop_last() =~= s.take(i));
    assert(s.take(i + 1).last() == s[i]);
}

pub ghost struct PoolInitializationModel {
    pub address: Seq<char>,
    pub initialization_transaction_id: Seq<char>,
    pub log_ordinal: u64,
    pub tick: i32,
    pub sqrt_price: Seq<char>,
}

pub struct PoolInitialization {
    pub address: String,
    pub initialization_transaction_id: String,
    pub log_ordinal: u64,
    pub tick: i32,
    pub sqrt_price: String,
}

impl View for PoolInitialization {
    type V = PoolInitializationModel;

    open spec fn view(&self) -> PoolInitializationModel {
        PoolInitializationModel {
            address: self.address@,
            initialization_transaction_id: self.initialization_transaction_id@,
            log_ordinal: self.log_ordinal,
            tick: self.tick,
            sqrt_price: self.sqrt_price@,
        }
    }
}

impl PoolInitialization {
    pub fn duplicate(&self) -> (r: PoolInitialization)
        ensures
            r == *self,
    {
        PoolInitialization {
            address: self.address.clone(),
            initialization_transaction_id: self.initialization_transaction_id.clone(),
            log_ordinal: self.log_ordinal,
            tick: self.tick,
            sqrt_price: self.sqrt_price.clone(),
        }
    }
}

pub open spec fn initialization_of(e: LogEntry) -> Option<PoolInitializationModel> {
    match e.event {
        LogEvent::Initialize { sqrt_price, tick } => if e.reverted {
            None
        } else {
            Some(
                PoolInitializationModel {
                    address: hex_of(e.address@),
                    initialization_transaction_id: hex_of(e.transaction_hash@),
                    log_ordinal: e.ordinal,
                    tick,
                    sqrt_price: sqrt_price@,
                },
            )
        },
        _ => None,
    }
}

/// The initializations of pools in the block, in order.
pub fn map_pools_initialized(block: &Block) -> (r: Vec<PoolInitialization>)
    ensures
        r@.map_values(|x: PoolInitialization| x@) == filter_map(
            block.logs@,
            |e: LogEntry| initialization_of(e),
        ),
{
    let mut out: Vec<PoolInitialization> = Vec::new();
    let mut i: usize = 0;
    while i < block.logs.len()
        invariant
            i <= block.logs@.len(),
            out@.map_values(|x: PoolInitialization| x@) == filter_map(
                block.logs@.take(i as int),
                |e: LogEntry| initialization_of(e),
            ),
        decreases block.logs@.len() - i,
    {
        let log = &block.logs[i];
        proof {
            lemma_filter_map_step(block.logs@, |e: LogEntry| initialization_of(e), i as int);
        }
        match &log.event {
            LogEvent::Initialize { sqrt_price, tick } => {
                if !log.reverted {
                    let item = PoolInitialization {
                        address: hex_text(&log.address),
                        initialization_transaction_id: hex_text(&log.transaction_hash),
                        log_ordinal: log.ordinal,
                        tick: *tick,
                        sqrt_price: sqrt_price.clone(),
                    };
                    let ghost prev = out@;
                    out.push(item);
                    proof {
                        assert(out@.map_values(|x: PoolInitialization| x@) =~= prev.map_values(
                            |x: PoolInitialization| x@,
                        ).push(item@));
                    }
                }
            },
            _ => {},
        }
        i = i + 1;
    }
    proof {
        assert(block.logs@.take(block.logs@.len() as int) =~= block.logs@);
    }
    out
}

pub ghost struct SqrtPriceUpdateModel {
    pub pool_address: Seq<char>,
    pub ordinal: u64,
    pub sqrt_price: Seq<char>,
    pub tick: i32,
}

/// A new square-root price of a pool, from its initialization or a swap.
pub struct SqrtPriceUpdate {
    pub pool_address: String,
    pub ordinal: u64,
    pub sqrt_price: String,
    pub tick: i32,
}

impl View for SqrtPriceUpdate {
    type V = SqrtPriceUpdateModel;

    open spec fn view(&self) -> SqrtPriceUpdateModel {
        SqrtPriceUpdateModel {
            pool_address: self.pool_address@,
            ordinal: self.ordinal,
            sqrt_price: self.sqrt_price@,
            tick: self.tick,
        }
    }
}

impl SqrtPriceUpdate {
    pub fn duplicate(&self) -> (r: SqrtPriceUpdate)
        ensures
            r == *self,
    {
        SqrtPriceUpdate {
            pool_address: self.pool_address.clone(),
            ordinal: self.ordinal,
            sqrt_price: self.sqrt_price.clone(),
            tick: self.tick,
        }
    }
}

pub open spec fn sqrt_price_update_of(e: LogEntry) -> Option<SqrtPriceUpdateModel> {
    if e.reverted {
        None
    } else {
        match e.event {
            LogEvent::Initialize { sqrt_price, tick } => Some(
                SqrtPriceUpdateModel {
                    pool_address: hex_of(e.address@),
                    ordinal: e.ordinal,
                    sqrt_price: sqrt_price@,
                    tick,
                },
            ),
            LogEvent::Swap(s) => Some(
                SqrtPriceUpdateModel {
                    pool_address: hex_of(e.address@),
                    ordinal: e.ordinal,
                    sqrt_price: s.sqrt_price@,
                    tick: s.tick,
                },
            ),
            _ => None,
        }
    }
}

/// The square-root prices set by initializations and swaps in the block, in order.
pub fn map_sqrt_price(block: &Block) -> (r: Vec<SqrtPriceUpdate>)
    ensures
        r@.map_values(|x: SqrtPriceUpdate| x@) == filter_map(
            block.logs@,
            |e: LogEntry| sqrt_price_update_of(e),
        ),
{
    let mut out: Vec<SqrtPriceUpdate> = Vec::new();
    let mut i: usize = 0;
    while i < block.logs.len()
        invariant
            i <= block.logs@.len(),
            out@.map_values(|x: SqrtPriceUpdate| x@) == filter_map(
                block.logs@.take(i as int),
                |e: LogEntry| sqrt_price_update_of(e),
            ),
        decreases block.logs@.len() - i,
    {
        let log = &block.logs[i];
        proof {
            lemma_filter_map_step(block.logs@, |e: LogEntry| sqrt_price_update_of(e), i as int);
        }
        if !log.reverted {
            let found: Option<(&String, i32)> = match &log.event {
                LogEvent::Initialize { sqrt_price, tick } => Some((sqrt_price, *tick)),
                LogEvent::Swap(s) => Some((&s.sqrt_price, s.tick)),
                _ => None,
            };
            match found {
                Some((sqrt_price, tick)) => {
                    let item = SqrtPriceUpdate {
                        pool_address: hex_text(&log.address),
                        ordinal: log.ordinal,
                        sqrt_price: sqrt_price.clone(),
                        tick,
                    };
                    let ghost prev = out@;
                    out.push(item);
                    proof {
                        assert(out@.map_values(|x: SqrtPriceUpdate| x@) =~= prev.map_values(
                            |x: SqrtPriceUpdate| x@,
                        ).push(item@));
                    }
                },
                None => {},
            }
        }
        i = i + 1;
    }
    proof {
        assert(block.logs@.take(block.logs@.len() as int) =~= block.logs@);
    }
    out
}

/// A fee tier enabled on the factory, with its tick spacing.
#[derive(PartialEq, Eq, Structural, Clone, Copy, Debug)]
pub struct Fee {
    pub fee: u32,
    pub tick_spacing: i32,
}

impl View for Fee {
    type V = Fee;

    open spec fn view(&self) -> Fee {
        *self
    }
}

impl View for SwapData {
    type V = SwapData;

    open spec fn view(&self) -> SwapData {
        *self
    }
}

pub open spec fn fee_of(e: LogEntry) -> Option<Fee> {
    match e.event {
        LogEvent::FeeAmountEnabled { fee, tick_spacing } => if e.reverted {
            None
        } else {
            Some(Fee { fee, tick_spacing })
        },
        _ => None,
    }
}

/// The fee tiers enabled in the block, in order.
pub fn map_fees(block: &Block) -> (r: Vec<Fee>)
    ensures
        r@ == filter_map(block.logs@, |e: LogEntry| fee_of(e)),
{
    let mut out: Vec<Fee> = Vec::new();
    let mut i: usize = 0;
    while i < block.logs.len()
        invariant
            i <= block.logs@.len(),
            out@ == filter_map(block.logs@.take(i as int), |e: LogEntry| fee_of(e)),
        decreases block.logs@.len() - i,
    {
        let log = &block.logs[i];
        proof {
            lemma_filter_map_step(block.logs@, |e: LogEntry| fee_of(e), i as int);
        }
        match &log.event {
            LogEvent::FeeAmountEnabled { fee, tick_spacing } => {
                if !log.reverted {
                    out.push(Fee { fee: *fee, tick_spacing: *tick_spacing });
                }
            },
            _ => {},
        }
        i = i + 1;
    }
    proof {
        assert(block.logs@.take(block.logs@.len() as int) =~= block.logs@);
    }
    out
}

pub ghost struct FlashModel {
    pub sender: Seq<char>,
    pub recipient: Seq<char>,
    pub transaction_id: Seq<char>,
    pub log_ordinal: u64,
}

/// A flash loan taken from a pool. The amounts are not decoded and stay empty.
pub struct Flash {
    pub sender: String,
    pub recipient: String,
    pub amount_0: String,
    pub amount_1: String,
    pub paid_0: String,
    pub paid_1: String,
    pub transaction_id: String,
    pub log_ordinal: u64,
}

impl View for Flash {
    type V = FlashModel;

    open spec fn view(&self) -> FlashModel {
        FlashModel {
            sender: self.sender@,
            recipient: self.recipient@,
            transaction_id: self.transaction_id@,
            log_ordinal: self.log_ordinal,
        }
    }
}

pub open spec fn flash_of(e: LogEntry) -> Option<FlashModel> {
    match e.event {
        LogEvent::Flash { sender, recipient } => if e.reverted {
            None
        } else {
            Some(
                FlashModel {
                    sender: sender@,
                    recipient: recipient@,
                    transaction_id: hex_of(e.transaction_hash@),
                    log_ordinal: e.ordinal,
                },
            )
        },
        _ => None,
    }
}

/// The flash loans of the block, in order.
pub fn map_flashes(block: &Block) -> (r: Vec<Flash>)
    ensures
        r@.map_values(|x: Flash| x@) == filter_map(block.logs@, |e: LogEntry| flash_of(e)),
        forall|i: int|
            0 <= i < r@.len() ==> (#[trigger] r@[i]).amount_0@.len() == 0 && r@[i].amount_1@.len()
                == 0 && r@[i].paid_0@.len() == 0 && r@[i].paid_1@.len() == 0,
{
    let mut out: Vec<Flash> = Vec::new();
    let mut i: usize = 0;
    while i < block.logs.len()
        invariant
            i <= block.logs@.len(),
            out@.map_values(|x: Flash| x@) == filter_map(
                block.logs@.take(i as int),
                |e: LogEntry| flash_of(e),
            ),
            forall|j: int|
                0 <= j < out@.len() ==> (#[trigger] out@[j]).amount_0@.len() == 0
                    && out@[j].amount_1@.len() == 0 && out@[j].paid_0@.len() == 0
                    && out@[j].paid_1@.len() == 0,
        decreases block.logs@.len() - i,
    {
        let log = &block.logs[i];
        proof {
            lemma_filter_map_step(block.logs@, |e: LogEntry| flash_of(e), i as int);
        }
        match &log.event {
            LogEvent::Flash { sender, recipient } => {
                if !log.reverted {
                    let item = Flash {
                        sender: sender.clone(),
                        recipient: recipient.clone(),
                        amount_0: String::new(),
                        amount_1: String::new(),
                        paid_0: String::new(),
                        paid_1: String::new(),
                        transaction_id: hex_text(&log.transaction_hash),
                        log_ordinal: log.ordinal,
                    };
                    let ghost prev = out@;
                    out.push(item);
                    proof {
                        assert(out@.map_values(|x: Flash| x@) =~= prev.map_values(|x: Flash| x@).push(
                            item@,
                        ));
                    }
                }
            },
            _ => {},
        }
        i = i + 1;
    }
    proof {
        assert(block.logs@.take(block.logs@.len() as int) =~= block.logs@);
    }
    out
}

} // verus!
