//! The store handlers: each takes the records mapped from a block and writes
//! them, keyed and versioned by ordinal, into its store.
use crate::decimal::{int_of_text, is_int_text, negate, negated, same_value, sum, Decimal};
use crate::events::{
    fee_of, Block, Fee, LogEntry, LogEvent, PoolInitialization,
    PoolInitializationModel, SqrtPriceUpdate, SqrtPriceUpdateModel, SwapData,
};
use crate::keyer::{
    fee_key, pool_init_key, pool_key, pool_liquidity, pool_native_total_value_locked_token,
    pool_token_index_key, prices_pool_token_key, prices_token_pair, sqrt_price_key, tick_key, token_derived_eth_price, token_pool_whitelist,
    tokens_key, tokens_pair_text, total_value_locked,
};
use crate::price::{
    eth_per_token, find_eth_per_token, spot_prices, DECIMALS_BOUND, sqrt_price_x96_to_token_prices, tick_prices,
    tick_prices_of,
};
use crate::tokens::{is_whitelist_token, whitelist_contains};
use crate::pool::{pool_models, Pool, PoolModel};
use crate::pool_events::{Event, EventKind, EventModel};
use crate::store::{
    additions_applied, appends_applied, lemma_additions_extend, lemma_additions_total,
    lemma_appends_extend, number_last, total_for,
    lemma_viewed_push, lookup_at, lookup_last, numbers_match, viewed,
    VersionedStore, Write,
};
use crate::text::{int_text, nat_text};
use vstd::prelude::*;

verus! {

pub open spec fn sqrt_price_models(s: Seq<SqrtPriceUpdate>) -> Seq<SqrtPriceUpdateModel> {
    s.map_values(|u: SqrtPriceUpdate| u@)
}

/// One write per update, under `sqrt_price:{pool}` at the update's ordinal.
pub open spec fn sqrt_price_writes(s: Seq<SqrtPriceUpdateModel>) -> Seq<
    (u64, Seq<char>, SqrtPriceUpdateModel),
>
    decreases s.len(),
{
    if s.len() == 0 {
        Seq::empty()
    } else {
        let u = s.last();
        sqrt_price_writes(s.drop_last()).push((u.ordinal, "sqrt_price:"@ + u.pool_address, u))
    }
}

/// Records each new square-root price of a pool.
pub fn store_sqrt_price(sqrt_prices: &Vec<SqrtPriceUpdate>, output: &mut VersionedStore<SqrtPriceUpdate>)
    ensures
        viewed(final(output)@) == viewed(old(output)@) + sqrt_price_writes(
            sqrt_price_models(sqrt_prices@),
        ),
{
    let ghost start = viewed(output@);
    let mut i: usize = 0;
    proof {
        assert(sqrt_price_models(sqrt_prices@.take(0)) =~= Seq::<SqrtPriceUpdateModel>::empty());
        assert(start + sqrt_price_writes(Seq::empty()) =~= start);
    }
    while i < sqrt_prices.len()
        invariant
            i <= sqrt_prices@.len(),
            viewed(output@) == start + sqrt_price_writes(sqrt_price_models(sqrt_prices@.take(i as int))),
        decreases sqrt_prices@.len() - i,
    {
        let u = &sqrt_prices[i];
        let key = sqrt_price_key(&u.pool_address);
        let ghost before = output@;
        output.set(u.ordinal, key, u.duplicate());
        proof {
            lemma_viewed_push(before, Write { ordinal: u.ordinal, key, value: *u });
            let m = sqrt_price_models(sqrt_prices@.take(i + 1));
            assert(m.drop_last() =~= sqrt_price_models(sqrt_prices@.take(i as int)));
            assert(m.last() == u@);
            assert(start + sqrt_price_writes(m) =~= (start + sqrt_price_writes(m.drop_last())).push(
                (u.ordinal, key@, u@),
            ));
        }
        i = i + 1;
    }
    proof {
        assert(sqrt_prices@.take(sqrt_prices@.len() as int) =~= sqrt_prices@);
    }
}

pub open spec fn initialization_models(s: Seq<PoolInitialization>) -> Seq<PoolInitializationModel> {
    s.map_values(|u: PoolInitialization| u@)
}

/// One write per initialization, under `pool_init:{pool}` at its ordinal.
pub open spec fn initialization_writes(s: Seq<PoolInitializationModel>) -> Seq<
    (u64, Seq<char>, PoolInitializationModel),
>
    decreases s.len(),
{
    if s.len() == 0 {
        Seq::empty()
    } else {
        let u = s.last();
        initialization_writes(s.drop_last()).push((u.log_ordinal, "pool_init:"@ + u.address, u))
    }
}

/// Records the initialization of each pool.
pub fn store_pools_initialization(
    pools: &Vec<PoolInitialization>,
    output_set: &mut VersionedStore<PoolInitialization>,
)
    ensures
        viewed(final(output_set)@) == viewed(old(output_set)@) + initialization_writes(
            initialization_models(pools@),
        ),
{
    let ghost start = viewed(output_set@);
    let mut i: usize = 0;
    proof {
        assert(initialization_models(pools@.take(0)) =~= Seq::<PoolInitializationModel>::empty());
        assert(start + initialization_writes(Seq::empty()) =~= start);
    }
    while i < pools.len()
        invariant
            i <= pools@.len(),
            viewed(output_set@) == start + initialization_writes(
                initialization_models(pools@.take(i as int)),
            ),
        decreases pools@.len() - i,
    {
        let u = &pools[i];
        let key = pool_init_key(&u.address);
        let ghost before = output_set@;
        output_set.set(u.log_ordinal, key, u.duplicate());
        proof {
            lemma_viewed_push(before, Write { ordinal: u.log_ordinal, key, value: *u });
            let m = initialization_models(pools@.take(i + 1));
            assert(m.drop_last() =~= initialization_models(pools@.take(i as int)));
            assert(m.last() == u@);
            assert(start + initialization_writes(m) =~= (start + initialization_writes(
                m.drop_last(),
            )).push((u.log_ordinal, key@, u@)));
        }
        i = i + 1;
    }
    proof {
        assert(pools@.take(pools@.len() as int) =~= pools@);
    }
}

/// Two writes per pool at its ordinal: under `pool:{address}` and under
/// `tokens:{pair}`, the pair being its two token addresses in text order.
pub open spec fn pool_writes(s: Seq<PoolModel>) -> Seq<(u64, Seq<char>, PoolModel)>
    decreases s.len(),
{
    if s.len() == 0 {
        Seq::empty()
    } else {
        let p = s.last();
        pool_writes(s.drop_last()).push((p.log_ordinal, "pool:"@ + p.address, p)).push(
            (
                p.log_ordinal,
                "tokens:"@ + tokens_pair_text(p.token0.address, p.token1.address),
                p,
            ),
        )
    }
}

/// Registers each pool under its address and under its pair of tokens.
pub fn store_pools(pools: &Vec<Pool>, output: &mut VersionedStore<Pool>)
    ensures
        viewed(final(output)@) == viewed(old(output)@) + pool_writes(pool_models(pools@)),
{
    let ghost start = viewed(output@);
    let mut i: usize = 0;
    proof {
        assert(pool_models(pools@.take(0)) =~= Seq::<PoolModel>::empty());
        assert(start + pool_writes(Seq::empty()) =~= start);
    }
    while i < pools.len()
        invariant
            i <= pools@.len(),
            viewed(output@) == start + pool_writes(pool_models(pools@.take(i as int))),
        decreases pools@.len() - i,
    {
        let p = &pools[i];
        let k1 = pool_key(&p.address);
        let k2 = tokens_key(&p.token0.address, &p.token1.address);
        let v1 = p.duplicate();
        let v2 = p.duplicate();
        let ghost b1 = output@;
        let ghost w1 = Write { ordinal: p.log_ordinal, key: k1, value: v1 };
        output.set(p.log_ordinal, k1, v1);
        let ghost b2 = output@;
        let ghost w2 = Write { ordinal: p.log_ordinal, key: k2, value: v2 };
        output.set(p.log_ordinal, k2, v2);
        proof {
            lemma_viewed_push(b1, w1);
            lemma_viewed_push(b2, w2);
            let m = pool_models(pools@.take(i + 1));
            assert(m.drop_last() =~= pool_models(pools@.take(i as int)));
            assert(m.last() == p@);
            assert(start + pool_writes(m) =~= (start + pool_writes(m.drop_last())).push(
                (p.log_ordinal, k1@, p@),
            ).push((p.log_ordinal, k2@, p@)));
        }
        i = i + 1;
    }
    proof {
        assert(pools@.take(pools@.len() as int) =~= pools@);
    }
}

/// One write per pool at its ordinal, under `tokens:{pair}:{fee}`: the
/// index through which a position finds its pool.
pub open spec fn pool_fee_writes(s: Seq<PoolModel>) -> Seq<(u64, Seq<char>, PoolModel)>
    decreases s.len(),
{
    if s.len() == 0 {
        Seq::empty()
    } else {
        let p = s.last();
        pool_fee_writes(s.drop_last()).push(
            (
                p.log_ordinal,
                "tokens:"@ + tokens_pair_text(p.token0.address, p.token1.address) + ":"@ + nat_text(
                    p.fee as nat,
                ),
                p,
            ),
        )
    }
}

/// Registers each pool under its pair of tokens and its fee tier.
pub fn store_pools_by_fee(pools: &Vec<Pool>, output: &mut VersionedStore<Pool>)
    ensures
        viewed(final(output)@) == viewed(old(output)@) + pool_fee_writes(pool_models(pools@)),
{
    let ghost start = viewed(output@);
    let mut i: usize = 0;
    proof {
        assert(pool_models(pools@.take(0)) =~= Seq::<PoolModel>::empty());
        assert(start + pool_fee_writes(Seq::empty()) =~= start);
    }
    while i < pools.len()
        invariant
            i <= pools@.len(),
            viewed(output@) == start + pool_fee_writes(pool_models(pools@.take(i as int))),
        decreases pools@.len() - i,
    {
        let p = &pools[i];
        let k = pool_token_index_key(&p.token0.address, &p.token1.address, p.fee);
        let v = p.duplicate();
        let ghost b = output@;
        let ghost w = Write { ordinal: p.log_ordinal, key: k, value: v };
        output.set(p.log_ordinal, k, v);
        proof {
            lemma_viewed_push(b, w);
            let m = pool_models(pools@.take(i + 1));
            assert(m.drop_last() =~= pool_models(pools@.take(i as int)));
            assert(m.last() == p@);
            assert(start + pool_fee_writes(m) =~= (start + pool_fee_writes(m.drop_last())).push(
                (p.log_ordinal, k@, p@),
            ));
        }
        i = i + 1;
    }
    proof {
        assert(pools@.take(pools@.len() as int) =~= pools@);
    }
}

pub open spec fn event_models(s: Seq<Event>) -> Seq<EventModel> {
    s.map_values(|e: Event| e@)
}

/// One write per swap, under `pool:{pool}` at its ordinal, holding the swap.
pub open spec fn swap_writes(s: Seq<EventModel>) -> Seq<(u64, Seq<char>, SwapData)>
    decreases s.len(),
{
    if s.len() == 0 {
        Seq::empty()
    } else {
        let e = s.last();
        match e.kind {
            EventKind::Swap(sw) => swap_writes(s.drop_last()).push(
                (e.log_ordinal, "pool:"@ + e.pool_address, sw),
            ),
            _ => swap_writes(s.drop_last()),
        }
    }
}

/// Records the last swap of each pool.
pub fn store_swaps(events: &Vec<Event>, output_set: &mut VersionedStore<SwapData>)
    ensures
        viewed(final(output_set)@) == viewed(old(output_set)@) + swap_writes(event_models(events@)),
{
    let ghost start = viewed(output_set@);
    let mut i: usize = 0;
    proof {
        assert(event_models(events@.take(0)) =~= Seq::<EventModel>::empty());
        assert(start + swap_writes(Seq::empty()) =~= start);
    }
    while i < events.len()
        invariant
            i <= events@.len(),
            viewed(output_set@) == start + swap_writes(event_models(events@.take(i as int))),
        decreases events@.len() - i,
    {
        let e = &events[i];
        proof {
            let m = event_models(events@.take(i + 1));
            assert(m.drop_last() =~= event_models(events@.take(i as int)));
            assert(m.last() == e@);
        }
        match &e.kind {
            EventKind::Swap(sw) => {
                let key = pool_key(&e.pool_address);
                let ghost before = output_set@;
                output_set.set(e.log_ordinal, key, sw.duplicate());
                proof {
                    lemma_viewed_push(before, Write { ordinal: e.log_ordinal, key, value: *sw });
                    let m = event_models(events@.take(i + 1));
                    assert(start + swap_writes(m) =~= (start + swap_writes(m.drop_last())).push(
                        (e.log_ordinal, key@, *sw),
                    ));
                }
            },
            _ => {},
        }
        i = i + 1;
    }
    proof {
        assert(events@.take(events@.len() as int) =~= events@);
    }
}

/// One write per enabled fee tier, under `fee:{fee}:{tick_spacing}` at the log's ordinal.
pub open spec fn fee_writes(logs: Seq<LogEntry>) -> Seq<(u64, Seq<char>, Fee)>
    decreases logs.len(),
{
    if logs.len() == 0 {
        Seq::empty()
    } else {
        let e = logs.last();
        match fee_of(e) {
            Some(f) => fee_writes(logs.drop_last()).push(
                (
                    e.ordinal,
                    "fee:"@ + nat_text(f.fee as nat) + ":"@ + int_text(f.tick_spacing as int),
                    f,
                ),
            ),
            None => fee_writes(logs.drop_last()),
        }
    }
}

/// Records each fee tier enabled in the block.
pub fn store_fees(block: &Block, output: &mut VersionedStore<Fee>)
    ensures
        viewed(final(output)@) == viewed(old(output)@) + fee_writes(block.logs@),
{
    let ghost start = viewed(output@);
    let mut i: usize = 0;
    proof {
        assert(block.logs@.take(0) =~= Seq::<LogEntry>::empty());
        assert(start + fee_writes(Seq::empty()) =~= start);
    }
    while i < block.logs.len()
        invariant
            i <= block.logs@.len(),
            viewed(output@) == start + fee_writes(block.logs@.take(i as int)),
        decreases block.logs@.len() - i,
    {
        let log = &block.logs[i];
        proof {
            assert(block.logs@.take(i + 1).drop_last() =~= block.logs@.take(i as int));
            assert(block.logs@.take(i + 1).last() == *log);
        }
        match &log.event {
            LogEvent::FeeAmountEnabled { fee, tick_spacing } => {
                if !log.reverted {
                    let f = Fee { fee: *fee, tick_spacing: *tick_spacing };
                    let key = fee_key(f.fee, f.tick_spacing);
                    let ghost before = output@;
                    output.set(log.ordinal, key, f);
                    proof {
                        lemma_viewed_push(before, Write { ordinal: log.ordinal, key, value: f });
                        assert(start + fee_writes(block.logs@.take(i + 1)) =~= (start + fee_writes(
                            block.logs@.take(i as int),
                        )).push((log.ordinal, key@, f)));
                    }
                }
            },
            _ => {},
        }
        i = i + 1;
    }
    proof {
        assert(block.logs@.take(block.logs@.len() as int) =~= block.logs@);
    }
}

/// The current tick of `pool` as seen at `ordinal`: the tick of its latest
/// square-root price update, none where it has none yet.
pub open spec fn current_tick(ticks: Seq<Write<SqrtPriceUpdate>>, ordinal: int, pool: Seq<char>) -> Option<
    i32,
> {
    match lookup_at(ticks, ordinal, "sqrt_price:"@ + pool) {
        Some(u) => Some(u.tick),
        None => None,
    }
}

/// The tick lies in `[lower, upper]`; an unknown tick lies in no range.
pub open spec fn in_range(tick: Option<i32>, lower: i32, upper: i32) -> bool {
    match tick {
        Some(t) => lower <= t && t <= upper,
        None => false,
    }
}

pub open spec fn amount_of(text: String) -> (int, int) {
    (int_of_text(text@), 0)
}

/// The amounts of mints and burns are texts of integers.
pub open spec fn amounts_wf(e: EventModel) -> bool {
    match e.kind {
        EventKind::Mint(m) => is_int_text(m.amount@) && is_int_text(m.amount_0@) && is_int_text(
            m.amount_1@,
        ),
        EventKind::Burn(b) => is_int_text(b.amount@) && is_int_text(b.amount_0@) && is_int_text(
            b.amount_1@,
        ),
        EventKind::Swap(_) => true,
    }
}

/// What one event adds to the liquidity store. A mint adds its liquidity to
/// `liquidity:{pool}` where the pool's current tick lies in its range, and its
/// two amounts to `amount_locked:{pool}:{token}`. A burn takes its liquidity
/// from `liquidity:{pool}` where the tick lies in its range, and its two
/// amounts from `total_value_locked:{token0}:{token1}` and
/// `total_value_locked:{token1}:{token0}`. A swap adds nothing.
pub open spec fn event_additions(e: EventModel, ticks: Seq<Write<SqrtPriceUpdate>>) -> Seq<
    (u64, Seq<char>, (int, int)),
> {
    let tick = current_tick(ticks, e.log_ordinal as int, e.pool_address);
    let liquidity_key = "liquidity:"@ + e.pool_address;
    match e.kind {
        EventKind::Mint(m) => (if in_range(tick, m.tick_lower, m.tick_upper) {
            seq![(e.log_ordinal, liquidity_key, amount_of(m.amount))]
        } else {
            Seq::empty()
        }) + seq![
            (e.log_ordinal, "amount_locked:"@ + e.pool_address + ":"@ + e.token0, amount_of(m.amount_0)),
            (e.log_ordinal, "amount_locked:"@ + e.pool_address + ":"@ + e.token1, amount_of(m.amount_1)),
        ],
        EventKind::Burn(b) => (if in_range(tick, b.tick_lower, b.tick_upper) {
            seq![(e.log_ordinal, liquidity_key, negated(amount_of(b.amount)))]
        } else {
            Seq::empty()
        }) + seq![
            (
                e.log_ordinal,
                "total_value_locked:"@ + e.token0 + ":"@ + e.token1,
                negated(amount_of(b.amount_0)),
            ),
            (
                e.log_ordinal,
                "total_value_locked:"@ + e.token1 + ":"@ + e.token0,
                negated(amount_of(b.amount_1)),
            ),
        ],
        EventKind::Swap(_) => Seq::empty(),
    }
}

pub open spec fn liquidity_additions(events: Seq<EventModel>, ticks: Seq<Write<SqrtPriceUpdate>>) -> Seq<
    (u64, Seq<char>, (int, int)),
>
    decreases events.len(),
{
    if events.len() == 0 {
        Seq::empty()
    } else {
        liquidity_additions(events.drop_last(), ticks) + event_additions(events.last(), ticks)
    }
}

fn add_amount(
    output: &mut VersionedStore<Decimal>,
    ordinal: u64,
    key: String,
    delta: &Decimal,
    Ghost(start): Ghost<Seq<Write<Decimal>>>,
    Ghost(adds): Ghost<Seq<(u64, Seq<char>, (int, int))>>,
)
    requires
        old(output).numbers_wf(),
        delta.wf(),
        additions_applied(start, old(output)@, adds),
    ensures
        final(output).numbers_wf(),
        additions_applied(start, final(output)@, adds.push((ordinal, key@, delta@))),
{
    let ghost mid = output@;
    let ghost k = key@;
    output.add(ordinal, key, delta);
    proof {
        lemma_additions_extend(start, mid, output@, adds, (ordinal, k, delta@));
    }
}

/// Applies the mints and burns of the block to liquidity and value locked,
/// reading each pool's current tick at the event's own ordinal.
pub fn store_liquidity(
    events: &Vec<Event>,
    sqrt_prices_store: &VersionedStore<SqrtPriceUpdate>,
    output: &mut VersionedStore<Decimal>,
)
    requires
        old(output).numbers_wf(),
        forall|i: int| 0 <= i < events@.len() ==> amounts_wf(#[trigger] events@[i]@),
    ensures
        final(output).numbers_wf(),
        additions_applied(
            old(output)@,
            final(output)@,
            liquidity_additions(event_models(events@), sqrt_prices_store@),
        ),
{
    let ghost start = output@;
    let ghost ticks = sqrt_prices_store@;
    let mut i: usize = 0;
    proof {
        assert(event_models(events@.take(0)) =~= Seq::<EventModel>::empty());
        assert(start.take(start.len() as int) =~= start);
    }
    while i < events.len()
        invariant
            i <= events@.len(),
            ticks == sqrt_prices_store@,
            output.numbers_wf(),
            forall|j: int| 0 <= j < events@.len() ==> amounts_wf(#[trigger] events@[j]@),
            additions_applied(
                start,
                output@,
                liquidity_additions(event_models(events@.take(i as int)), ticks),
            ),
        decreases events@.len() - i,
    {
        let e = &events[i];
        let ghost adds0 = liquidity_additions(event_models(events@.take(i as int)), ticks);
        proof {
            let m = event_models(events@.take(i + 1));
            assert(m.drop_last() =~= event_models(events@.take(i as int)));
            assert(m.last() == e@);
            assert(amounts_wf(events@[i as int]@));
        }
        let tk = sqrt_price_key(&e.pool_address);
        let tick: Option<i32> = match sqrt_prices_store.get_at(e.log_ordinal, &tk) {
            Some(u) => Some(u.tick),
            None => None,
        };
        let liquidity_key = pool_liquidity(&e.pool_address);
        match &e.kind {
            EventKind::Mint(m) => {
                let amount = Decimal::from_int_text(&m.amount).unwrap();
                let amount0 = Decimal::from_int_text(&m.amount_0).unwrap();
                let amount1 = Decimal::from_int_text(&m.amount_1).unwrap();
                let in_range = match tick {
                    Some(t) => m.tick_lower <= t && t <= m.tick_upper,
                    None => false,
                };
                let ghost adds1 = if in_range {
                    adds0.push((e.log_ordinal, liquidity_key@, amount@))
                } else {
                    adds0
                };
                if in_range {
                    add_amount(output, e.log_ordinal, liquidity_key, &amount, Ghost(start), Ghost(adds0));
                }
                let k0 = pool_native_total_value_locked_token(&e.pool_address, &e.token0);
                let ghost a0 = (e.log_ordinal, k0@, amount0@);
                add_amount(output, e.log_ordinal, k0, &amount0, Ghost(start), Ghost(adds1));
                let k1 = pool_native_total_value_locked_token(&e.pool_address, &e.token1);
                let ghost a1 = (e.log_ordinal, k1@, amount1@);
                add_amount(output, e.log_ordinal, k1, &amount1, Ghost(start), Ghost(adds1.push(a0)));
                proof {
                    assert(adds1.push(a0).push(a1) =~= adds0 + event_additions(e@, ticks));
                }
            },
            EventKind::Burn(b) => {
                let amount = negate(&Decimal::from_int_text(&b.amount).unwrap());
                let amount0 = negate(&Decimal::from_int_text(&b.amount_0).unwrap());
                let amount1 = negate(&Decimal::from_int_text(&b.amount_1).unwrap());
                let in_range = match tick {
                    Some(t) => b.tick_lower <= t && t <= b.tick_upper,
                    None => false,
                };
                let ghost adds1 = if in_range {
                    adds0.push((e.log_ordinal, liquidity_key@, amount@))
                } else {
                    adds0
                };
                if in_range {
                    add_amount(output, e.log_ordinal, liquidity_key, &amount, Ghost(start), Ghost(adds0));
                }
                let k0 = total_value_locked(&e.token0, &e.token1);
                let ghost a0 = (e.log_ordinal, k0@, amount0@);
                add_amount(output, e.log_ordinal, k0, &amount0, Ghost(start), Ghost(adds1));
                let k1 = total_value_locked(&e.token1, &e.token0);
                let ghost a1 = (e.log_ordinal, k1@, amount1@);
                add_amount(output, e.log_ordinal, k1, &amount1, Ghost(start), Ghost(adds1.push(a0)));
                proof {
                    assert(adds1.push(a0).push(a1) =~= adds0 + event_additions(e@, ticks));
                }
            },
            EventKind::Swap(_) => {
                proof {
                    assert(adds0 + event_additions(e@, ticks) =~= adds0);
                }
            },
        }
        i = i + 1;
    }
    proof {
        assert(events@.take(events@.len() as int) =~= events@);
    }
}

/// The prices at the tick of a pool at one boundary of a mint's range.
pub struct Tick {
    pub pool_address: String,
    pub idx: i32,
    pub price0: Decimal,
    pub price1: Decimal,
}

pub ghost struct TickModel {
    pub pool_address: Seq<char>,
    pub idx: i32,
    pub price0: (int, int),
    pub price1: (int, int),
}

impl View for Tick {
    type V = TickModel;

    open spec fn view(&self) -> TickModel {
        TickModel {
            pool_address: self.pool_address@,
            idx: self.idx,
            price0: self.price0@,
            price1: self.price1@,
        }
    }
}

/// The write for one boundary of a mint's range, under
/// `tick:{idx}:pool:{pool}`: `price0 = 1.0001^idx` to 100 significant digits
/// and `price1 = 1 / price0` (none where a scale would leave its range).
pub open spec fn boundary_write(ordinal: u64, pool: Seq<char>, idx: i32) -> Seq<(u64, Seq<char>, TickModel)> {
    match tick_prices_of(idx as int) {
        Some(p) => seq![
            (
                ordinal,
                "tick:"@ + int_text(idx as int) + ":pool:"@ + pool,
                TickModel { pool_address: pool, idx, price0: p.0, price1: p.1 },
            ),
        ],
        None => Seq::empty(),
    }
}

/// The writes for the two boundaries of each mint, lower first, at its ordinal.
pub open spec fn tick_writes(s: Seq<EventModel>) -> Seq<(u64, Seq<char>, TickModel)>
    decreases s.len(),
{
    if s.len() == 0 {
        Seq::empty()
    } else {
        let e = s.last();
        match e.kind {
            EventKind::Mint(m) => tick_writes(s.drop_last()) + boundary_write(
                e.log_ordinal,
                e.pool_address,
                m.tick_lower,
            ) + boundary_write(e.log_ordinal, e.pool_address, m.tick_upper),
            _ => tick_writes(s.drop_last()),
        }
    }
}

fn set_tick(output: &mut VersionedStore<Tick>, ordinal: u64, pool: &String, idx: i32)
    ensures
        viewed(final(output)@) == viewed(old(output)@) + boundary_write(ordinal, pool@, idx),
        tick_prices_of(idx as int) is Some,
{
    match tick_prices(idx) {
        Some((price0, price1)) => {
            let key = tick_key(idx, pool);
            let t = Tick { pool_address: pool.clone(), idx, price0, price1 };
            let ghost before = output@;
            let ghost w = Write { ordinal, key, value: t };
            output.set(ordinal, key, t);
            proof {
                lemma_viewed_push(before, w);
                assert(viewed(before) + boundary_write(ordinal, pool@, idx) =~= viewed(before).push(
                    (ordinal, w.key@, t@),
                ));
            }
        },
        None => {
            proof {
                assert(viewed(output@) + boundary_write(ordinal, pool@, idx) =~= viewed(output@));
            }
        },
    }
}

/// Records the prices at both boundaries of each mint's range. Burns leave
/// the recorded boundaries as they are.
pub fn store_ticks(events: &Vec<Event>, output_set: &mut VersionedStore<Tick>)
    ensures
        viewed(final(output_set)@) == viewed(old(output_set)@) + tick_writes(event_models(events@)),
        forall|k: int|
            0 <= k < events@.len() ==> ((#[trigger] events@[k]).kind matches EventKind::Mint(m) ==> (
            tick_prices_of(m.tick_lower as int) is Some && tick_prices_of(m.tick_upper as int) is Some)),
{
    let ghost start = viewed(output_set@);
    let mut i: usize = 0;
    proof {
        assert(event_models(events@.take(0)) =~= Seq::<EventModel>::empty());
        assert(start + tick_writes(Seq::empty()) =~= start);
    }
    while i < events.len()
        invariant
            i <= events@.len(),
            viewed(output_set@) == start + tick_writes(event_models(events@.take(i as int))),
            forall|k: int|
                0 <= k < i ==> ((#[trigger] events@[k]).kind matches EventKind::Mint(m) ==> (
                tick_prices_of(m.tick_lower as int) is Some && tick_prices_of(m.tick_upper as int) is Some)),
        decreases events@.len() - i,
    {
        let e = &events[i];
        proof {
            let m = event_models(events@.take(i + 1));
            assert(m.drop_last() =~= event_models(events@.take(i as int)));
            assert(m.last() == e@);
        }
        match &e.kind {
            EventKind::Mint(m) => {
                set_tick(output_set, e.log_ordinal, &e.pool_address, m.tick_lower);
                set_tick(output_set, e.log_ordinal, &e.pool_address, m.tick_upper);
                proof {
                    let mm = event_models(events@.take(i + 1));
                    assert(start + tick_writes(mm) =~= start + tick_writes(mm.drop_last())
                        + boundary_write(e.log_ordinal, e.pool_address@, m.tick_lower)
                        + boundary_write(e.log_ordinal, e.pool_address@, m.tick_upper));
                }
            },
            _ => {},
        }
        i = i + 1;
    }
    proof {
        assert(events@.take(events@.len() as int) =~= events@);
    }
}

/// A square-root price update names a pool that no earlier write registered.
pub struct UnknownPool {
    pub pool_address: String,
}

pub open spec fn pool_of(pools: Seq<Write<Pool>>, address: Seq<char>) -> Option<Pool> {
    lookup_last(pools, "pool:"@ + address)
}

/// Every update names a registered pool.
pub open spec fn all_pools_known(us: Seq<SqrtPriceUpdateModel>, pools: Seq<Write<Pool>>) -> bool {
    forall|i: int| 0 <= i < us.len() ==> (#[trigger] pool_of(pools, us[i].pool_address)) is Some
}

/// The pool's token decimals fit a decimal scale.
pub open spec fn decimals_fit(p: Pool) -> bool {
    p.token0.decimals <= i64::MAX && p.token1.decimals <= i64::MAX
}

/// The spot prices of an update's pool at its square-root price, where the
/// pool is registered, its decimals fit a scale and the prices' scales stay
/// in range.
pub open spec fn update_prices(u: SqrtPriceUpdateModel, pools: Seq<Write<Pool>>) -> Option<(Pool, ((int, int), (int, int)))> {
    match pool_of(pools, u.pool_address) {
        Some(p) => if decimals_fit(p) {
            match spot_prices(
                (int_of_text(u.sqrt_price), 0),
                p.token0.decimals as int,
                p.token1.decimals as int,
            ) {
                Some(pr) => Some((p, pr)),
                None => None,
            }
        } else {
            None
        },
        None => None,
    }
}

/// Two writes per update with prices, at the update's ordinal:
/// `price:{token0}:{token1}` holds `price0` and `price:{token1}:{token0}`
/// holds `price1`.
pub open spec fn price_writes(us: Seq<SqrtPriceUpdateModel>, pools: Seq<Write<Pool>>) -> Seq<(u64, Seq<char>, (int, int))>
    decreases us.len(),
{
    if us.len() == 0 {
        Seq::empty()
    } else {
        let u = us.last();
        match update_prices(u, pools) {
            Some((p, pr)) => {
                let a = p.token0.address@;
                let b = p.token1.address@;
                price_writes(us.drop_last(), pools).push((u.ordinal, "price:"@ + a + ":"@ + b, pr.0)).push(
                    (u.ordinal, "price:"@ + b + ":"@ + a, pr.1),
                )
            },
            None => price_writes(us.drop_last(), pools),
        }
    }
}

/// The pool's token decimals are below `DECIMALS_BOUND` (as those of any
/// ERC-20 token, which are a `uint8`).
pub open spec fn ordinary_decimals(p: Pool) -> bool {
    p.token0.decimals <= DECIMALS_BOUND && p.token1.decimals <= DECIMALS_BOUND
}

/// Every update of a registered pool with ordinary decimals has prices.
pub open spec fn prices_for_all(us: Seq<SqrtPriceUpdateModel>, pools: Seq<Write<Pool>>) -> bool {
    forall|j: int|
        0 <= j < us.len() ==> ((#[trigger] pool_of(pools, us[j].pool_address) matches Some(p)
            && ordinary_decimals(p)) ==> update_prices(us[j], pools) is Some)
}

/// The square-root prices are texts of integers.
pub open spec fn sqrt_prices_wf(us: Seq<SqrtPriceUpdateModel>) -> bool {
    forall|i: int| 0 <= i < us.len() ==> is_int_text(#[trigger] us[i].sqrt_price)
}

/// Records, for each new square-root price, the two spot prices of the pool
/// that `sqrt_price_x96_to_token_prices` gives for it: `price:{token0}:{token1}`
/// holds `price0` and `price:{token1}:{token0}` holds `price1`. Fails on the
/// first update whose pool was never registered.
pub fn store_prices(
    sqrt_price_updates: &Vec<SqrtPriceUpdate>,
    pools_store: &VersionedStore<Pool>,
    output: &mut VersionedStore<Decimal>,
) -> (r: Result<(), UnknownPool>)
    requires
        old(output).numbers_wf(),
        sqrt_prices_wf(sqrt_price_models(sqrt_price_updates@)),
    ensures
        final(output).numbers_wf(),
        r is Ok <==> all_pools_known(sqrt_price_models(sqrt_price_updates@), pools_store@),
        r is Ok ==> viewed(final(output)@) == viewed(old(output)@) + price_writes(
            sqrt_price_models(sqrt_price_updates@),
            pools_store@,
        ),
        r is Ok ==> prices_for_all(sqrt_price_models(sqrt_price_updates@), pools_store@),
{
    let ghost start = output@;
    let ghost us = sqrt_price_models(sqrt_price_updates@);
    let mut i: usize = 0;
    proof {
        assert(sqrt_price_models(sqrt_price_updates@.take(0)) =~= Seq::<SqrtPriceUpdateModel>::empty());
        assert(viewed(start) + price_writes(Seq::empty(), pools_store@) =~= viewed(start));
    }
    while i < sqrt_price_updates.len()
        invariant
            i <= sqrt_price_updates@.len(),
            start == old(output)@,
            us == sqrt_price_models(sqrt_price_updates@),
            sqrt_prices_wf(us),
            output.numbers_wf(),
            all_pools_known(us.take(i as int), pools_store@),
            prices_for_all(us.take(i as int), pools_store@),
            viewed(output@) == viewed(start) + price_writes(
                sqrt_price_models(sqrt_price_updates@.take(i as int)),
                pools_store@,
            ),
        decreases sqrt_price_updates@.len() - i,
    {
        let u = &sqrt_price_updates[i];
        proof {
            let m = sqrt_price_models(sqrt_price_updates@.take(i + 1));
            assert(m.drop_last() =~= sqrt_price_models(sqrt_price_updates@.take(i as int)));
            assert(m.last() == u@);
            assert(us[i as int] == u@);
            assert(is_int_text(us[i as int].sqrt_price));
        }
        let key = pool_key(&u.pool_address);
        let pool = match pools_store.get_last(&key) {
            Some(p) => p,
            None => {
                proof {
                    assert(pool_of(pools_store@, us[i as int].pool_address) is None);
                }
                return Err(UnknownPool { pool_address: u.pool_address.clone() });
            },
        };
        proof {
            assert(us.take(i + 1) =~= us.take(i as int).push(us[i as int]));
            assert forall|j: int| 0 <= j < i + 1 implies (#[trigger] pool_of(pools_store@, us.take(i + 1)[j].pool_address)) is Some by {
                if j < i {
                    assert(us.take(i + 1)[j] == us.take(i as int)[j]);
                }
            }
        }
        let ghost mm = sqrt_price_models(sqrt_price_updates@.take(i + 1));
        if pool.token0.decimals <= i64::MAX as u64 && pool.token1.decimals <= i64::MAX as u64 {
            let sqrt_price = Decimal::from_int_text(&u.sqrt_price).unwrap();
            match sqrt_price_x96_to_token_prices(&sqrt_price, &pool.token0, &pool.token1) {
                Some((price0, price1)) => {
                    let k0 = prices_token_pair(&pool.token0.address, &pool.token1.address);
                    let k1 = prices_token_pair(&pool.token1.address, &pool.token0.address);
                    let ghost b0 = output@;
                    let ghost w0 = Write { ordinal: u.ordinal, key: k0, value: price0 };
                    output.set(u.ordinal, k0, price0);
                    let ghost b1 = output@;
                    let ghost w1 = Write { ordinal: u.ordinal, key: k1, value: price1 };
                    output.set(u.ordinal, k1, price1);
                    proof {
                        lemma_viewed_push(b0, w0);
                        lemma_viewed_push(b1, w1);
                        assert(viewed(start) + price_writes(mm, pools_store@) =~= (viewed(start)
                            + price_writes(mm.drop_last(), pools_store@)).push((u.ordinal, w0.key@, w0.value@)).push(
                            (u.ordinal, w1.key@, w1.value@),
                        ));
                        assert forall|k: int| 0 <= k < output@.len() implies (#[trigger] output@[k]).value.wf() by {
                            if k < b0.len() {
                                assert(output@[k] == b0[k]);
                            }
                        }
                    }
                },
                None => {
                    proof {
                        assert(price_writes(mm, pools_store@) == price_writes(mm.drop_last(), pools_store@));
                    }
                },
            }
        } else {
            proof {
                assert(price_writes(mm, pools_store@) == price_writes(mm.drop_last(), pools_store@));
            }
        }
        proof {
            assert forall|j: int|
                0 <= j < i + 1 && (#[trigger] pool_of(pools_store@, us.take(i + 1)[j].pool_address) matches Some(p)
                    && ordinary_decimals(p)) implies update_prices(us.take(i + 1)[j], pools_store@) is Some by {
                if j < i {
                    assert(us.take(i + 1)[j] == us.take(i as int)[j]);
                }
            }
        }
        i = i + 1;
    }
    proof {
        assert(sqrt_price_updates@.take(sqrt_price_updates@.len() as int) =~= sqrt_price_updates@);
        assert(us.take(us.len() as int) =~= us);
    }
    Ok(())
}

/// Two writes per update with prices, at the update's ordinal, each the
/// price of a token as recorded by the pool: `price:{pool}:{token0}:token0`
/// holds `price0` and `price:{pool}:{token1}:token1` holds `price1`.
pub open spec fn pool_price_writes(us: Seq<SqrtPriceUpdateModel>, pools: Seq<Write<Pool>>) -> Seq<(u64, Seq<char>, (int, int))>
    decreases us.len(),
{
    if us.len() == 0 {
        Seq::empty()
    } else {
        let u = us.last();
        match update_prices(u, pools) {
            Some((p, pr)) => {
                let a = p.token0.address@;
                let b = p.token1.address@;
                pool_price_writes(us.drop_last(), pools).push(
                    (u.ordinal, "price:"@ + p.address@ + ":"@ + a + ":"@ + "token0"@, pr.0),
                ).push((u.ordinal, "price:"@ + p.address@ + ":"@ + b + ":"@ + "token1"@, pr.1))
            },
            None => pool_price_writes(us.drop_last(), pools),
        }
    }
}

/// Records, for each new square-root price, the two spot prices of the pool
/// that `sqrt_price_x96_to_token_prices` gives for it, as that pool's own:
/// `price:{pool}:{token0}:token0` holds `price0` and
/// `price:{pool}:{token1}:token1` holds `price1`. Fails on the first update
/// whose pool was never registered.
pub fn store_pool_prices(
    sqrt_price_updates: &Vec<SqrtPriceUpdate>,
    pools_store: &VersionedStore<Pool>,
    output: &mut VersionedStore<Decimal>,
) -> (r: Result<(), UnknownPool>)
    requires
        old(output).numbers_wf(),
        sqrt_prices_wf(sqrt_price_models(sqrt_price_updates@)),
    ensures
        final(output).numbers_wf(),
        r is Ok <==> all_pools_known(sqrt_price_models(sqrt_price_updates@), pools_store@),
        r is Ok ==> viewed(final(output)@) == viewed(old(output)@) + pool_price_writes(
            sqrt_price_models(sqrt_price_updates@),
            pools_store@,
        ),
        r is Ok ==> prices_for_all(sqrt_price_models(sqrt_price_updates@), pools_store@),
{
    let ghost start = output@;
    let ghost us = sqrt_price_models(sqrt_price_updates@);
    let mut i: usize = 0;
    proof {
        assert(sqrt_price_models(sqrt_price_updates@.take(0)) =~= Seq::<SqrtPriceUpdateModel>::empty());
        assert(viewed(start) + pool_price_writes(Seq::empty(), pools_store@) =~= viewed(start));
    }
    while i < sqrt_price_updates.len()
        invariant
            i <= sqrt_price_updates@.len(),
            start == old(output)@,
            us == sqrt_price_models(sqrt_price_updates@),
            sqrt_prices_wf(us),
            output.numbers_wf(),
            all_pools_known(us.take(i as int), pools_store@),
            prices_for_all(us.take(i as int), pools_store@),
            viewed(output@) == viewed(start) + pool_price_writes(
                sqrt_price_models(sqrt_price_updates@.take(i as int)),
                pools_store@,
            ),
        decreases sqrt_price_updates@.len() - i,
    {
        let u = &sqrt_price_updates[i];
        proof {
            let m = sqrt_price_models(sqrt_price_updates@.take(i + 1));
            assert(m.drop_last() =~= sqrt_price_models(sqrt_price_updates@.take(i as int)));
            assert(m.last() == u@);
            assert(us[i as int] == u@);
            assert(is_int_text(us[i as int].sqrt_price));
        }
        let key = pool_key(&u.pool_address);
        let pool = match pools_store.get_last(&key) {
            Some(p) => p,
            None => {
                proof {
                    assert(pool_of(pools_store@, us[i as int].pool_address) is None);
                }
                return Err(UnknownPool { pool_address: u.pool_address.clone() });
            },
        };
        proof {
            assert(us.take(i + 1) =~= us.take(i as int).push(us[i as int]));
            assert forall|j: int| 0 <= j < i + 1 implies (#[trigger] pool_of(pools_store@, us.take(i + 1)[j].pool_address)) is Some by {
                if j < i {
                    assert(us.take(i + 1)[j] == us.take(i as int)[j]);
                }
            }
        }
        let ghost mm = sqrt_price_models(sqrt_price_updates@.take(i + 1));
        if pool.token0.decimals <= i64::MAX as u64 && pool.token1.decimals <= i64::MAX as u64 {
            let sqrt_price = Decimal::from_int_text(&u.sqrt_price).unwrap();
            match sqrt_price_x96_to_token_prices(&sqrt_price, &pool.token0, &pool.token1) {
                Some((price0, price1)) => {
                    let k0 = prices_pool_token_key(&pool.address, &pool.token0.address, "token0");
                    let k1 = prices_pool_token_key(&pool.address, &pool.token1.address, "token1");
                    let ghost b0 = output@;
                    let ghost w0 = Write { ordinal: u.ordinal, key: k0, value: price0 };
                    output.set(u.ordinal, k0, price0);
                    let ghost b1 = output@;
                    let ghost w1 = Write { ordinal: u.ordinal, key: k1, value: price1 };
                    output.set(u.ordinal, k1, price1);
                    proof {
                        assert(w0.key@ == "price:"@ + pool.address@ + ":"@ + pool.token0.address@ + ":"@
                            + "token0"@);
                        assert(w1.key@ == "price:"@ + pool.address@ + ":"@ + pool.token1.address@ + ":"@
                            + "token1"@);
                        assert(mm.last() == u@);
                        assert(update_prices(mm.last(), pools_store@) == Some((*pool, (price0@, price1@))));
                        assert(pool_price_writes(mm, pools_store@) == pool_price_writes(mm.drop_last(), pools_store@).push(
                            (u.ordinal, w0.key@, w0.value@),
                        ).push((u.ordinal, w1.key@, w1.value@)));
                        lemma_viewed_push(b0, w0);
                        lemma_viewed_push(b1, w1);
                        assert(viewed(start) + pool_price_writes(mm, pools_store@) =~= (viewed(start)
                            + pool_price_writes(mm.drop_last(), pools_store@)).push((u.ordinal, w0.key@, w0.value@)).push(
                            (u.ordinal, w1.key@, w1.value@),
                        ));
                        assert forall|k: int| 0 <= k < output@.len() implies (#[trigger] output@[k]).value.wf() by {
                            if k < b0.len() {
                                assert(output@[k] == b0[k]);
                            }
                        }
                    }
                },
                None => {
                    proof {
                        assert(pool_price_writes(mm, pools_store@) == pool_price_writes(mm.drop_last(), pools_store@));
                    }
                },
            }
        } else {
            proof {
                assert(pool_price_writes(mm, pools_store@) == pool_price_writes(mm.drop_last(), pools_store@));
            }
        }
        proof {
            assert forall|j: int|
                0 <= j < i + 1 && (#[trigger] pool_of(pools_store@, us.take(i + 1)[j].pool_address) matches Some(p)
                    && ordinary_decimals(p)) implies update_prices(us.take(i + 1)[j], pools_store@) is Some by {
                if j < i {
                    assert(us.take(i + 1)[j] == us.take(i as int)[j]);
                }
            }
        }
        i = i + 1;
    }
    proof {
        assert(sqrt_price_updates@.take(sqrt_price_updates@.len() as int) =~= sqrt_price_updates@);
        assert(us.take(us.len() as int) =~= us);
    }
    Ok(())
}

/// Two writes per update, at its ordinal: the price in ether of each token of
/// the pool, under `token:{address}:dprice:eth`.
pub open spec fn derived_price_writes(
    us: Seq<SqrtPriceUpdateModel>,
    pools: Seq<Write<Pool>>,
    liquidities: Seq<Write<Decimal>>,
    whitelists: Seq<Write<Vec<String>>>,
    locked: Seq<Write<Decimal>>,
    prices: Seq<Write<Decimal>>,
) -> Seq<(u64, Seq<char>, (int, int))>
    decreases us.len(),
{
    if us.len() == 0 {
        Seq::empty()
    } else {
        let u = us.last();
        let before = derived_price_writes(us.drop_last(), pools, liquidities, whitelists, locked, prices);
        match pool_of(pools, u.pool_address) {
            Some(p) => {
                let a = p.token0.address@;
                let b = p.token1.address@;
                before.push(
                    (
                        u.ordinal,
                        "token:"@ + a + ":dprice:eth"@,
                        eth_per_token(u.ordinal as int, a, pools, liquidities, whitelists, locked, prices),
                    ),
                ).push(
                    (
                        u.ordinal,
                        "token:"@ + b + ":dprice:eth"@,
                        eth_per_token(u.ordinal as int, b, pools, liquidities, whitelists, locked, prices),
                    ),
                )
            },
            None => before,
        }
    }
}

/// Records, for each new square-root price, the price in ether of both tokens
/// of the pool as seen at the update's ordinal. Fails on the first update
/// whose pool was never registered.
pub fn store_derived_eth_prices(
    sqrt_price_updates: &Vec<SqrtPriceUpdate>,
    pools_store: &VersionedStore<Pool>,
    pool_liquidities_store: &VersionedStore<Decimal>,
    tokens_whitelist_pools_store: &VersionedStore<Vec<String>>,
    total_native_value_locked_store: &VersionedStore<Decimal>,
    prices_store: &VersionedStore<Decimal>,
    output: &mut VersionedStore<Decimal>,
) -> (r: Result<(), UnknownPool>)
    requires
        old(output).numbers_wf(),
        pool_liquidities_store.numbers_wf(),
        total_native_value_locked_store.numbers_wf(),
        prices_store.numbers_wf(),
    ensures
        final(output).numbers_wf(),
        final(output)@.len() >= old(output)@.len(),
        final(output)@.take(old(output)@.len() as int) == old(output)@,
        r is Ok <==> all_pools_known(sqrt_price_models(sqrt_price_updates@), pools_store@),
        r is Ok ==> numbers_match(
            final(output)@.skip(old(output)@.len() as int),
            derived_price_writes(
                sqrt_price_models(sqrt_price_updates@),
                pools_store@,
                pool_liquidities_store@,
                tokens_whitelist_pools_store@,
                total_native_value_locked_store@,
                prices_store@,
            ),
        ),
{
    let ghost start = output@;
    let ghost us = sqrt_price_models(sqrt_price_updates@);
    let mut i: usize = 0;
    proof {
        assert(sqrt_price_models(sqrt_price_updates@.take(0)) =~= Seq::<SqrtPriceUpdateModel>::empty());
        assert(start.take(start.len() as int) =~= start);
        assert(start.skip(start.len() as int) =~= Seq::<Write<Decimal>>::empty());
    }
    while i < sqrt_price_updates.len()
        invariant
            i <= sqrt_price_updates@.len(),
            start == old(output)@,
            us == sqrt_price_models(sqrt_price_updates@),
            output.numbers_wf(),
            pool_liquidities_store.numbers_wf(),
            total_native_value_locked_store.numbers_wf(),
            prices_store.numbers_wf(),
            all_pools_known(us.take(i as int), pools_store@),
            output@.len() >= start.len(),
            output@.take(start.len() as int) == start,
            numbers_match(
                output@.skip(start.len() as int),
                derived_price_writes(
                    sqrt_price_models(sqrt_price_updates@.take(i as int)),
                    pools_store@,
                    pool_liquidities_store@,
                    tokens_whitelist_pools_store@,
                    total_native_value_locked_store@,
                    prices_store@,
                ),
            ),
        decreases sqrt_price_updates@.len() - i,
    {
        let u = &sqrt_price_updates[i];
        proof {
            let m = sqrt_price_models(sqrt_price_updates@.take(i + 1));
            assert(m.drop_last() =~= sqrt_price_models(sqrt_price_updates@.take(i as int)));
            assert(m.last() == u@);
            assert(us[i as int] == u@);
        }
        let key = pool_key(&u.pool_address);
        let pool = match pools_store.get_last(&key) {
            Some(p) => p,
            None => {
                proof {
                    assert(pool_of(pools_store@, us[i as int].pool_address) is None);
                }
                return Err(UnknownPool { pool_address: u.pool_address.clone() });
            },
        };
        proof {
            assert(us.take(i + 1) =~= us.take(i as int).push(us[i as int]));
            assert forall|j: int| 0 <= j < i + 1 implies (#[trigger] pool_of(pools_store@, us.take(i + 1)[j].pool_address)) is Some by {
                if j < i {
                    assert(us.take(i + 1)[j] == us.take(i as int)[j]);
                }
            }
        }
        let d0 = find_eth_per_token(
            u.ordinal,
            &pool.address,
            &pool.token0.address,
            pools_store,
            pool_liquidities_store,
            tokens_whitelist_pools_store,
            total_native_value_locked_store,
            prices_store,
        );
        let d1 = find_eth_per_token(
            u.ordinal,
            &pool.address,
            &pool.token1.address,
            pools_store,
            pool_liquidities_store,
            tokens_whitelist_pools_store,
            total_native_value_locked_store,
            prices_store,
        );
        let k0 = token_derived_eth_price(&pool.token0.address);
        let k1 = token_derived_eth_price(&pool.token1.address);
        let ghost b0 = output@;
        let ghost w0 = Write { ordinal: u.ordinal, key: k0, value: d0 };
        output.set(u.ordinal, k0, d0);
        let ghost w1 = Write { ordinal: u.ordinal, key: k1, value: d1 };
        output.set(u.ordinal, k1, d1);
        proof {
            let mm = sqrt_price_models(sqrt_price_updates@.take(i + 1));
            let exp0 = derived_price_writes(
                mm.drop_last(),
                pools_store@,
                pool_liquidities_store@,
                tokens_whitelist_pools_store@,
                total_native_value_locked_store@,
                prices_store@,
            );
            let exp = derived_price_writes(
                mm,
                pools_store@,
                pool_liquidities_store@,
                tokens_whitelist_pools_store@,
                total_native_value_locked_store@,
                prices_store@,
            );
            assert(output@ == b0.push(w0).push(w1));
            assert(output@.take(start.len() as int) =~= b0.take(start.len() as int));
            let tail = output@.skip(start.len() as int);
            let tail0 = b0.skip(start.len() as int);
            assert(tail =~= tail0.push(w0).push(w1));
            assert(exp.len() == exp0.len() + 2);
            assert forall|k: int| 0 <= k < tail.len() implies {
                &&& (#[trigger] tail[k]).ordinal == exp[k].0
                &&& tail[k].key@ == exp[k].1
                &&& same_value(tail[k].value@, exp[k].2)
            } by {
                if k < tail0.len() {
                    assert(tail[k] == tail0[k]);
                    assert(exp[k] == exp0[k]);
                }
            }
            assert forall|k: int| 0 <= k < output@.len() implies (#[trigger] output@[k]).value.wf() by {
                if k < b0.len() {
                    assert(output@[k] == b0[k]);
                }
            }
        }
        i = i + 1;
    }
    proof {
        assert(sqrt_price_updates@.take(sqrt_price_updates@.len() as int) =~= sqrt_price_updates@);
        assert(us.take(us.len() as int) =~= us);
    }
    Ok(())
}

/// One append per pool and whitelisted token of it (token0, then token1), at
/// the pool's ordinal: the pool's address, to `token:{address}:whitelist`.
pub open spec fn whitelist_items(s: Seq<PoolModel>) -> Seq<(u64, Seq<char>, Seq<char>)>
    decreases s.len(),
{
    if s.len() == 0 {
        Seq::empty()
    } else {
        let p = s.last();
        let a = p.token0.address;
        let b = p.token1.address;
        let first = if is_whitelist_token(a) {
            seq![(p.log_ordinal, "token:"@ + a + ":whitelist"@, p.address)]
        } else {
            Seq::empty()
        };
        let second = if is_whitelist_token(b) {
            seq![(p.log_ordinal, "token:"@ + b + ":whitelist"@, p.address)]
        } else {
            Seq::empty()
        };
        whitelist_items(s.drop_last()) + first + second
    }
}

fn append_pool(
    output: &mut VersionedStore<Vec<String>>,
    ordinal: u64,
    token: &String,
    pool: &String,
    Ghost(start): Ghost<Seq<Write<Vec<String>>>>,
    Ghost(items): Ghost<Seq<(u64, Seq<char>, Seq<char>)>>,
)
    requires
        appends_applied(start, old(output)@, items),
    ensures
        appends_applied(
            start,
            final(output)@,
            items.push((ordinal, "token:"@ + token@ + ":whitelist"@, pool@)),
        ),
{
    let key = token_pool_whitelist(token);
    let ghost mid = output@;
    let ghost k = key@;
    let item = pool.clone();
    let ghost it = item;
    output.append(ordinal, key, item);
    proof {
        lemma_appends_extend(start, mid, output@, items, it, ordinal, k);
    }
}

/// Lists each pool under each of its tokens that is whitelisted.
pub fn store_tokens_whitelist_pools(pools: &Vec<Pool>, output: &mut VersionedStore<Vec<String>>)
    ensures
        appends_applied(old(output)@, final(output)@, whitelist_items(pool_models(pools@))),
{
    let ghost start = output@;
    let mut i: usize = 0;
    proof {
        assert(pool_models(pools@.take(0)) =~= Seq::<PoolModel>::empty());
        assert(start.take(start.len() as int) =~= start);
    }
    while i < pools.len()
        invariant
            i <= pools@.len(),
            appends_applied(start, output@, whitelist_items(pool_models(pools@.take(i as int)))),
        decreases pools@.len() - i,
    {
        let p = &pools[i];
        let ghost items0 = whitelist_items(pool_models(pools@.take(i as int)));
        proof {
            let m = pool_models(pools@.take(i + 1));
            assert(m.drop_last() =~= pool_models(pools@.take(i as int)));
            assert(m.last() == p@);
        }
        let w0 = whitelist_contains(&p.token0.address);
        if w0 {
            append_pool(output, p.log_ordinal, &p.token0.address, &p.address, Ghost(start), Ghost(items0));
        }
        let ghost items1 = if w0 {
            items0.push((p.log_ordinal, "token:"@ + p.token0.address@ + ":whitelist"@, p.address@))
        } else {
            items0
        };
        let w1 = whitelist_contains(&p.token1.address);
        if w1 {
            append_pool(output, p.log_ordinal, &p.token1.address, &p.address, Ghost(start), Ghost(items1));
        }
        proof {
            let items2 = if w1 {
                items1.push((p.log_ordinal, "token:"@ + p.token1.address@ + ":whitelist"@, p.address@))
            } else {
                items1
            };
            assert(items2 =~= whitelist_items(pool_models(pools@.take(i + 1))));
        }
        i = i + 1;
    }
    proof {
        assert(pools@.take(pools@.len() as int) =~= pools@);
    }
}

/// The changes to the liquidity of `pool` made by `events`, in order: the
/// amount of each mint of the pool whose range held the pool's tick at the
/// mint, and the negated amount of each such burn.
pub open spec fn in_range_liquidity(
    events: Seq<EventModel>,
    ticks: Seq<Write<SqrtPriceUpdate>>,
    pool: Seq<char>,
) -> Seq<(int, int)>
    decreases events.len(),
{
    if events.len() == 0 {
        Seq::empty()
    } else {
        let before = in_range_liquidity(events.drop_last(), ticks, pool);
        let e = events.last();
        let tick = current_tick(ticks, e.log_ordinal as int, e.pool_address);
        if e.pool_address != pool {
            before
        } else {
            match e.kind {
                EventKind::Mint(m) => if in_range(tick, m.tick_lower, m.tick_upper) {
                    before.push(amount_of(m.amount))
                } else {
                    before
                },
                EventKind::Burn(b) => if in_range(tick, b.tick_lower, b.tick_upper) {
                    before.push(negated(amount_of(b.amount)))
                } else {
                    before
                },
                EventKind::Swap(_) => before,
            }
        }
    }
}

/// `base` plus each number of `deltas`, in order.
pub open spec fn sum_all(base: (int, int), deltas: Seq<(int, int)>) -> (int, int)
    decreases deltas.len(),
{
    if deltas.len() == 0 {
        base
    } else {
        sum(sum_all(base, deltas.drop_last()), deltas.last())
    }
}

proof fn lemma_total_for_concat(
    base: (int, int),
    a: Seq<(u64, Seq<char>, (int, int))>,
    b: Seq<(u64, Seq<char>, (int, int))>,
    key: Seq<char>,
)
    ensures
        total_for(base, a + b, key) == total_for(total_for(base, a, key), b, key),
    decreases b.len(),
{
    if b.len() > 0 {
        lemma_total_for_concat(base, a, b.drop_last(), key);
        assert((a + b).drop_last() =~= a + b.drop_last());
        assert((a + b).last() == b.last());
    } else {
        assert(a + b =~= a);
    }
}

proof fn lemma_prefixed_keys(pool: Seq<char>, x: Seq<char>, y: Seq<char>)
    ensures
        "amount_locked:"@ + x != "liquidity:"@ + pool,
        "total_value_locked:"@ + y != "liquidity:"@ + pool,
        forall|q: Seq<char>| #![trigger "liquidity:"@ + q]
            ("liquidity:"@ + q == "liquidity:"@ + pool) ==> q == pool,
{
    reveal_strlit("amount_locked:");
    reveal_strlit("total_value_locked:");
    reveal_strlit("liquidity:");
    assert(("amount_locked:"@ + x)[0] == 'a');
    assert(("total_value_locked:"@ + y)[0] == 't');
    assert(("liquidity:"@ + pool)[0] == 'l');
    assert forall|q: Seq<char>| #![trigger "liquidity:"@ + q]
        ("liquidity:"@ + q == "liquidity:"@ + pool) implies q == pool by {
        if "liquidity:"@ + q == "liquidity:"@ + pool {
            assert(q =~= ("liquidity:"@ + q).skip(10));
            assert(pool =~= ("liquidity:"@ + pool).skip(10));
        }
    }
}

/// An event's additions: at most one to the liquidity key, then two to keys
/// that are not it. The total for the key moves by the first alone.
proof fn lemma_event_total(
    t0: (int, int),
    head: Seq<(u64, Seq<char>, (int, int))>,
    tail: Seq<(u64, Seq<char>, (int, int))>,
    key: Seq<char>,
)
    requires
        head.len() <= 1,
        tail.len() == 2,
        tail[0].1 != key,
        tail[1].1 != key,
    ensures
        total_for(t0, head + tail, key) == if head.len() == 1 && head[0].1 == key {
            sum(t0, head[0].2)
        } else {
            t0
        },
{
    lemma_total_for_concat(t0, head, tail, key);
    let x = total_for(t0, head, key);
    let one = seq![tail[0]];
    assert(tail.last() == tail[1]);
    assert(tail.drop_last() =~= one);
    assert(total_for(x, tail, key) == total_for(x, one, key));
    assert(one.last() == tail[0]);
    assert(one.drop_last() =~= Seq::<(u64, Seq<char>, (int, int))>::empty());
    assert(total_for(x, one, key) == total_for(x, one.drop_last(), key));
    assert(total_for(x, Seq::<(u64, Seq<char>, (int, int))>::empty(), key) == x);
    if head.len() == 1 {
        assert(head.drop_last() =~= Seq::<(u64, Seq<char>, (int, int))>::empty());
        assert(head.last() == head[0]);
        assert(total_for(t0, head.drop_last(), key) == t0);
    } else {
        assert(head =~= Seq::<(u64, Seq<char>, (int, int))>::empty());
    }
}

/// One more step of `sum_all`, where the list moved by `d`.
proof fn lemma_sum_all_step(base: (int, int), before: Seq<(int, int)>, d: (int, int), moved: bool)
    ensures
        sum_all(base, if moved { before.push(d) } else { before }) == if moved {
            sum(sum_all(base, before), d)
        } else {
            sum_all(base, before)
        },
{
    if moved {
        assert(before.push(d).drop_last() =~= before);
    }
}

proof fn lemma_liquidity_additions_total(
    base: (int, int),
    events: Seq<EventModel>,
    ticks: Seq<Write<SqrtPriceUpdate>>,
    pool: Seq<char>,
)
    ensures
        total_for(base, liquidity_additions(events, ticks), "liquidity:"@ + pool) == sum_all(
            base,
            in_range_liquidity(events, ticks, pool),
        ),
    decreases events.len(),
{
    if events.len() > 0 {
        let key = "liquidity:"@ + pool;
        let e = events.last();
        lemma_liquidity_additions_total(base, events.drop_last(), ticks, pool);
        let prev = liquidity_additions(events.drop_last(), ticks);
        let adds = event_additions(e, ticks);
        lemma_total_for_concat(base, prev, adds, key);
        let t0 = total_for(base, prev, key);
        let tick = current_tick(ticks, e.log_ordinal as int, e.pool_address);
        let lk = "liquidity:"@ + e.pool_address;
        lemma_prefixed_keys(pool, e.pool_address + ":"@ + e.token0, e.token0 + ":"@ + e.token1);
        lemma_prefixed_keys(pool, e.pool_address + ":"@ + e.token1, e.token1 + ":"@ + e.token0);
        assert("amount_locked:"@ + e.pool_address + ":"@ + e.token0 == "amount_locked:"@ + (
        e.pool_address + ":"@ + e.token0)) by {
            assert("amount_locked:"@ + e.pool_address + ":"@ + e.token0 =~= "amount_locked:"@ + (
            e.pool_address + ":"@ + e.token0));
        }
        assert("amount_locked:"@ + e.pool_address + ":"@ + e.token1 == "amount_locked:"@ + (
        e.pool_address + ":"@ + e.token1)) by {
            assert("amount_locked:"@ + e.pool_address + ":"@ + e.token1 =~= "amount_locked:"@ + (
            e.pool_address + ":"@ + e.token1));
        }
        assert("total_value_locked:"@ + e.token0 + ":"@ + e.token1 == "total_value_locked:"@ + (
        e.token0 + ":"@ + e.token1)) by {
            assert("total_value_locked:"@ + e.token0 + ":"@ + e.token1 =~= "total_value_locked:"@ + (
            e.token0 + ":"@ + e.token1));
        }
        assert("total_value_locked:"@ + e.token1 + ":"@ + e.token0 == "total_value_locked:"@ + (
        e.token1 + ":"@ + e.token0)) by {
            assert("total_value_locked:"@ + e.token1 + ":"@ + e.token0 =~= "total_value_locked:"@ + (
            e.token1 + ":"@ + e.token0));
        }
        assert(lk == key <==> e.pool_address == pool);
        match e.kind {
            EventKind::Mint(m) => {
                let moved = in_range(tick, m.tick_lower, m.tick_upper);
                let d = amount_of(m.amount);
                let head: Seq<(u64, Seq<char>, (int, int))> = if moved {
                    seq![(e.log_ordinal, lk, d)]
                } else {
                    Seq::empty()
                };
                let tail = seq![
                    (e.log_ordinal, "amount_locked:"@ + e.pool_address + ":"@ + e.token0, amount_of(m.amount_0)),
                    (e.log_ordinal, "amount_locked:"@ + e.pool_address + ":"@ + e.token1, amount_of(m.amount_1)),
                ];
                assert(adds == head + tail);
                lemma_event_total(t0, head, tail, key);
                lemma_sum_all_step(base, in_range_liquidity(events.drop_last(), ticks, pool), d, e.pool_address == pool && moved);
            },
            EventKind::Burn(b) => {
                let moved = in_range(tick, b.tick_lower, b.tick_upper);
                let d = negated(amount_of(b.amount));
                let head: Seq<(u64, Seq<char>, (int, int))> = if moved {
                    seq![(e.log_ordinal, lk, d)]
                } else {
                    Seq::empty()
                };
                let tail = seq![
                    (e.log_ordinal, "total_value_locked:"@ + e.token0 + ":"@ + e.token1, negated(amount_of(b.amount_0))),
                    (e.log_ordinal, "total_value_locked:"@ + e.token1 + ":"@ + e.token0, negated(amount_of(b.amount_1))),
                ];
                assert(adds == head + tail);
                lemma_event_total(t0, head, tail, key);
                lemma_sum_all_step(base, in_range_liquidity(events.drop_last(), ticks, pool), d, e.pool_address == pool && moved);
            },
            EventKind::Swap(_) => {
                assert(prev + adds =~= prev);
            },
        }
    }
}

/// After the mints and burns of `events` are applied, the liquidity of a
/// pool is the liquidity before plus the amounts of its mints whose range
/// held the pool's tick at the mint, minus the amounts of such burns; the
/// tick is the one current at each event, not the last one.
pub proof fn lemma_liquidity_is_in_range_sum(
    old: Seq<Write<Decimal>>,
    new: Seq<Write<Decimal>>,
    events: Seq<EventModel>,
    ticks: Seq<Write<SqrtPriceUpdate>>,
    pool: Seq<char>,
)
    requires
        additions_applied(old, new, liquidity_additions(events, ticks)),
    ensures
        same_value(
            number_last(new, "liquidity:"@ + pool),
            sum_all(number_last(old, "liquidity:"@ + pool), in_range_liquidity(events, ticks, pool)),
        ),
{
    let key = "liquidity:"@ + pool;
    lemma_additions_total(old, new, liquidity_additions(events, ticks), key);
    lemma_liquidity_additions_total(number_last(old, key), events, ticks, pool);
}

} // verus!
