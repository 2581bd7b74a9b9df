use std::str::FromStr;

use bigdecimal::BigDecimal;
use uniswap_v3_state::chain::{extract_pool_liquidity, load_transaction, StorageChange, TransactionTrace};
use uniswap_v3_state::decimal::Decimal;
use uniswap_v3_state::events::{
    map_fees, map_flashes, map_pools_initialized, map_sqrt_price, Block, BurnData, LogEntry, LogEvent,
    MintData, SqrtPriceUpdate, SwapData,
};
use uniswap_v3_state::handlers::{
    store_derived_eth_prices, store_fees, store_pool_prices, store_pools_by_fee, store_liquidity, store_pools, store_prices, store_sqrt_price,
    store_swaps, store_ticks, store_tokens_whitelist_pools,
};
use uniswap_v3_state::pool::{map_pools_created, pool_created_token_addresses, Pool, TokenResolution};
use uniswap_v3_state::pool_events::{map_burns_swaps_mints, Event, EventKind};
use uniswap_v3_state::position::{get_position, PositionEvent, PositionType, PositionsCall};
use uniswap_v3_state::store::VersionedStore;
use uniswap_v3_state::tokens::{create_uniswap_token, Erc20Token};

const FACTORY: &str = "1f98431c8ad98523631ae4a59f267346ea31f984";
const USDC: &str = "a0b86991c6218b36c1d19d4a2e9eb0ce3606eb48";
const WETH: &str = "c02aaa39b223fe8d0a0e5c4f27ead9083c756cc2";
const BAD: &str = "0000000000000000000000000000000000000bad";
const POOL: &str = "8ad599c3a0ff1de082011efddc58f1908eb6e6d8";
const OTHER: &str = "0000000000000000000000000000000000000abc";

fn bytes(h: &str) -> Vec<u8> {
    hex::decode(h).unwrap()
}

fn log(address: &str, ordinal: u64, event: LogEvent) -> LogEntry {
    LogEntry { transaction_hash: vec![0xab, 0x01], address: bytes(address), ordinal, reverted: false, event }
}

fn created(token0: &str, token1: &str, pool: &str) -> LogEvent {
    LogEvent::PoolCreated { token0: bytes(token0), token1: bytes(token1), fee: 3000, tick_spacing: 60, pool: bytes(pool) }
}

fn token(address: &str, decimals: u64) -> Erc20Token {
    create_uniswap_token(&address.to_string(), Some(decimals), Some("n".to_string()), Some("s".to_string()), &vec![], &vec![]).unwrap()
}

fn big(d: &Decimal) -> BigDecimal {
    BigDecimal::new(d.digits.parse().unwrap(), d.scale)
}

fn mint(lower: i32, upper: i32, amount: &str) -> LogEvent {
    LogEvent::Mint(MintData {
        owner: "o".to_string(),
        sender: "s".to_string(),
        amount_0: "10".to_string(),
        amount_1: "20".to_string(),
        tick_lower: lower,
        tick_upper: upper,
        amount: amount.to_string(),
    })
}

fn burn(lower: i32, upper: i32, amount: &str) -> LogEvent {
    LogEvent::Burn(BurnData {
        owner: "o".to_string(),
        amount_0: "1".to_string(),
        amount_1: "2".to_string(),
        tick_lower: lower,
        tick_upper: upper,
        amount: amount.to_string(),
    })
}

fn swap(tick: i32) -> LogEvent {
    LogEvent::Swap(SwapData {
        sender: "a".to_string(),
        recipient: "b".to_string(),
        amount_0: "1".to_string(),
        amount_1: "-1".to_string(),
        sqrt_price: "79228162514264337593543950336".to_string(),
        liquidity: "5".to_string(),
        tick,
    })
}

fn registered_pool() -> VersionedStore<Pool> {
    let block = Block { number: 7, timestamp: 100, logs: vec![log(FACTORY, 1, created(USDC, WETH, POOL))] };
    let res = vec![
        TokenResolution { address: USDC.to_string(), token: Some(token(USDC, 6)) },
        TokenResolution { address: WETH.to_string(), token: Some(token(WETH, 18)) },
    ];
    let pools = map_pools_created(&block, &res);
    let mut store = VersionedStore::new();
    store_pools(&pools, &mut store);
    store_pools_by_fee(&pools, &mut store);
    store
}

#[test]
fn pool_created_with_both_tokens() {
    let block = Block { number: 7, timestamp: 100, logs: vec![log(FACTORY, 1, created(USDC, WETH, POOL))] };
    assert_eq!(pool_created_token_addresses(&block), vec![USDC.to_string(), WETH.to_string()]);
    let res = vec![
        TokenResolution { address: USDC.to_string(), token: Some(token(USDC, 6)) },
        TokenResolution { address: WETH.to_string(), token: Some(token(WETH, 18)) },
    ];
    let pools = map_pools_created(&block, &res);
    assert_eq!(pools.len(), 1);
    let p = &pools[0];
    assert_eq!(p.address, POOL);
    assert_eq!(p.token0.address, USDC);
    assert_eq!(p.token0.decimals, 6);
    assert_eq!(p.token1.address, WETH);
    assert_eq!(p.token0.whitelist_pools, vec![POOL.to_string()]);
    assert_eq!(p.token1.whitelist_pools, vec![POOL.to_string()]);
    assert_eq!(p.creation_transaction_id, "ab01");
    assert_eq!(p.block_num, 7);
    assert_eq!(p.log_ordinal, 1);
    assert_eq!(p.fee, 3000);
    assert_eq!(p.tick_spacing, 60);
}

#[test]
fn pool_with_unresolved_token_is_dropped() {
    let block = Block { number: 7, timestamp: 100, logs: vec![log(FACTORY, 1, created(USDC, BAD, POOL))] };
    let res = vec![
        TokenResolution { address: USDC.to_string(), token: Some(token(USDC, 6)) },
        TokenResolution { address: BAD.to_string(), token: None },
    ];
    let pools = map_pools_created(&block, &res);
    assert!(pools.is_empty());
    let mut pool_store = VersionedStore::new();
    store_pools(&pools, &mut pool_store);
    let mut whitelist = VersionedStore::new();
    store_tokens_whitelist_pools(&pools, &mut whitelist);
    assert!(pool_store.get_last(&format!("pool:{}", POOL)).is_none());
    assert!(whitelist.get_last(&format!("token:{}:whitelist", USDC)).is_none());
}

#[test]
fn known_token_is_reused_and_keeps_its_pools() {
    let second = "0000000000000000000000000000000000000002".to_string();
    let block = Block {
        number: 7,
        timestamp: 100,
        logs: vec![log(FACTORY, 1, created(USDC, WETH, POOL)), log(FACTORY, 2, created(USDC, OTHER, &second))],
    };
    let addresses = pool_created_token_addresses(&block);
    assert_eq!(addresses, vec![USDC.to_string(), WETH.to_string(), OTHER.to_string()]);
    let res = vec![
        TokenResolution { address: USDC.to_string(), token: Some(token(USDC, 6)) },
        TokenResolution { address: WETH.to_string(), token: Some(token(WETH, 18)) },
        TokenResolution { address: OTHER.to_string(), token: Some(token(OTHER, 9)) },
    ];
    let pools = map_pools_created(&block, &res);
    assert_eq!(pools.len(), 2);
    assert_eq!(pools[1].token0.whitelist_pools, vec![POOL.to_string(), second.clone()]);
    assert!(pools[1].token1.whitelist_pools.is_empty());
    let mut whitelist = VersionedStore::new();
    store_tokens_whitelist_pools(&pools, &mut whitelist);
    assert_eq!(
        whitelist.get_last(&format!("token:{}:whitelist", USDC)).unwrap(),
        &vec![POOL.to_string(), second]
    );
    assert!(whitelist.get_last(&format!("token:{}:whitelist", OTHER)).is_none());
}

#[test]
fn pool_from_other_emitter_or_reverted_call_is_ignored() {
    let mut reverted = log(FACTORY, 2, created(USDC, WETH, POOL));
    reverted.reverted = true;
    let block = Block { number: 7, timestamp: 100, logs: vec![log(OTHER, 1, created(USDC, WETH, POOL)), reverted] };
    let res = vec![
        TokenResolution { address: USDC.to_string(), token: Some(token(USDC, 6)) },
        TokenResolution { address: WETH.to_string(), token: Some(token(WETH, 18)) },
    ];
    assert!(map_pools_created(&block, &res).is_empty());
    assert!(pool_created_token_addresses(&block).is_empty());
}

#[test]
fn pools_are_stored_under_address_and_pair() {
    let store = registered_pool();
    assert_eq!(store.get_last(&format!("pool:{}", POOL)).unwrap().address, POOL);
    assert_eq!(store.get_last(&format!("tokens:{}:{}", USDC, WETH)).unwrap().address, POOL);
    assert_eq!(store.get_last(&format!("tokens:{}:{}:3000", USDC, WETH)).unwrap().address, POOL);
    assert!(store.get_last(&format!("tokens:{}:{}:500", USDC, WETH)).is_none());
    let mut only = VersionedStore::new();
    let block = Block { number: 7, timestamp: 100, logs: vec![log(FACTORY, 1, created(USDC, WETH, POOL))] };
    let res = vec![
        TokenResolution { address: USDC.to_string(), token: Some(token(USDC, 6)) },
        TokenResolution { address: WETH.to_string(), token: Some(token(WETH, 18)) },
    ];
    store_pools(&map_pools_created(&block, &res), &mut only);
    assert!(only.get_last(&format!("tokens:{}:{}:3000", USDC, WETH)).is_none());
}

#[test]
fn swap_at_unknown_pool_aborts_block() {
    let pools = registered_pool();
    let block = Block { number: 8, timestamp: 200, logs: vec![log(OTHER, 3, swap(5))] };
    match map_burns_swaps_mints(&block, &pools) {
        Err(e) => {
            assert_eq!(e.pool_address, OTHER);
            assert_eq!(e.transaction_id, "ab01");
        }
        Ok(_) => panic!("a swap at an unregistered pool must fail"),
    }
}

#[test]
fn events_carry_their_pool() {
    let pools = registered_pool();
    let block = Block {
        number: 8,
        timestamp: 200,
        logs: vec![log(POOL, 3, swap(5)), log(POOL, 4, mint(-10, 10, "100")), log(POOL, 5, LogEvent::Other)],
    };
    let events = match map_burns_swaps_mints(&block, &pools) {
        Ok(e) => e,
        Err(_) => panic!("the pool is registered"),
    };
    assert_eq!(events.len(), 2);
    assert_eq!(events[0].pool_address, POOL);
    assert_eq!(events[0].token0, USDC);
    assert_eq!(events[0].token1, WETH);
    assert_eq!(events[0].fee, 3000);
    assert_eq!(events[0].timestamp, 200);
    assert_eq!(events[0].transaction_id, "ab01");
    assert!(matches!(events[0].kind, EventKind::Swap(_)));
    assert!(matches!(events[1].kind, EventKind::Mint(_)));
    let mut swaps = VersionedStore::new();
    store_swaps(&events, &mut swaps);
    assert_eq!(swaps.get_last(&format!("pool:{}", POOL)).unwrap().tick, 5);
}

fn event(ordinal: u64, kind: LogEvent) -> Event {
    let kind = match kind {
        LogEvent::Mint(m) => EventKind::Mint(m),
        LogEvent::Burn(b) => EventKind::Burn(b),
        LogEvent::Swap(s) => EventKind::Swap(s),
        _ => panic!("not a pool event"),
    };
    Event {
        log_ordinal: ordinal,
        pool_address: POOL.to_string(),
        token0: USDC.to_string(),
        token1: WETH.to_string(),
        fee: 3000,
        transaction_id: "t".to_string(),
        timestamp: 1,
        kind,
    }
}

fn tick_at(ordinal: u64, tick: i32) -> SqrtPriceUpdate {
    SqrtPriceUpdate { pool_address: POOL.to_string(), ordinal, sqrt_price: "1".to_string(), tick }
}

#[test]
fn liquidity_counts_in_range_amounts_at_event_time() {
    let mut ticks = VersionedStore::new();
    store_sqrt_price(&vec![tick_at(1, 0), tick_at(5, 50)], &mut ticks);
    let events = vec![
        event(2, mint(-10, 10, "100")),
        event(3, mint(20, 30, "7")),
        event(4, burn(-10, 10, "40")),
        event(6, mint(-10, 10, "1000")),
        event(7, mint(40, 60, "9")),
    ];
    let mut out = VersionedStore::new();
    store_liquidity(&events, &ticks, &mut out);
    let liquidity = out.get_last(&format!("liquidity:{}", POOL)).unwrap();
    assert_eq!(big(liquidity), BigDecimal::from(69));
    let locked0 = out.get_last(&format!("amount_locked:{}:{}", POOL, USDC)).unwrap();
    assert_eq!(big(locked0), BigDecimal::from(40));
    let tvl = out.get_last(&format!("total_value_locked:{}:{}", USDC, WETH)).unwrap();
    assert_eq!(big(tvl), BigDecimal::from(-1));
    let tvl = out.get_last(&format!("total_value_locked:{}:{}", WETH, USDC)).unwrap();
    assert_eq!(big(tvl), BigDecimal::from(-2));
}

#[test]
fn liquidity_unchanged_without_known_tick() {
    let ticks = VersionedStore::new();
    let mut out = VersionedStore::new();
    store_liquidity(&vec![event(2, mint(-10, 10, "100"))], &ticks, &mut out);
    assert!(out.get_last(&format!("liquidity:{}", POOL)).is_none());
    assert!(out.get_last(&format!("amount_locked:{}:{}", POOL, WETH)).is_some());
}

#[test]
fn ticks_of_a_mint() {
    let mut out = VersionedStore::new();
    store_ticks(&vec![event(2, mint(0, 1, "100")), event(3, burn(-5, 5, "1"))], &mut out);
    let lower = out.get_last(&format!("tick:0:pool:{}", POOL)).unwrap();
    assert_eq!(lower.idx, 0);
    assert_eq!(big(&lower.price0), BigDecimal::from(1));
    assert_eq!(big(&lower.price1), BigDecimal::from(1));
    let upper = out.get_last(&format!("tick:1:pool:{}", POOL)).unwrap();
    assert_eq!(big(&upper.price0), BigDecimal::from_str("1.0001").unwrap());
    assert!(out.get_last(&format!("tick:-5:pool:{}", POOL)).is_none());
}

#[test]
fn mapped_records_of_a_block() {
    let mut reverted = log(POOL, 9, LogEvent::Initialize { sqrt_price: "9".to_string(), tick: 9 });
    reverted.reverted = true;
    let block = Block {
        number: 8,
        timestamp: 200,
        logs: vec![
            log(POOL, 1, LogEvent::Initialize { sqrt_price: "79228162514264337593543950336".to_string(), tick: 0 }),
            log(POOL, 2, swap(12)),
            log(FACTORY, 3, LogEvent::FeeAmountEnabled { fee: 100, tick_spacing: 1 }),
            log(POOL, 4, LogEvent::Flash { sender: "s".to_string(), recipient: "r".to_string() }),
            reverted,
        ],
    };
    let inits = map_pools_initialized(&block);
    assert_eq!(inits.len(), 1);
    assert_eq!(inits[0].address, POOL);
    assert_eq!(inits[0].initialization_transaction_id, "ab01");
    let prices = map_sqrt_price(&block);
    assert_eq!(prices.len(), 2);
    assert_eq!(prices[1].tick, 12);
    assert_eq!(prices[1].ordinal, 2);
    let fees = map_fees(&block);
    assert_eq!(fees.len(), 1);
    assert_eq!(fees[0].fee, 100);
    let mut fee_store = VersionedStore::new();
    store_fees(&block, &mut fee_store);
    assert_eq!(fee_store.get_last(&"fee:100:1".to_string()).unwrap().tick_spacing, 1);
    let flashes = map_flashes(&block);
    assert_eq!(flashes.len(), 1);
    assert_eq!(flashes[0].sender, "s");
    assert_eq!(flashes[0].amount_0, "");
    assert_eq!(flashes[0].log_ordinal, 4);
}

#[test]
fn prices_and_derived_prices_of_an_update() {
    let pools = registered_pool();
    let update = SqrtPriceUpdate {
        pool_address: POOL.to_string(),
        ordinal: 5,
        sqrt_price: "79228162514264337593543950336".to_string(),
        tick: 0,
    };
    let mut prices = VersionedStore::new();
    assert!(store_prices(&vec![SqrtPriceUpdate { pool_address: POOL.to_string(), ordinal: 5, sqrt_price: "79228162514264337593543950336".to_string(), tick: 0 }], &pools, &mut prices).is_ok());
    let usdc_weth = prices.get_at(5, &format!("price:{}:{}", USDC, WETH)).unwrap();
    assert_eq!(big(usdc_weth), BigDecimal::from_str("1000000000000").unwrap());
    let weth_usdc = prices.get_at(5, &format!("price:{}:{}", WETH, USDC)).unwrap();
    assert_eq!(big(weth_usdc), BigDecimal::from_str("0.000000000001").unwrap());
    assert!(prices.get_at(4, &format!("price:{}:{}", WETH, USDC)).is_none());
    assert!(store_pool_prices(&vec![SqrtPriceUpdate { pool_address: POOL.to_string(), ordinal: 5, sqrt_price: "79228162514264337593543950336".to_string(), tick: 0 }], &pools, &mut prices).is_ok());
    let own0 = prices.get_at(5, &format!("price:{}:{}:token0", POOL, USDC)).unwrap();
    assert_eq!(big(own0), BigDecimal::from_str("1000000000000").unwrap());
    let own1 = prices.get_at(5, &format!("price:{}:{}:token1", POOL, WETH)).unwrap();
    assert_eq!(big(own1), BigDecimal::from_str("0.000000000001").unwrap());
    let mut derived = VersionedStore::new();
    let r = store_derived_eth_prices(
        &vec![update],
        &pools,
        &VersionedStore::new(),
        &VersionedStore::new(),
        &VersionedStore::new(),
        &prices,
        &mut derived,
    );
    assert!(r.is_ok());
    let weth = derived.get_last(&format!("token:{}:dprice:eth", WETH)).unwrap();
    assert_eq!(big(weth), BigDecimal::from(1));
    let usdc = derived.get_last(&format!("token:{}:dprice:eth", USDC)).unwrap();
    assert_eq!(big(usdc), BigDecimal::from_str("0.000000000001").unwrap());
}

#[test]
fn price_update_of_unknown_pool_fails() {
    let pools = VersionedStore::new();
    let update = SqrtPriceUpdate { pool_address: OTHER.to_string(), ordinal: 5, sqrt_price: "1".to_string(), tick: 0 };
    let mut prices = VersionedStore::new();
    match store_prices(&vec![update], &pools, &mut prices) {
        Err(e) => assert_eq!(e.pool_address, OTHER),
        Ok(_) => panic!("the pool is not registered"),
    }
}

#[test]
fn transaction_of_a_trace() {
    let trace = TransactionTrace { hash: vec![0x0f, 0xa0], gas_used: 21000, gas_price: Some(vec![0x01, 0x00]) };
    let t = load_transaction(5, 6, 7, &trace);
    assert_eq!(t.id, "0fa0");
    assert_eq!(t.gas_price, "256");
    assert_eq!(t.gas_used, 21000);
    let trace = TransactionTrace { hash: vec![], gas_used: 0, gas_price: None };
    assert_eq!(load_transaction(5, 6, 7, &trace).gas_price, "0");
}

#[test]
fn liquidity_slot_of_a_pool() {
    let changes = vec![
        StorageChange { address: bytes(OTHER), key: vec![0, 4], new_value: vec![1] },
        StorageChange { address: bytes(POOL), key: vec![0, 3], new_value: vec![2] },
        StorageChange { address: bytes(POOL), key: vec![0, 4], new_value: vec![0x03, 0xe8] },
    ];
    let l = extract_pool_liquidity(9, &bytes(POOL), &changes).unwrap();
    assert_eq!(l.pool_address, POOL);
    assert_eq!(l.liquidity, "1000");
    assert_eq!(l.log_ordinal, 9);
    assert!(extract_pool_liquidity(9, &bytes(USDC), &changes).is_none());
}

fn positions_call(token0: &str, token1: &str) -> PositionsCall {
    PositionsCall {
        token0: bytes(token0),
        token1: bytes(token1),
        fee: 3000,
        tick_lower: -10,
        tick_upper: 20,
        fee_growth_inside_0_last_x128: "11".to_string(),
        fee_growth_inside_1_last_x128: "12".to_string(),
    }
}

#[test]
fn position_of_a_registered_pair() {
    let pools = registered_pool();
    let event = PositionEvent {
        token_id: "42".to_string(),
        amount0: "1500000".to_string(),
        amount1: "2000000000000000000".to_string(),
        liquidity: "777".to_string(),
    };
    let p = get_position(
        &pools,
        &vec![0x12, 0x34],
        PositionType::IncreaseLiquidity,
        3,
        4,
        5,
        &event,
        Some(positions_call(WETH, USDC)),
    )
    .unwrap();
    assert_eq!(p.id, "42");
    assert_eq!(p.owner, "0000000000000000000000000000000000000000");
    assert_eq!(p.pool, POOL);
    assert_eq!(p.token0, WETH);
    assert_eq!(p.tick_lower, format!("{}#-10", POOL));
    assert_eq!(p.tick_upper, format!("{}#20", POOL));
    assert_eq!(p.transaction, "1234");
    assert_eq!(big(&p.amount0), BigDecimal::from_str("1.5").unwrap());
    assert_eq!(big(&p.amount1), BigDecimal::from(2));
    assert_eq!(p.liquidity, "777");
    assert_eq!(p.position_type, PositionType::IncreaseLiquidity);
    assert!(get_position(&pools, &vec![], PositionType::Collect, 3, 4, 5, &event, None).is_none());
    assert!(get_position(
        &pools,
        &vec![],
        PositionType::Collect,
        3,
        4,
        5,
        &event,
        Some(positions_call(USDC, OTHER))
    )
    .is_none());
}

#[test]
fn derived_price_of_unknown_pool_fails() {
    let update = SqrtPriceUpdate { pool_address: OTHER.to_string(), ordinal: 5, sqrt_price: "1".to_string(), tick: 0 };
    let mut derived = VersionedStore::new();
    let r = store_derived_eth_prices(
        &vec![update],
        &VersionedStore::new(),
        &VersionedStore::new(),
        &VersionedStore::new(),
        &VersionedStore::new(),
        &VersionedStore::new(),
        &mut derived,
    );
    match r {
        Err(e) => assert_eq!(e.pool_address, OTHER),
        Ok(_) => panic!("the pool is not registered"),
    }
}

#[test]
fn resolution_for_another_address_is_not_used() {
    let block = Block { number: 7, timestamp: 100, logs: vec![log(FACTORY, 1, created(USDC, WETH, POOL))] };
    let res = vec![
        TokenResolution { address: USDC.to_string(), token: Some(token(OTHER, 6)) },
        TokenResolution { address: WETH.to_string(), token: Some(token(WETH, 18)) },
    ];
    assert!(map_pools_created(&block, &res).is_empty());
    let mut listed = token(USDC, 6);
    listed.whitelist_pools.push(OTHER.to_string());
    let res = vec![
        TokenResolution { address: USDC.to_string(), token: Some(listed) },
        TokenResolution { address: WETH.to_string(), token: Some(token(WETH, 18)) },
    ];
    assert!(map_pools_created(&block, &res).is_empty());
}

#[test]
fn pool_is_listed_once_per_token() {
    let block = Block { number: 7, timestamp: 100, logs: vec![log(FACTORY, 1, created(USDC, USDC, POOL))] };
    let res = vec![TokenResolution { address: USDC.to_string(), token: Some(token(USDC, 6)) }];
    let pools = map_pools_created(&block, &res);
    assert_eq!(pools.len(), 1);
    assert_eq!(pools[0].token0.whitelist_pools, vec![POOL.to_string()]);
    assert_eq!(pools[0].token1.whitelist_pools, vec![POOL.to_string()]);
}

#[test]
fn empty_storage_key_is_skipped() {
    let changes = vec![
        StorageChange { address: bytes(POOL), key: vec![], new_value: vec![9] },
        StorageChange { address: bytes(POOL), key: vec![4], new_value: vec![7] },
    ];
    assert_eq!(extract_pool_liquidity(1, &bytes(POOL), &changes).unwrap().liquidity, "7");
}
