use uniswap_v3_state::decimal::Decimal;
use uniswap_v3_state::keyer::{
    fee_key, generate_tokens_key, pool_key, tick_key, token_derived_eth_price, tokens_key,
};
use uniswap_v3_state::store::VersionedStore;

fn dec(digits: &str, scale: i64) -> Decimal {
    Decimal { digits: digits.to_string(), scale }
}

fn text(d: &Decimal) -> String {
    bigdecimal::BigDecimal::new(d.digits.parse().unwrap(), d.scale).normalized().to_string()
}

#[test]
fn get_at_follows_ordinals() {
    let mut store: VersionedStore<String> = VersionedStore::new();
    let key = "pool:abc".to_string();
    store.set(10, key.clone(), "first".to_string());
    store.set(20, key.clone(), "second".to_string());
    assert_eq!(store.get_at(9, &key), None);
    assert_eq!(store.get_at(10, &key).unwrap(), "first");
    assert_eq!(store.get_at(19, &key).unwrap(), "first");
    assert_eq!(store.get_at(20, &key).unwrap(), "second");
    assert_eq!(store.get_at(1000, &key).unwrap(), "second");
    assert_eq!(store.get_last(&key).unwrap(), "second");
}

#[test]
fn never_written_key_is_not_found() {
    let mut store: VersionedStore<u64> = VersionedStore::new();
    store.set(1, "a".to_string(), 1);
    assert_eq!(store.get_last(&"b".to_string()), None);
    assert_eq!(store.get_at(5, &"b".to_string()), None);
}

#[test]
fn add_accumulates_from_zero() {
    let mut store: VersionedStore<Decimal> = VersionedStore::new();
    let key = "liquidity:p".to_string();
    store.add(1, key.clone(), &dec("100", 0));
    store.add(2, key.clone(), &dec("-30", 0));
    store.add(3, key.clone(), &dec("5", 1));
    assert_eq!(text(store.get_last(&key).unwrap()), "70.5");
    assert_eq!(text(store.get_at(1, &key).unwrap()), "100");
    assert_eq!(text(store.get_at(2, &key).unwrap()), "70");
}

#[test]
fn append_builds_ordered_list() {
    let mut store: VersionedStore<Vec<String>> = VersionedStore::new();
    let key = "token:t:whitelist".to_string();
    store.append(1, key.clone(), "pool_a".to_string());
    store.append(2, key.clone(), "pool_b".to_string());
    assert_eq!(store.get_last(&key).unwrap(), &vec!["pool_a".to_string(), "pool_b".to_string()]);
    assert_eq!(store.get_at(1, &key).unwrap(), &vec!["pool_a".to_string()]);
}

#[test]
fn keys_have_their_textual_form() {
    assert_eq!(pool_key(&"abc".to_string()), "pool:abc");
    assert_eq!(tick_key(-887272, &"abc".to_string()), "tick:-887272:pool:abc");
    assert_eq!(tick_key(0, &"abc".to_string()), "tick:0:pool:abc");
    assert_eq!(fee_key(3000, 60), "fee:3000:60");
    assert_eq!(fee_key(100, -1), "fee:100:-1");
    assert_eq!(token_derived_eth_price(&"t".to_string()), "token:t:dprice:eth");
}

#[test]
fn token_pair_key_is_sorted() {
    assert_eq!(generate_tokens_key("bbb", "aaa"), "aaa:bbb");
    assert_eq!(generate_tokens_key("aaa", "bbb"), "aaa:bbb");
    assert_eq!(tokens_key(&"c0".to_string(), &"a0".to_string()), "tokens:a0:c0");
    assert_eq!(generate_tokens_key("ab", "a"), "a:ab");
}

#[test]
fn get_at_takes_the_greatest_ordinal() {
    let mut store: VersionedStore<u64> = VersionedStore::new();
    let key = "k".to_string();
    store.set(10, key.clone(), 1);
    store.set(5, key.clone(), 2);
    assert_eq!(*store.get_at(20, &key).unwrap(), 1);
    assert_eq!(*store.get_at(7, &key).unwrap(), 2);
    store.set(10, key.clone(), 3);
    assert_eq!(*store.get_at(20, &key).unwrap(), 3);
}
