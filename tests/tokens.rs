use uniswap_v3_state::tokens::{
    create_uniswap_token, get_static_uniswap_tokens, log_token, stable_coins_contains,
    whitelist_contains, Erc20Token,
};

#[test]
fn static_table_gives_override() {
    let t = get_static_uniswap_tokens(&"e0b7927c4af23765cb51314a0e0521a9645f0e2a".to_string()).unwrap();
    assert_eq!(t.name, "DGD");
    assert_eq!(t.symbol, "DGD");
    assert_eq!(t.decimals, 9);
    let t = get_static_uniswap_tokens(&"bb9bc244d798123fde783fcc1c72d3bb8c189413".to_string()).unwrap();
    assert_eq!(t.symbol, "TheDAO");
    assert_eq!(t.decimals, 16);
    assert!(get_static_uniswap_tokens(&"0000000000000000000000000000000000000bad".to_string()).is_none());
}

#[test]
fn token_from_answers() {
    let a = "1111111111111111111111111111111111111111".to_string();
    let t = create_uniswap_token(&a, Some(6), Some("Name".to_string()), Some("SYM".to_string()), &vec![], &vec![]).unwrap();
    assert_eq!(t.address, a);
    assert_eq!(t.decimals, 6);
    assert_eq!(t.name, "Name");
    assert_eq!(t.symbol, "SYM");
    assert!(t.whitelist_pools.is_empty());
}

#[test]
fn token_without_decimals_is_not_a_token() {
    let a = "0000000000000000000000000000000000000bad".to_string();
    assert!(create_uniswap_token(&a, None, Some("x".to_string()), Some("y".to_string()), &vec![], &vec![]).is_none());
}

#[test]
fn token_falls_back_to_override_table() {
    let a = "7fc66500c84a76ad7e9c93437bfc5ac33e2ddae9".to_string();
    let t = create_uniswap_token(&a, None, None, Some("AAVE!".to_string()), &b"X".to_vec(), &vec![]).unwrap();
    assert_eq!(t.decimals, 18);
    assert_eq!(t.name, "Aave Token");
    assert_eq!(t.symbol, "AAVE!");
}

#[test]
fn missing_name_without_override_is_empty() {
    let a = "2222222222222222222222222222222222222222".to_string();
    let t = create_uniswap_token(&a, Some(18), None, None, &vec![], &vec![]).unwrap();
    assert_eq!(t.name, "");
    assert_eq!(t.symbol, "");
    let mut raw = b"Maker".to_vec();
    raw.extend(vec![0; 27]);
    raw.extend(b"tail".to_vec());
    let t = create_uniswap_token(&a, Some(18), None, None, &raw, &b"MKR".to_vec()).unwrap();
    assert_eq!(t.name, "Maker");
    assert_eq!(t.symbol, "MKR");
}

#[test]
fn token_lists() {
    assert!(whitelist_contains(&"c02aaa39b223fe8d0a0e5c4f27ead9083c756cc2".to_string()));
    assert!(whitelist_contains(&"fe2e637202056d30016725477c5da089ab0a043a".to_string()));
    assert!(!whitelist_contains(&"4dd28568d05f09b02220b09c2cb307bfd837cb95".to_string()));
    assert!(stable_coins_contains(&"4dd28568d05f09b02220b09c2cb307bfd837cb95".to_string()));
    assert!(!stable_coins_contains(&"c02aaa39b223fe8d0a0e5c4f27ead9083c756cc2".to_string()));
}

#[test]
fn log_line_of_token() {
    let t = Erc20Token {
        address: "abc".to_string(),
        name: "Name".to_string(),
        symbol: "SYM".to_string(),
        decimals: 18,
        whitelist_pools: vec![],
    };
    assert_eq!(log_token(&t, 7), "token 7 addr: abc, name: Name, symbol: SYM, decimals: 18");
}
