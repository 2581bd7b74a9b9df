//! Tokens: the ERC-20 record, the fixed token lists, the override table for
//! contracts that do not answer the standard calls, and the rule that builds a
//! token from what the chain answered.
use crate::abi::utf8_lossy_of;
use crate::text::{copy_texts, nat_text, text_is, u64_text};
use vstd::prelude::*;

verus! {

pub const WETH_ADDRESS: &'static str = "c02aaa39b223fe8d0a0e5c4f27ead9083c756cc2";
pub const USDC_ADDRESS: &'static str = "a0b86991c6218b36c1d19d4a2e9eb0ce3606eb48";

pub struct Erc20Token {
    /// Hex text of the 20-byte address, lower case, without `0x`.
    pub address: String,
    pub name: String,
    pub symbol: String,
    pub decimals: u64,
    /// Addresses of the pools, in order of creation, through which this token is priced.
    pub whitelist_pools: Vec<String>,
}

pub ghost struct TokenModel {
    pub address: Seq<char>,
    pub name: Seq<char>,
    pub symbol: Seq<char>,
    pub decimals: u64,
    pub whitelist_pools: Seq<Seq<char>>,
}

impl View for Erc20Token {
    type V = TokenModel;

    open spec fn view(&self) -> TokenModel {
        TokenModel {
            address: self.address@,
            name: self.name@,
            symbol: self.symbol@,
            decimals: self.decimals,
            whitelist_pools: self.whitelist_pools@.map_values(|p: String| p@),
        }
    }
}

impl Erc20Token {
    pub fn duplicate(&self) -> (r: Erc20Token)
        ensures
            r@ == self@,
    {
        let r = Erc20Token {
            address: self.address.clone(),
            name: self.name.clone(),
            symbol: self.symbol.clone(),
            decimals: self.decimals,
            whitelist_pools: copy_texts(&self.whitelist_pools),
        };
        proof {
            assert(r.whitelist_pools@ == self.whitelist_pools@);
        }
        r
    }
}

/// The tokens through whose pools prices are derived.
pub open spec fn is_whitelist_token(a: Seq<char>) -> bool {
    ||| a == "c02aaa39b223fe8d0a0e5c4f27ead9083c756cc2"@
    ||| a == "6b175474e89094c44da98b954eedeac495271d0f"@
    ||| a == "a0b86991c6218b36c1d19d4a2e9eb0ce3606eb48"@
    ||| a == "dac17f958d2ee523a2206206994597c13d831ec7"@
    ||| a == "0000000000085d4780b73119b644ae5ecd22b376"@
    ||| a == "2260fac5e5542a773aa44fbcfedf7c193bc2c599"@
    ||| a == "5d3a536e4d6dbd6114cc1ead35777bab948e3643"@
    ||| a == "39aa39c021dfbae8fac545936693ac917d5e7563"@
    ||| a == "86fadb80d8d2cff3c3680819e4da99c10232ba0f"@
    ||| a == "57ab1ec28d129707052df4df418d58a2d46d5f51"@
    ||| a == "9f8f72aa9304c8b593d555f12ef6589cc3a579a2"@
    ||| a == "c00e94cb662c3520282e6f5717214004a7f26888"@
    ||| a == "514910771af9ca656af840dff83e8264ecf986ca"@
    ||| a == "c011a73ee8576fb46f5e1c5751ca3b9fe0af2a6f"@
    ||| a == "0bc529c00c6401aef6d220be8c6ea1667f6ad93e"@
    ||| a == "111111111117dc0aa78b770fa6a738034120c302"@
    ||| a == "df5e0e81dff6faf3a7e52ba697820c5e32d806a8"@
    ||| a == "956f47f50a910163d8bf957cf5846d573e7f87ca"@
    ||| a == "7d1afa7b718fb893db30a3abc0cfc608aacfebb0"@
    ||| a == "7fc66500c84a76ad7e9c93437bfc5ac33e2ddae9"@
    ||| a == "fe2e637202056d30016725477c5da089ab0a043a"@
}

/// Whether `a` is one of the tokens through whose pools prices are derived.
pub fn whitelist_contains(a: &String) -> (r: bool)
    ensures
        r == is_whitelist_token(a@),
{
    text_is(a, "c02aaa39b223fe8d0a0e5c4f27ead9083c756cc2") // WETH
        || text_is(a, "6b175474e89094c44da98b954eedeac495271d0f") // DAI
        || text_is(a, "a0b86991c6218b36c1d19d4a2e9eb0ce3606eb48") // USDC
        || text_is(a, "dac17f958d2ee523a2206206994597c13d831ec7") // USDT
        || text_is(a, "0000000000085d4780b73119b644ae5ecd22b376") // TUSD
        || text_is(a, "2260fac5e5542a773aa44fbcfedf7c193bc2c599") // WBTC
        || text_is(a, "5d3a536e4d6dbd6114cc1ead35777bab948e3643") // cDAI
        || text_is(a, "39aa39c021dfbae8fac545936693ac917d5e7563") // cUSDC
        || text_is(a, "86fadb80d8d2cff3c3680819e4da99c10232ba0f") // EBASE
        || text_is(a, "57ab1ec28d129707052df4df418d58a2d46d5f51") // sUSD
        || text_is(a, "9f8f72aa9304c8b593d555f12ef6589cc3a579a2") // MKR
        || text_is(a, "c00e94cb662c3520282e6f5717214004a7f26888") // COMP
        || text_is(a, "514910771af9ca656af840dff83e8264ecf986ca") // LINK
        || text_is(a, "c011a73ee8576fb46f5e1c5751ca3b9fe0af2a6f") // SNX
        || text_is(a, "0bc529c00c6401aef6d220be8c6ea1667f6ad93e") // YFI
        || text_is(a, "111111111117dc0aa78b770fa6a738034120c302") // 1INCH
        || text_is(a, "df5e0e81dff6faf3a7e52ba697820c5e32d806a8") // yCurv
        || text_is(a, "956f47f50a910163d8bf957cf5846d573e7f87ca") // FEI
        || text_is(a, "7d1afa7b718fb893db30a3abc0cfc608aacfebb0") // MATIC
        || text_is(a, "7fc66500c84a76ad7e9c93437bfc5ac33e2ddae9") // AAVE
        || text_is(a, "fe2e637202056d30016725477c5da089ab0a043a") // sETH2
}

/// The dollar-pegged tokens.
pub open spec fn is_stable_coin(a: Seq<char>) -> bool {
    ||| a == "6b175474e89094c44da98b954eedeac495271d0f"@
    ||| a == "a0b86991c6218b36c1d19d4a2e9eb0ce3606eb48"@
    ||| a == "dac17f958d2ee523a2206206994597c13d831ec7"@
    ||| a == "0000000000085d4780b73119b644ae5ecd22b376"@
    ||| a == "956f47f50a910163d8bf957cf5846d573e7f87ca"@
    ||| a == "4dd28568d05f09b02220b09c2cb307bfd837cb95"@
}

/// Whether `a` is one of the dollar-pegged tokens.
pub fn stable_coins_contains(a: &String) -> (r: bool)
    ensures
        r == is_stable_coin(a@),
{
    text_is(a, "6b175474e89094c44da98b954eedeac495271d0f")
        || text_is(a, "a0b86991c6218b36c1d19d4a2e9eb0ce3606eb48")
        || text_is(a, "dac17f958d2ee523a2206206994597c13d831ec7")
        || text_is(a, "0000000000085d4780b73119b644ae5ecd22b376")
        || text_is(a, "956f47f50a910163d8bf957cf5846d573e7f87ca")
        || text_is(a, "4dd28568d05f09b02220b09c2cb307bfd837cb95")
}

/// Name, symbol and decimals of the tokens whose contracts do not answer the
/// standard calls (some were moved to new addresses).
pub open spec fn static_token_info(a: Seq<char>) -> Option<(Seq<char>, Seq<char>, u64)> {
    if a == "e0b7927c4af23765cb51314a0e0521a9645f0e2a"@ {
        Some(("DGD"@, "DGD"@, 9))
    } else if a == "7fc66500c84a76ad7e9c93437bfc5ac33e2ddae9"@ {
        Some(("Aave Token"@, "AAVE"@, 18))
    } else if a == "eb9951021698b42e4399f9cbb6267aa35f82d59d"@ {
        Some(("LIF"@, "LIF"@, 18))
    } else if a == "bdeb4b83251fb146687fa19d1c660f99411eefe3"@ {
        Some(("savedroid"@, "SVD"@, 18))
    } else if a == "bb9bc244d798123fde783fcc1c72d3bb8c189413"@ {
        Some(("TheDAO"@, "TheDAO"@, 16))
    } else if a == "38c6a68304cdefb9bec48bbfaaba5c5b47818bb2"@ {
        Some(("HPBCoin"@, "HPB"@, 18))
    } else {
        None
    }
}

fn static_token(address: &String, name: &str, symbol: &str, decimals: u64) -> (r: Erc20Token)
    ensures
        r.address@ == address@,
        r.name@ == name@,
        r.symbol@ == symbol@,
        r.decimals == decimals,
        r.whitelist_pools@.len() == 0,
{
    Erc20Token {
        address: address.clone(),
        name: String::from_str(name),
        symbol: String::from_str(symbol),
        decimals,
        whitelist_pools: Vec::new(),
    }
}

/// The override record of a token whose contract does not answer the standard calls.
pub fn get_static_uniswap_tokens(token_address: &String) -> (r: Option<Erc20Token>)
    ensures
        r is Some <==> static_token_info(token_address@) is Some,
        r matches Some(t) ==> {
            let info = static_token_info(token_address@)->Some_0;
            &&& t.address@ == token_address@
            &&& t.name@ == info.0
            &&& t.symbol@ == info.1
            &&& t.decimals == info.2
            &&& t.whitelist_pools@.len() == 0
        },
{
    if text_is(token_address, "e0b7927c4af23765cb51314a0e0521a9645f0e2a") {
        Some(static_token(token_address, "DGD", "DGD", 9))
    } else if text_is(token_address, "7fc66500c84a76ad7e9c93437bfc5ac33e2ddae9") {
        Some(static_token(token_address, "Aave Token", "AAVE", 18))
    } else if text_is(token_address, "eb9951021698b42e4399f9cbb6267aa35f82d59d") {
        Some(static_token(token_address, "LIF", "LIF", 18))
    } else if text_is(token_address, "bdeb4b83251fb146687fa19d1c660f99411eefe3") {
        Some(static_token(token_address, "savedroid", "SVD", 18))
    } else if text_is(token_address, "bb9bc244d798123fde783fcc1c72d3bb8c189413") {
        Some(static_token(token_address, "TheDAO", "TheDAO", 16))
    } else if text_is(token_address, "38c6a68304cdefb9bec48bbfaaba5c5b47818bb2") {
        Some(static_token(token_address, "HPBCoin", "HPB", 18))
    } else {
        None
    }
}


/// The field of a token as the chain answered it, else as the override table gives it.
pub open spec fn resolved_field<T>(answer: Option<T>, fallback: Option<T>, default: T) -> T {
    match answer {
        Some(v) => v,
        None => match fallback {
            Some(f) => f,
            None => default,
        },
    }
}

pub open spec fn answer_text(a: Option<String>) -> Option<Seq<char>> {
    match a {
        Some(s) => Some(s@),
        None => None,
    }
}

/// The override name (`which == 0`) or symbol (otherwise) of a token.
pub open spec fn static_text(a: Seq<char>, which: int) -> Option<Seq<char>> {
    match static_token_info(a) {
        Some(i) => Some(if which == 0 { i.0 } else { i.1 }),
        None => None,
    }
}

/// The override decimals of a token.
pub open spec fn static_decimals(a: Seq<char>) -> Option<u64> {
    match static_token_info(a) {
        Some(i) => Some(i.2),
        None => None,
    }
}

/// The bytes of a `bytes32` answer read as a text: those of its first word
/// (or of the whole answer, if shorter) before the first zero byte.
pub open spec fn bytes32_text(raw: Seq<u8>) -> Seq<u8> {
    let w = if raw.len() < 32 { raw } else { raw.take(32) };
    let k = choose|k: int| 0 <= k <= w.len() && (k == w.len() || w[k] == 0) && (forall|i: int| 0 <= i < k ==> w[i] != 0);
    w.take(k)
}

/// Relies on `String::from_utf8_lossy`: the text of the bytes, invalid
/// sequences replaced.
#[verifier::external_body]
fn lossy_text(b: &Vec<u8>) -> (r: String)
    ensures
        r@ == utf8_lossy_of(b@),
{
    String::from_utf8_lossy(b).into_owned()
}

/// The text of an answer that is not an ABI string, read as a `bytes32`.
pub fn read_string_from_bytes(raw: &Vec<u8>) -> (r: String)
    ensures
        r@ == utf8_lossy_of(bytes32_text(raw@)),
{
    let n: usize = if raw.len() < 32 { raw.len() } else { 32 };
    let ghost w = if raw@.len() < 32 { raw@ } else { raw@.take(32) };
    let mut out: Vec<u8> = Vec::new();
    let mut i: usize = 0;
    while i < n && raw[i] != 0
        invariant
            n == w.len(),
            n <= raw@.len(),
            w == raw@.take(n as int),
            i <= n,
            out@ == w.take(i as int),
            forall|j: int| 0 <= j < i ==> w[j] != 0,
        decreases n - i,
    {
        out.push(raw[i]);
        proof {
            assert(w.take(i + 1) =~= w.take(i as int).push(w[i as int]));
        }
        i = i + 1;
    }
    proof {
        let k = choose|k: int| 0 <= k <= w.len() && (k == w.len() || w[k] == 0) && (forall|j: int| 0 <= j < k ==> w[j] != 0);
        assert(0 <= i <= w.len() && (i == w.len() || w[i as int] == 0) && (forall|j: int| 0 <= j < i ==> w[j] != 0));
        if k < i {
            assert(w[k] != 0);
        } else if k > i {
            assert(w[i as int] != 0);
        }
        assert(k == i);
    }
    lossy_text(&out)
}

/// Builds the record of the token at `token_address` from the answers of its
/// contract to `decimals()`, `name()` and `symbol()` (`None` where a call did
/// not give an ABI answer; `raw_name` and `raw_symbol` are the raw answers).
/// A missing answer is taken from the override table; without decimals from
/// either, the address is not a token and there is no record. A missing name
/// or symbol with no override is read from the raw answer as a `bytes32`.
pub fn create_uniswap_token(
    token_address: &String,
    decimals: Option<u64>,
    name: Option<String>,
    symbol: Option<String>,
    raw_name: &Vec<u8>,
    raw_symbol: &Vec<u8>,
) -> (r: Option<Erc20Token>)
    ensures
        r is Some <==> (decimals is Some || static_token_info(token_address@) is Some),
        r matches Some(t) ==> {
            &&& t.address@ == token_address@
            &&& t.decimals == resolved_field(decimals, static_decimals(token_address@), 0)
            &&& t.name@ == resolved_field(
                answer_text(name),
                static_text(token_address@, 0),
                utf8_lossy_of(bytes32_text(raw_name@)),
            )
            &&& t.symbol@ == resolved_field(
                answer_text(symbol),
                static_text(token_address@, 1),
                utf8_lossy_of(bytes32_text(raw_symbol@)),
            )
            &&& t.whitelist_pools@.len() == 0
        },
{
    let fallback = get_static_uniswap_tokens(token_address);
    let decimals = match decimals {
        Some(d) => d,
        None => match &fallback {
            Some(t) => t.decimals,
            None => {
                return None;
            },
        },
    };
    let name = match name {
        Some(n) => n,
        None => match &fallback {
            Some(t) => t.name.clone(),
            None => read_string_from_bytes(raw_name),
        },
    };
    let symbol = match symbol {
        Some(s) => s,
        None => match &fallback {
            Some(t) => t.symbol.clone(),
            None => read_string_from_bytes(raw_symbol),
        },
    };
    Some(Erc20Token { address: token_address.clone(), name, symbol, decimals, whitelist_pools: Vec::new() })
}

/// The log line describing a token: `token {index} addr: {address}, name:
/// {name}, symbol: {symbol}, decimals: {decimals}`.
pub open spec fn token_line(token: &Erc20Token, index: u64) -> Seq<char> {
    "token "@ + nat_text(index as nat) + " addr: "@ + token.address@ + ", name: "@ + token.name@
        + ", symbol: "@ + token.symbol@ + ", decimals: "@ + nat_text(token.decimals as nat)
}

/// The log line describing a token.
pub fn log_token(token: &Erc20Token, index: u64) -> (r: String)
    ensures
        r@ == token_line(token, index),
{
    let mut s = String::from_str("token ");
    s.append(u64_text(index).as_str());
    s.append(" addr: ");
    s.append(token.address.as_str());
    s.append(", name: ");
    s.append(token.name.as_str());
    s.append(", symbol: ");
    s.append(token.symbol.as_str());
    s.append(", decimals: ");
    s.append(u64_text(token.decimals).as_str());
    s
}

} // verus!
