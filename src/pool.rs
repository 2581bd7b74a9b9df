//! Pools and the registry that creates them.
use crate::events::{hex_of, hex_text, Block, LogEntry, LogEvent, UNISWAP_V3_FACTORY};
use crate::text::text_is;
use crate::tokens::{is_whitelist_token, whitelist_contains, Erc20Token, TokenModel};
use vstd::prelude::*;

verus! {

pub ghost struct PoolModel {
    pub address: Seq<char>,
    pub token0: TokenModel,
    pub token1: TokenModel,
    pub creation_transaction_id: Seq<char>,
    pub fee: u32,
    pub block_num: u64,
    pub log_ordinal: u64,
    pub tick_spacing: i32,
}

pub struct Pool {
    /// Hex text of the pool's address.
    pub address: String,
    /// The two tokens as they were when the pool was created.
    pub token0: Erc20Token,
    pub token1: Erc20Token,
    pub creation_transaction_id: String,
    pub fee: u32,
    pub block_num: u64,
    pub log_ordinal: u64,
    pub tick_spacing: i32,
}

impl View for Pool {
    type V = PoolModel;

    open spec fn view(&self) -> PoolModel {
        PoolModel {
            address: self.address@,
            token0: self.token0@,
            token1: self.token1@,
            creation_transaction_id: self.creation_transaction_id@,
            fee: self.fee,
            block_num: self.block_num,
            log_ordinal: self.log_ordinal,
            tick_spacing: self.tick_spacing,
        }
    }
}

impl Pool {
    pub fn duplicate(&self) -> (r: Pool)
        ensures
            r@ == self@,
    {
        Pool {
            address: self.address.clone(),
            token0: self.token0.duplicate(),
            token1: self.token1.duplicate(),
            creation_transaction_id: self.creation_transaction_id.clone(),
            fee: self.fee,
            block_num: self.block_num,
            log_ordinal: self.log_ordinal,
            tick_spacing: self.tick_spacing,
        }
    }
}

/// What the chain answered for a token address: its record, or `None` where
/// it is not a token.
pub struct TokenResolution {
    pub address: String,
    pub token: Option<Erc20Token>,
}

/// The answer for address `a` in `res` (the last one given), `None` where
/// there is none, or where the record given is not a fresh record of `a`
/// (another address, or pools already listed).
pub open spec fn resolved(res: Seq<TokenResolution>, a: Seq<char>) -> Option<TokenModel>
    decreases res.len(),
{
    if res.len() == 0 {
        None
    } else if res.last().address@ == a {
        match res.last().token {
            Some(t) => if t@.address == a && t@.whitelist_pools.len() == 0 {
                Some(t@)
            } else {
                None
            },
            None => None,
        }
    } else {
        resolved(res.drop_last(), a)
    }
}

/// The latest record of address `a` among the tokens registered so far.
pub open spec fn known_token(tokens: Seq<TokenModel>, a: Seq<char>) -> Option<TokenModel>
    decreases tokens.len(),
{
    if tokens.len() == 0 {
        None
    } else if tokens.last().address == a {
        Some(tokens.last())
    } else {
        known_token(tokens.drop_last(), a)
    }
}

/// A token already registered in this pass is taken as it is; any other is resolved.
pub open spec fn candidate(tokens: Seq<TokenModel>, res: Seq<TokenResolution>, a: Seq<char>) -> Option<
    TokenModel,
> {
    match known_token(tokens, a) {
        Some(t) => Some(t),
        None => resolved(res, a),
    }
}

/// The token after pool `pool` was created with it: a whitelisted token lists
/// the pool, once.
pub open spec fn with_pool(t: TokenModel, pool: Seq<char>) -> TokenModel {
    if is_whitelist_token(t.address) && !t.whitelist_pools.contains(pool) {
        TokenModel { whitelist_pools: t.whitelist_pools.push(pool), ..t }
    } else {
        t
    }
}

pub open spec fn is_pool_creation(e: LogEntry) -> bool {
    &&& !e.reverted
    &&& hex_of(e.address@) == UNISWAP_V3_FACTORY@
    &&& e.event is PoolCreated
}

/// One log applied to the pools and tokens registered so far. A pool whose
/// two tokens are known or resolve is registered, each token listing it where
/// whitelisted; where either token does not resolve, nothing changes.
pub open spec fn creation_step(
    state: (Seq<PoolModel>, Seq<TokenModel>),
    res: Seq<TokenResolution>,
    block_number: u64,
    e: LogEntry,
) -> (Seq<PoolModel>, Seq<TokenModel>) {
    match e.event {
        LogEvent::PoolCreated { token0, token1, fee, tick_spacing, pool } => {
            let a0 = hex_of(token0@);
            let a1 = hex_of(token1@);
            let pa = hex_of(pool@);
            if !is_pool_creation(e) {
                state
            } else {
                match (candidate(state.1, res, a0), candidate(state.1, res, a1)) {
                    (Some(t0), Some(_)) => {
                        let n0 = with_pool(t0, pa);
                        let tokens1 = state.1.push(n0);
                        let n1 = with_pool(candidate(tokens1, res, a1)->Some_0, pa);
                        (
                            state.0.push(
                                PoolModel {
                                    address: pa,
                                    token0: n0,
                                    token1: n1,
                                    creation_transaction_id: hex_of(e.transaction_hash@),
                                    fee,
                                    block_num: block_number,
                                    log_ordinal: e.ordinal,
                                    tick_spacing,
                                },
                            ),
                            tokens1.push(n1),
                        )
                    },
                    _ => state,
                }
            }
        },
        _ => state,
    }
}

pub open spec fn creations(logs: Seq<LogEntry>, res: Seq<TokenResolution>, block_number: u64) -> (
    Seq<PoolModel>,
    Seq<TokenModel>,
)
    decreases logs.len(),
{
    if logs.len() == 0 {
        (Seq::empty(), Seq::empty())
    } else {
        creation_step(creations(logs.drop_last(), res, block_number), res, block_number, logs.last())
    }
}

fn resolve(res: &Vec<TokenResolution>, a: &String) -> (r: Option<Erc20Token>)
    ensures
        r matches Some(t) ==> resolved(res@, a@) == Some(t@),
        r is None ==> resolved(res@, a@) is None,
{
    let mut i = res.len();
    proof {
        assert(res@.take(i as int) =~= res@);
    }
    while i > 0
        invariant
            i <= res@.len(),
            resolved(res@, a@) == resolved(res@.take(i as int), a@),
        decreases i,
    {
        proof {
            assert(res@.take(i as int).drop_last() =~= res@.take(i - 1));
            assert(res@.take(i as int).last() == res@[i - 1]);
        }
        let entry = &res[i - 1];
        if entry.address == *a {
            return match &entry.token {
                Some(t) => if t.address == *a && t.whitelist_pools.len() == 0 {
                    Some(t.duplicate())
                } else {
                    None
                },
                None => None,
            };
        }
        i = i - 1;
    }
    proof {
        assert(res@.take(0).len() == 0);
    }
    None
}

pub open spec fn token_models(tokens: Seq<Erc20Token>) -> Seq<TokenModel> {
    tokens.map_values(|t: Erc20Token| t@)
}

pub open spec fn pool_models(pools: Seq<Pool>) -> Seq<PoolModel> {
    pools.map_values(|p: Pool| p@)
}

fn candidate_token(tokens: &Vec<Erc20Token>, res: &Vec<TokenResolution>, a: &String) -> (r: Option<
    Erc20Token,
>)
    ensures
        r matches Some(t) ==> candidate(token_models(tokens@), res@, a@) == Some(t@),
        r is None ==> candidate(token_models(tokens@), res@, a@) is None,
{
    let ghost models = token_models(tokens@);
    let mut i = tokens.len();
    proof {
        assert(models.take(i as int) =~= models);
    }
    while i > 0
        invariant
            i <= tokens@.len(),
            models == token_models(tokens@),
            known_token(models, a@) == known_token(models.take(i as int), a@),
        decreases i,
    {
        proof {
            assert(models.take(i as int).drop_last() =~= models.take(i - 1));
            assert(models.take(i as int).last() == tokens@[i - 1]@);
        }
        let t = &tokens[i - 1];
        if t.address == *a {
            return Some(t.duplicate());
        }
        i = i - 1;
    }
    proof {
        assert(models.take(0).len() == 0);
    }
    resolve(res, a)
}

fn add_pool(t: Erc20Token, pool: &String) -> (r: Erc20Token)
    ensures
        r@ == with_pool(t@, pool@),
{
    let mut t = t;
    if whitelist_contains(&t.address) {
        push_new(&mut t.whitelist_pools, pool.clone());
    }
    t
}

/// The pools created by the factory in the block, in order. `resolutions`
/// holds what the chain answered for token addresses; a token is taken from
/// there the first time this pass meets it and from the pass's own records
/// after. A pool is registered only where both its tokens are tokens; its
/// records of them list it where they are whitelisted.
pub fn map_pools_created(block: &Block, resolutions: &Vec<TokenResolution>) -> (r: Vec<Pool>)
    ensures
        pool_models(r@) == creations(block.logs@, resolutions@, block.number).0,
{
    let mut pools: Vec<Pool> = Vec::new();
    let mut tokens: Vec<Erc20Token> = Vec::new();
    let mut i: usize = 0;
    proof {
        assert(pool_models(pools@) =~= Seq::<PoolModel>::empty());
        assert(token_models(tokens@) =~= Seq::<TokenModel>::empty());
        assert(block.logs@.take(0).len() == 0);
    }
    while i < block.logs.len()
        invariant
            i <= block.logs@.len(),
            (pool_models(pools@), token_models(tokens@)) == creations(
                block.logs@.take(i as int),
                resolutions@,
                block.number,
            ),
        decreases block.logs@.len() - i,
    {
        proof {
            assert(block.logs@.take(i + 1).drop_last() =~= block.logs@.take(i as int));
            assert(block.logs@.take(i + 1).last() == block.logs@[i as int]);
        }
        let log = &block.logs[i];
        match &log.event {
            LogEvent::PoolCreated { token0, token1, fee, tick_spacing, pool } => {
                let emitter = hex_text(&log.address);
                if !log.reverted && text_is(&emitter, UNISWAP_V3_FACTORY) {
                    let a0 = hex_text(token0);
                    let a1 = hex_text(token1);
                    let pa = hex_text(pool);
                    let c0 = candidate_token(&tokens, resolutions, &a0);
                    let c1 = candidate_token(&tokens, resolutions, &a1);
                    match (c0, c1) {
                        (Some(t0), Some(_)) => {
                            let n0 = add_pool(t0, &pa);
                            let ghost before = tokens@;
                            tokens.push(n0.duplicate());
                            proof {
                                assert(token_models(tokens@) =~= token_models(before).push(n0@));
                            }
                            let c1b = candidate_token(&tokens, resolutions, &a1);
                            proof {
                                let m = token_models(tokens@);
                                assert(m.drop_last() =~= token_models(before));
                                assert(m.last() == n0@);
                            }
                            let t1 = match c1b {
                                Some(t) => t,
                                None => {
                                    return pools;
                                },
                            };
                            let n1 = add_pool(t1, &pa);
                            let ghost mid = tokens@;
                            tokens.push(n1.duplicate());
                            proof {
                                assert(token_models(tokens@) =~= token_models(mid).push(n1@));
                            }
                            let item = Pool {
                                address: pa,
                                token0: n0,
                                token1: n1,
                                creation_transaction_id: hex_text(&log.transaction_hash),
                                fee: *fee,
                                block_num: block.number,
                                log_ordinal: log.ordinal,
                                tick_spacing: *tick_spacing,
                            };
                            let ghost prev = pools@;
                            pools.push(item);
                            proof {
                                assert(pool_models(pools@) =~= pool_models(prev).push(item@));
                            }
                        },
                        _ => {},
                    }
                }
            },
            _ => {},
        }
        i = i + 1;
    }
    proof {
        assert(block.logs@.take(block.logs@.len() as int) =~= block.logs@);
    }
    pools
}

/// A pool whose token1 does not resolve leaves everything as it was: no pool,
/// no record of either token, no whitelist entry.
pub proof fn lemma_partial_pool_rejected(
    state: (Seq<PoolModel>, Seq<TokenModel>),
    res: Seq<TokenResolution>,
    block_number: u64,
    e: LogEntry,
)
    requires
        e.event matches LogEvent::PoolCreated { token1, .. } && candidate(
            state.1,
            res,
            hex_of(token1@),
        ) is None,
    ensures
        creation_step(state, res, block_number, e) == state,
{
}

/// A pool creation whose token1 does not resolve, after any logs of a block,
/// leaves the pools and token records of the pass as they were: no pool, no
/// record of either token, no whitelist entry.
pub proof fn lemma_rejected_pool_leaves_registry(
    logs: Seq<LogEntry>,
    res: Seq<TokenResolution>,
    block_number: u64,
    e: LogEntry,
)
    requires
        e.event matches LogEvent::PoolCreated { token1, .. } && candidate(
            creations(logs, res, block_number).1,
            res,
            hex_of(token1@),
        ) is None,
    ensures
        creations(logs.push(e), res, block_number) == creations(logs, res, block_number),
{
    assert(logs.push(e).drop_last() =~= logs);
    lemma_partial_pool_rejected(creations(logs, res, block_number), res, block_number, e);
}

/// Listing a pool never repeats an entry of the whitelist list.
pub proof fn lemma_with_pool_no_duplicates(t: TokenModel, pool: Seq<char>)
    requires
        t.whitelist_pools.no_duplicates(),
    ensures
        with_pool(t, pool).whitelist_pools.no_duplicates(),
        is_whitelist_token(t.address) ==> with_pool(t, pool).whitelist_pools.contains(pool),
        !is_whitelist_token(t.address) ==> with_pool(t, pool) == t,
{
    if is_whitelist_token(t.address) && !t.whitelist_pools.contains(pool) {
        let l = t.whitelist_pools.push(pool);
        assert(l[l.len() - 1] == pool);
        assert forall|i: int, j: int| 0 <= i < l.len() && 0 <= j < l.len() && i != j implies l[i] != l[j] by {
            if i < l.len() - 1 && j < l.len() - 1 {
                assert(l[i] == t.whitelist_pools[i]);
                assert(l[j] == t.whitelist_pools[j]);
            } else if i == l.len() - 1 {
                assert(l[j] == t.whitelist_pools[j]);
            } else {
                assert(l[i] == t.whitelist_pools[i]);
            }
        }
    }
}

/// The token addresses of the pool creations of `logs` not met before, in order.
pub open spec fn addresses_to_resolve(logs: Seq<LogEntry>) -> Seq<Seq<char>>
    decreases logs.len(),
{
    if logs.len() == 0 {
        Seq::empty()
    } else {
        let before = addresses_to_resolve(logs.drop_last());
        let e = logs.last();
        match e.event {
            LogEvent::PoolCreated { token0, token1, .. } => if is_pool_creation(e) {
                let a0 = hex_of(token0@);
                let a1 = hex_of(token1@);
                let with0 = if before.contains(a0) {
                    before
                } else {
                    before.push(a0)
                };
                if with0.contains(a1) {
                    with0
                } else {
                    with0.push(a1)
                }
            } else {
                before
            },
            _ => before,
        }
    }
}

fn push_new(list: &mut Vec<String>, a: String)
    ensures
        final(list)@.map_values(|s: String| s@) == if old(list)@.map_values(|s: String| s@).contains(a@) {
            old(list)@.map_values(|s: String| s@)
        } else {
            old(list)@.map_values(|s: String| s@).push(a@)
        },
{
    let ghost views = list@.map_values(|s: String| s@);
    let mut i: usize = 0;
    while i < list.len()
        invariant
            i <= list@.len(),
            views == list@.map_values(|s: String| s@),
            forall|j: int| 0 <= j < i ==> views[j] != a@,
        decreases list@.len() - i,
    {
        if list[i] == a {
            proof {
                assert(views[i as int] == a@);
            }
            return;
        }
        i = i + 1;
    }
    proof {
        assert(!views.contains(a@));
    }
    let ghost before = list@;
    list.push(a);
    proof {
        assert(list@.map_values(|s: String| s@) =~= before.map_values(|s: String| s@).push(a@));
    }
}

/// The addresses of the tokens of the block's pool creations, each once, in
/// order: what must be resolved before `map_pools_created`.
pub fn pool_created_token_addresses(block: &Block) -> (r: Vec<String>)
    ensures
        r@.map_values(|s: String| s@) == addresses_to_resolve(block.logs@),
{
    let mut out: Vec<String> = Vec::new();
    let mut i: usize = 0;
    proof {
        assert(out@.map_values(|s: String| s@) =~= Seq::<Seq<char>>::empty());
        assert(block.logs@.take(0).len() == 0);
    }
    while i < block.logs.len()
        invariant
            i <= block.logs@.len(),
            out@.map_values(|s: String| s@) == addresses_to_resolve(block.logs@.take(i as int)),
        decreases block.logs@.len() - i,
    {
        proof {
            assert(block.logs@.take(i + 1).drop_last() =~= block.logs@.take(i as int));
            assert(block.logs@.take(i + 1).last() == block.logs@[i as int]);
        }
        let log = &block.logs[i];
        match &log.event {
            LogEvent::PoolCreated { token0, token1, .. } => {
                let emitter = hex_text(&log.address);
                if !log.reverted && text_is(&emitter, UNISWAP_V3_FACTORY) {
                    push_new(&mut out, hex_text(token0));
                    push_new(&mut out, hex_text(token1));
                }
            },
            _ => {},
        }
        i = i + 1;
    }
    proof {
        assert(block.logs@.take(block.logs@.len() as int) =~= block.logs@);
    }
    out
}

} // verus!
