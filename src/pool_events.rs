//! Swaps, mints and burns, tied to the pools they happened in.
use crate::events::{hex_of, hex_text, Block, BurnData, LogEntry, LogEvent, MintData, SwapData};
use crate::keyer::pool_key;
use crate::pool::Pool;
use crate::store::{lookup_last, VersionedStore, Write};
use vstd::prelude::*;

verus! {

pub enum EventKind {
    Swap(SwapData),
    Burn(BurnData),
    Mint(MintData),
}

pub ghost struct EventModel {
    pub log_ordinal: u64,
    pub pool_address: Seq<char>,
    pub token0: Seq<char>,
    pub token1: Seq<char>,
    pub fee: u32,
    pub transaction_id: Seq<char>,
    pub timestamp: u64,
    pub kind: EventKind,
}

/// A swap, mint or burn in a known pool.
pub struct Event {
    pub log_ordinal: u64,
    pub pool_address: String,
    pub token0: String,
    pub token1: String,
    pub fee: u32,
    pub transaction_id: String,
    pub timestamp: u64,
    pub kind: EventKind,
}

impl View for Event {
    type V = EventModel;

    open spec fn view(&self) -> EventModel {
        EventModel {
            log_ordinal: self.log_ordinal,
            pool_address: self.pool_address@,
            token0: self.token0@,
            token1: self.token1@,
            fee: self.fee,
            transaction_id: self.transaction_id@,
            timestamp: self.timestamp,
            kind: self.kind,
        }
    }
}

/// A swap, mint or burn names a pool that no earlier write registered: the
/// data of the block is inconsistent and its processing must stop.
pub struct MissingPool {
    pub pool_address: String,
    pub transaction_id: String,
}

pub open spec fn event_kind_of(e: LogEntry) -> Option<EventKind> {
    if e.reverted {
        None
    } else {
        match e.event {
            LogEvent::Swap(s) => Some(EventKind::Swap(s)),
            LogEvent::Mint(m) => Some(EventKind::Mint(m)),
            LogEvent::Burn(b) => Some(EventKind::Burn(b)),
            _ => None,
        }
    }
}

/// The events of `logs`, in order, or the pool address and transaction of
/// the first swap, mint or burn whose pool is not in `pools`.
pub open spec fn events_of(logs: Seq<LogEntry>, pools: Seq<Write<Pool>>, timestamp: u64) -> Result<
    Seq<EventModel>,
    (Seq<char>, Seq<char>),
>
    decreases logs.len(),
{
    if logs.len() == 0 {
        Ok(Seq::empty())
    } else {
        match events_of(logs.drop_last(), pools, timestamp) {
            Err(x) => Err(x),
            Ok(p) => {
                let e = logs.last();
                match event_kind_of(e) {
                    None => Ok(p),
                    Some(k) => match lookup_last(pools, "pool:"@ + hex_of(e.address@)) {
                        None => Err((hex_of(e.address@), hex_of(e.transaction_hash@))),
                        Some(pool) => Ok(
                            p.push(
                                EventModel {
                                    log_ordinal: e.ordinal,
                                    pool_address: pool.address@,
                                    token0: pool.token0.address@,
                                    token1: pool.token1.address@,
                                    fee: pool.fee,
                                    transaction_id: hex_of(e.transaction_hash@),
                                    timestamp,
                                    kind: k,
                                },
                            ),
                        ),
                    },
                }
            },
        }
    }
}

/// Once a prefix of the logs fails, the whole list fails the same way.
proof fn lemma_events_error_persists(
    logs: Seq<LogEntry>,
    pools: Seq<Write<Pool>>,
    timestamp: u64,
    k: int,
    n: int,
)
    requires
        0 <= k <= n <= logs.len(),
        events_of(logs.take(k), pools, timestamp) is Err,
    ensures
        events_of(logs.take(n), pools, timestamp) == events_of(logs.take(k), pools, timestamp),
    decreases n - k,
{
    if n > k {
        lemma_events_error_persists(logs, pools, timestamp, k, n - 1);
        assert(logs.take(n).drop_last() =~= logs.take(n - 1));
    }
}

/// The swaps, mints and burns of the block, each with the pool it names as
/// last registered in `pools_store`. A swap, mint or burn whose pool was
/// never registered fails the whole block.
pub fn map_burns_swaps_mints(block: &Block, pools_store: &VersionedStore<Pool>) -> (r: Result<
    Vec<Event>,
    MissingPool,
>)
    ensures
        match (r, events_of(block.logs@, pools_store@, block.timestamp)) {
            (Ok(v), Ok(s)) => v@.map_values(|x: Event| x@) == s,
            (Err(m), Err(x)) => m.pool_address@ == x.0 && m.transaction_id@ == x.1,
            _ => false,
        },
{
    let mut out: Vec<Event> = Vec::new();
    let mut i: usize = 0;
    proof {
        assert(block.logs@.take(0).len() == 0);
        assert(out@.map_values(|x: Event| x@) =~= Seq::<EventModel>::empty());
    }
    while i < block.logs.len()
        invariant
            i <= block.logs@.len(),
            events_of(block.logs@.take(i as int), pools_store@, block.timestamp) == Ok::<
                Seq<EventModel>,
                (Seq<char>, Seq<char>),
            >(out@.map_values(|x: Event| x@)),
        decreases block.logs@.len() - i,
    {
        let log = &block.logs[i];
        proof {
            assert(block.logs@.take(i + 1).drop_last() =~= block.logs@.take(i as int));
            assert(block.logs@.take(i + 1).last() == block.logs@[i as int]);
        }
        let kind: Option<EventKind> = if log.reverted {
            None
        } else {
            match &log.event {
                LogEvent::Swap(s) => Some(EventKind::Swap(s.duplicate())),
                LogEvent::Mint(m) => Some(EventKind::Mint(m.duplicate())),
                LogEvent::Burn(b) => Some(EventKind::Burn(b.duplicate())),
                _ => None,
            }
        };
        match kind {
            None => {},
            Some(kind) => {
                let address = hex_text(&log.address);
                let key = pool_key(&address);
                match pools_store.get_last(&key) {
                    None => {
                        proof {
                            lemma_events_error_persists(
                                block.logs@,
                                pools_store@,
                                block.timestamp,
                                i + 1,
                                block.logs@.len() as int,
                            );
                            assert(block.logs@.take(block.logs@.len() as int) =~= block.logs@);
                        }
                        return Err(
                            MissingPool {
                                pool_address: address,
                                transaction_id: hex_text(&log.transaction_hash),
                            },
                        );
                    },
                    Some(pool) => {
                        let item = Event {
                            log_ordinal: log.ordinal,
                            pool_address: pool.address.clone(),
                            token0: pool.token0.address.clone(),
                            token1: pool.token1.address.clone(),
                            fee: pool.fee,
                            transaction_id: hex_text(&log.transaction_hash),
                            timestamp: block.timestamp,
                            kind,
                        };
                        let ghost prev = out@;
                        out.push(item);
                        proof {
                            assert(out@.map_values(|x: Event| x@) =~= prev.map_values(|x: Event| x@).push(
                                item@,
                            ));
                        }
                    },
                }
            },
        }
        i = i + 1;
    }
    proof {
        assert(block.logs@.take(block.logs@.len() as int) =~= block.logs@);
    }
    Ok(out)
}

} // verus!
