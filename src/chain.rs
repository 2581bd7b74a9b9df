//! Records read from a transaction trace: the transaction itself and the
//! liquidity slot of a pool's storage.
use crate::events::{hex_of, hex_text};
use crate::text::nat_text;
use vstd::prelude::*;

verus! {

/// Value of bytes read as an unsigned big-endian integer.
pub open spec fn be_value(b: Seq<u8>) -> nat
    decreases b.len(),
{
    if b.len() == 0 {
        0
    } else {
        be_value(b.drop_last()) * 256 + b.last() as nat
    }
}

/// Relies on `num_bigint::BigUint::from_bytes_be` and its `Display`: the
/// decimal text, without leading zeros, of the big-endian unsigned integer.
#[verifier::external_body]
pub(crate) fn unsigned_be_text(b: &Vec<u8>) -> (r: String)
    ensures
        r@ == nat_text(be_value(b@)),
{
    num_bigint::BigUint::from_bytes_be(b).to_string()
}

pub struct TransactionTrace {
    pub hash: Vec<u8>,
    pub gas_used: u64,
    /// Big-endian bytes of the gas price, where the trace has one.
    pub gas_price: Option<Vec<u8>>,
}

pub struct Transaction {
    pub id: String,
    pub block_number: u64,
    pub timestamp: u64,
    pub gas_used: u64,
    /// Decimal text of the gas price, `0` where the trace has none.
    pub gas_price: String,
    pub log_ordinal: u64,
}

/// The transaction of a trace.
pub fn load_transaction(
    block_number: u64,
    timestamp: u64,
    log_ordinal: u64,
    transaction_trace: &TransactionTrace,
) -> (r: Transaction)
    ensures
        r.id@ == hex_of(transaction_trace.hash@),
        r.block_number == block_number,
        r.timestamp == timestamp,
        r.gas_used == transaction_trace.gas_used,
        r.log_ordinal == log_ordinal,
        r.gas_price@ == match transaction_trace.gas_price {
            Some(b) => nat_text(be_value(b@)),
            None => nat_text(0),
        },
{
    let gas_price = match &transaction_trace.gas_price {
        Some(b) => unsigned_be_text(b),
        None => {
            let zero: Vec<u8> = Vec::new();
            unsigned_be_text(&zero)
        },
    };
    Transaction {
        id: hex_text(&transaction_trace.hash),
        block_number,
        timestamp,
        gas_used: transaction_trace.gas_used,
        gas_price,
        log_ordinal,
    }
}

pub struct StorageChange {
    pub address: Vec<u8>,
    pub key: Vec<u8>,
    pub new_value: Vec<u8>,
}

pub struct PoolLiquidity {
    pub pool_address: String,
    /// Decimal text of the new liquidity.
    pub liquidity: String,
    pub log_ordinal: u64,
}

fn same_bytes(a: &Vec<u8>, b: &Vec<u8>) -> (r: bool)
    ensures
        r == (a@ == b@),
{
    if a.len() != b.len() {
        return false;
    }
    let mut i: usize = 0;
    while i < a.len()
        invariant
            i <= a@.len(),
            a@.len() == b@.len(),
            forall|j: int| 0 <= j < i ==> a@[j] == b@[j],
        decreases a@.len() - i,
    {
        if a[i] != b[i] {
            return false;
        }
        i = i + 1;
    }
    proof {
        assert(a@ =~= b@);
    }
    true
}

/// The change is to the pool's storage slot whose key ends in 4, the slot of
/// its liquidity (an empty key is no slot).
pub open spec fn is_liquidity_change(pool: Seq<u8>, sc: StorageChange) -> bool {
    sc.address@ == pool && sc.key@.len() > 0 && sc.key@.last() == 4
}

/// The new liquidity of a pool, from the first change to its liquidity slot.
pub fn extract_pool_liquidity(
    log_ordinal: u64,
    pool_address: &Vec<u8>,
    storage_changes: &Vec<StorageChange>,
) -> (r: Option<PoolLiquidity>)
    ensures
        r is Some <==> exists|i: int|
            0 <= i < storage_changes@.len() && is_liquidity_change(pool_address@, #[trigger] storage_changes@[i]),
        r matches Some(p) ==> exists|i: int|
            0 <= i < storage_changes@.len() && is_liquidity_change(pool_address@, #[trigger] storage_changes@[i])
                && (forall|j: int| 0 <= j < i ==> !is_liquidity_change(pool_address@, #[trigger] storage_changes@[j]))
                && p.pool_address@ == hex_of(pool_address@)
                && p.liquidity@ == nat_text(be_value(storage_changes@[i].new_value@))
                && p.log_ordinal == log_ordinal,
{
    let mut i: usize = 0;
    while i < storage_changes.len()
        invariant
            i <= storage_changes@.len(),
            forall|j: int| 0 <= j < i ==> !is_liquidity_change(pool_address@, #[trigger] storage_changes@[j]),
        decreases storage_changes@.len() - i,
    {
        let sc = &storage_changes[i];
        let n = sc.key.len();
        if same_bytes(pool_address, &sc.address) && n > 0 && sc.key[n - 1] == 4 {
            proof {
                assert(is_liquidity_change(pool_address@, storage_changes@[i as int]));
            }
            return Some(
                PoolLiquidity {
                    pool_address: hex_text(pool_address),
                    liquidity: unsigned_be_text(&sc.new_value),
                    log_ordinal,
                },
            );
        }
        i = i + 1;
    }
    None
}

} // verus!
