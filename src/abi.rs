//! Reading the 32-byte words of a contract call's answer, through
//! `substreams_ethereum::abi`.
use crate::chain::be_value;
use crate::text::{int_text, nat_text};
use substreams_ethereum::abi;
use vstd::prelude::*;

verus! {

/// The `index`-th 32-byte word of `raw`.
pub open spec fn word(raw: Seq<u8>, index: int) -> Seq<u8> {
    raw.subrange(32 * index, 32 * index + 32)
}

pub open spec fn has_word(raw: Seq<u8>, index: int) -> bool {
    0 <= index && 32 * index + 32 <= raw.len()
}

pub open spec fn pow256(n: nat) -> nat
    decreases n,
{
    if n == 0 {
        1
    } else {
        256 * pow256((n - 1) as nat)
    }
}

/// A word read as a two's-complement integer.
pub open spec fn signed_value(w: Seq<u8>) -> int {
    if w[0] >= 128 {
        be_value(w) - pow256(32)
    } else {
        be_value(w) as int
    }
}

/// The byte offset of the `index`-th word, where `raw` has that word.
fn word_offset(raw: &Vec<u8>, index: usize) -> (r: Option<usize>)
    ensures
        r is Some <==> has_word(raw@, index as int),
        r matches Some(o) ==> o == 32 * index,
{
    let n = raw.len();
    proof {
        assert((index as int) < (n as int) / 32 <==> 32 * index + 32 <= n) by (nonlinear_arith);
    }
    if index >= n / 32 {
        None
    } else {
        Some(32 * index)
    }
}

/// Relies on `substreams_ethereum::abi::read_uint`, which fails where the
/// word at `offset` is not all in `raw`, and on the `Display` of the
/// unsigned big-endian integer it reads: its decimal text.
#[verifier::external_body]
fn read_uint_text(raw: &Vec<u8>, offset: usize) -> (r: Option<String>)
    requires
        offset + 32 <= raw@.len(),
    ensures
        r is Some,
        r matches Some(t) ==> t@ == nat_text(be_value(raw@.subrange(offset as int, offset + 32))),
{
    match abi::read_uint(raw, offset, "") {
        Ok(v) => Some(v.to_string()),
        Err(_) => None,
    }
}

/// Relies on `substreams_ethereum::abi::read_uint` and `u64::try_from` of
/// the integer read: `None` where it does not fit.
#[verifier::external_body]
fn read_uint_u64(raw: &Vec<u8>, offset: usize) -> (r: Option<u64>)
    requires
        offset + 32 <= raw@.len(),
    ensures
        r is Some <==> be_value(raw@.subrange(offset as int, offset + 32)) <= u64::MAX,
        r matches Some(v) ==> v as nat == be_value(raw@.subrange(offset as int, offset + 32)),
{
    match abi::read_uint(raw, offset, "") {
        Ok(v) => u64::try_from(v).ok(),
        Err(_) => None,
    }
}

/// Relies on `substreams_ethereum::abi::read_int` (two's complement over the
/// whole word) and `i32::try_from` of the integer read: `None` where it does
/// not fit.
#[verifier::external_body]
fn read_int_i32(raw: &Vec<u8>, offset: usize) -> (r: Option<i32>)
    requires
        offset + 32 <= raw@.len(),
    ensures
        r is Some <==> ({
            let v = signed_value(raw@.subrange(offset as int, offset + 32));
            i32::MIN <= v && v <= i32::MAX
        }),
        r matches Some(v) ==> v as int == signed_value(raw@.subrange(offset as int, offset + 32)),
{
    match abi::read_int(raw, offset, "") {
        Ok(v) => i32::try_from(Into::<num_bigint::BigInt>::into(v)).ok(),
        Err(_) => None,
    }
}

/// Relies on `substreams_ethereum::abi::read_address`: the low 20 bytes of
/// the word at `offset`.
#[verifier::external_body]
fn read_address_at(raw: &Vec<u8>, offset: usize) -> (r: Option<Vec<u8>>)
    requires
        offset + 32 <= raw@.len(),
    ensures
        r is Some,
        r matches Some(a) ==> a@ == raw@.subrange(offset + 12, offset + 32),
{
    abi::read_address(raw, offset, "").ok()
}

/// Relies on `substreams_ethereum::abi::read_int` (two's complement over the
/// whole word) and on the `Display` of the integer it reads: its decimal text.
#[verifier::external_body]
fn read_int_text(raw: &Vec<u8>, offset: usize) -> (r: Option<String>)
    requires
        offset + 32 <= raw@.len(),
    ensures
        r is Some,
        r matches Some(t) ==> t@ == int_text(signed_value(raw@.subrange(offset as int, offset + 32))),
{
    match abi::read_int(raw, offset, "") {
        Ok(v) => Some(v.to_string()),
        Err(_) => None,
    }
}

/// Decimal text of the `index`-th word read as a signed integer, where `raw`
/// has that word.
pub fn word_int_text(raw: &Vec<u8>, index: usize) -> (r: Option<String>)
    ensures
        r is Some <==> has_word(raw@, index as int),
        r matches Some(t) ==> t@ == int_text(signed_value(word(raw@, index as int))),
{
    match word_offset(raw, index) {
        Some(o) => read_int_text(raw, o),
        None => None,
    }
}

/// Decimal text of the `index`-th word read as an unsigned integer, where
/// `raw` has that word.
pub fn word_text(raw: &Vec<u8>, index: usize) -> (r: Option<String>)
    ensures
        r is Some <==> has_word(raw@, index as int),
        r matches Some(t) ==> t@ == nat_text(be_value(word(raw@, index as int))),
{
    match word_offset(raw, index) {
        Some(o) => read_uint_text(raw, o),
        None => None,
    }
}

/// The `index`-th word read as a `u64`, where `raw` has that word and its
/// value fits in 64 bits.
pub fn word_u64(raw: &Vec<u8>, index: usize) -> (r: Option<u64>)
    ensures
        r is Some <==> has_word(raw@, index as int) && be_value(word(raw@, index as int)) <= u64::MAX,
        r matches Some(v) ==> v as nat == be_value(word(raw@, index as int)),
{
    match word_offset(raw, index) {
        Some(o) => read_uint_u64(raw, o),
        None => None,
    }
}

/// The `index`-th word read as a signed integer (such as an `int24` tick),
/// where `raw` has that word and its value fits in 32 bits.
pub fn word_i32(raw: &Vec<u8>, index: usize) -> (r: Option<i32>)
    ensures
        r is Some <==> has_word(raw@, index as int) && i32::MIN <= signed_value(word(raw@, index as int))
            && signed_value(word(raw@, index as int)) <= i32::MAX,
        r matches Some(v) ==> v as int == signed_value(word(raw@, index as int)),
{
    match word_offset(raw, index) {
        Some(o) => read_int_i32(raw, o),
        None => None,
    }
}

/// The last 20 bytes of the `index`-th word: an address.
pub fn word_address(raw: &Vec<u8>, index: usize) -> (r: Option<Vec<u8>>)
    ensures
        r is Some <==> has_word(raw@, index as int),
        r matches Some(a) ==> a@ == word(raw@, index as int).subrange(12, 32),
{
    match word_offset(raw, index) {
        Some(o) => {
            let r = read_address_at(raw, o);
            proof {
                assert(r->Some_0@ =~= word(raw@, index as int).subrange(12, 32));
            }
            r
        },
        None => None,
    }
}

/// An offset or length word at byte `at`: its value, where the word lies in
/// `raw` and its first 28 bytes are zero.
pub open spec fn offset_word(raw: Seq<u8>, at: int) -> Option<int> {
    if 0 <= at && at + 32 <= raw.len() && (forall|i: int| at <= i < at + 28 ==> raw[i] == 0) {
        Some(be_value(raw.subrange(at + 28, at + 32)) as int)
    } else {
        None
    }
}

/// The bytes of an ABI-encoded `bytes` or `string` answer: the first word
/// gives the byte offset of the length word, the bytes follow it.
pub open spec fn abi_bytes(raw: Seq<u8>) -> Option<Seq<u8>> {
    match offset_word(raw, 0) {
        Some(at) => match offset_word(raw, at) {
            Some(len) => if at + 32 + len <= raw.len() {
                Some(raw.subrange(at + 32, at + 32 + len))
            } else {
                None
            },
            None => None,
        },
        None => None,
    }
}

/// What `String::from_utf8_lossy` makes of bytes.
pub uninterp spec fn utf8_lossy_of(b: Seq<u8>) -> Seq<char>;

/// Relies on `substreams_ethereum::abi::read_string`: the bytes of an
/// ABI-encoded string, read through `String::from_utf8_lossy`; it fails
/// where an offset or length word does not lie in `raw` or exceeds 32 bits,
/// or the bytes run past its end.
#[verifier::external_body]
pub(crate) fn read_string_answer(raw: &Vec<u8>) -> (r: Option<String>)
    ensures
        r is Some <==> abi_bytes(raw@) is Some,
        r matches Some(s) ==> s@ == utf8_lossy_of(abi_bytes(raw@)->Some_0),
{
    abi::read_string(raw, 0, "").ok()
}

/// The text of an ABI-encoded `string` answer, where `raw` is one.
pub fn abi_string(raw: &Vec<u8>) -> (r: Option<String>)
    ensures
        r is Some <==> abi_bytes(raw@) is Some,
        r matches Some(s) ==> s@ == utf8_lossy_of(abi_bytes(raw@)->Some_0),
{
    read_string_answer(raw)
}

} // verus!
