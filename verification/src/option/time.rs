//! Timestamp.
use vstd::prelude::*;
use crate::wire::{be_bytes, be_value, push_be, read_be};

verus! {

pub const KIND: u8 = 0x08;


/// Error of `from_option` on data of another length.
pub const LENGTH_MISMATCH: &'static str = "`option` data expected exactly 8 bytes.";

/// The timestamp that the option's data spells in network order.
pub open spec fn value(data: Seq<u8>) -> u64 {
    be_value(data) as u64
}

/// The option's data for a timestamp: its 8 bytes in network order.
pub open spec fn data(timestamp: u64) -> Seq<u8> {
    be_bytes(timestamp as nat, 8)
}

/// Reads the timestamp from an option of this kind.
pub fn from_option(tuple: (u8, &[u8])) -> (r: Result<u64, &'static str>)
    ensures
        tuple.0 != KIND ==> r == Err::<u64, &'static str>(crate::option::KIND_MISMATCH),
        tuple.0 == KIND && tuple.1@.len() != 8 ==> r == Err::<u64, &'static str>(LENGTH_MISMATCH),
        tuple.0 == KIND && tuple.1@.len() == 8 ==> r == Ok::<u64, &'static str>(value(tuple.1@)),
{
    if tuple.0 != KIND {
        return Err(crate::option::KIND_MISMATCH);
    } else if tuple.1.len() != 8 {
        return Err(LENGTH_MISMATCH);
    }
    proof {
        crate::wire::lemma_byte_range_16();
    }
    assert(tuple.1@.subrange(0, 8) == tuple.1@);
    Ok(read_be(tuple.1, 0, 8) as u64)
}

/// The option of this kind that carries a timestamp.
pub fn to_option(timestamp: u64) -> (r: Result<(u8, Vec<u8>), &'static str>)
    ensures
        r matches Ok((k, v)) && k == KIND && v@ == data(timestamp),
{
    let mut out = Vec::<u8>::new();
    proof {
        crate::wire::lemma_byte_range_16();
    }
    push_be(&mut out, timestamp as u128, 8);
    assert(out@ == data(timestamp));
    Ok((KIND, out))
}

/// The data written for a timestamp has the length that `from_option` asks for and
/// reads back as the same timestamp.
pub proof fn lemma_roundtrip(timestamp: u64)
    ensures
        data(timestamp).len() == 8,
        value(data(timestamp)) == timestamp,
{
    crate::wire::lemma_byte_range_16();
    crate::wire::lemma_be_bytes_len(timestamp as nat, 8);
    crate::wire::lemma_be_value_of_be_bytes(timestamp as nat, 8);
}

/// Data of the right length is written back unchanged.
pub proof fn lemma_data_roundtrip(bytes: Seq<u8>)
    requires
        bytes.len() == 8,
    ensures
        data(value(bytes)) == bytes,
{
    crate::wire::lemma_byte_range_16();
    crate::wire::lemma_be_value_bound(bytes);
    crate::wire::lemma_be_bytes_of_be_value(bytes);
}

} // verus!
