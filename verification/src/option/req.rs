//! Request.
use vstd::prelude::*;
use crate::wire::{be_bytes, be_value, push_be, read_be};

verus! {

pub const KIND: u8 = 0x06;


/// Error of `from_option` on data of another length.
pub const LENGTH_MISMATCH: &'static str = "`option` data expected exactly 4 bytes.";

/// The request sequence number that the option's data spells in network order.
pub open spec fn value(data: Seq<u8>) -> u32 {
    be_value(data) as u32
}

/// The option's data for a request sequence number: its 4 bytes in network order.
pub open spec fn data(sequence: u32) -> Seq<u8> {
    be_bytes(sequence as nat, 4)
}

/// Reads the request sequence number from an option of this kind.
pub fn from_option(tuple: (u8, &[u8])) -> (r: Result<u32, &'static str>)
    ensures
        tuple.0 != KIND ==> r == Err::<u32, &'static str>(crate::option::KIND_MISMATCH),
        tuple.0 == KIND && tuple.1@.len() != 4 ==> r == Err::<u32, &'static str>(LENGTH_MISMATCH),
        tuple.0 == KIND && tuple.1@.len() == 4 ==> r == Ok::<u32, &'static str>(value(tuple.1@)),
{
    if tuple.0 != KIND {
        return Err(crate::option::KIND_MISMATCH);
    } else if tuple.1.len() != 4 {
        return Err(LENGTH_MISMATCH);
    }
    proof {
        crate::wire::lemma_byte_range_16();
    }
    assert(tuple.1@.subrange(0, 4) == tuple.1@);
    Ok(read_be(tuple.1, 0, 4) as u32)
}

/// The option of this kind that carries a request sequence number.
pub fn to_option(sequence: u32) -> (r: Result<(u8, Vec<u8>), &'static str>)
    ensures
        r matches Ok((k, v)) && k == KIND && v@ == data(sequence),
{
    let mut out = Vec::<u8>::new();
    proof {
        crate::wire::lemma_byte_range_16();
    }
    push_be(&mut out, sequence as u128, 4);
    assert(out@ == data(sequence));
    Ok((KIND, out))
}

/// The data written for a request sequence number has the length that `from_option` asks for and
/// reads back as the same request sequence number.
pub proof fn lemma_roundtrip(sequence: u32)
    ensures
        data(sequence).len() == 4,
        value(data(sequence)) == sequence,
{
    crate::wire::lemma_byte_range_16();
    crate::wire::lemma_be_bytes_len(sequence as nat, 4);
    crate::wire::lemma_be_value_of_be_bytes(sequence as nat, 4);
}

/// Data of the right length is written back unchanged.
pub proof fn lemma_data_roundtrip(bytes: Seq<u8>)
    requires
        bytes.len() == 4,
    ensures
        data(value(bytes)) == bytes,
{
    crate::wire::lemma_byte_range_16();
    crate::wire::lemma_be_value_bound(bytes);
    crate::wire::lemma_be_bytes_of_be_value(bytes);
}

} // verus!
