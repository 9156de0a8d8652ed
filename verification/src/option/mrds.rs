//! Maximum Reassembled Datagram Size.
use vstd::prelude::*;
use crate::wire::{be_bytes, be_value, push_be, read_be};

verus! {

pub const KIND: u8 = 0x5;

/// Error of `from_option` on data of another length.
pub const LENGTH_MISMATCH: &'static str = "`option` data expected exactly 3 bytes.";

/// The size and the fragment count that the option's data spell: two bytes in
/// network order, then one byte.
pub open spec fn value(data: Seq<u8>) -> (u16, u8) {
    (be_value(data.subrange(0, 2)) as u16, data[2])
}

/// The option's data for a size and a fragment count.
pub open spec fn data(tuple: (u16, u8)) -> Seq<u8> {
    be_bytes(tuple.0 as nat, 2).push(tuple.1)
}

/// Reads the size and the fragment count from an option of this kind.
pub fn from_option(tuple: (u8, &[u8])) -> (r: Result<(u16, u8), &'static str>)
    ensures
        tuple.0 != KIND ==> r == Err::<(u16, u8), &'static str>(crate::option::KIND_MISMATCH),
        tuple.0 == KIND && tuple.1@.len() != 3 ==> r == Err::<(u16, u8), &'static str>(
            LENGTH_MISMATCH,
        ),
        tuple.0 == KIND && tuple.1@.len() == 3 ==> r == Ok::<(u16, u8), &'static str>(
            value(tuple.1@),
        ),
{
    if tuple.0 != KIND {
        return Err(crate::option::KIND_MISMATCH);
    } else if tuple.1.len() != 3 {
        return Err(LENGTH_MISMATCH);
    }
    proof {
        crate::wire::lemma_byte_range_16();
    }
    Ok((read_be(tuple.1, 0, 2) as u16, tuple.1[2]))
}

/// The option of this kind that carries a size and a fragment count.
pub fn to_option(tuple: (u16, u8)) -> (r: Result<(u8, Vec<u8>), &'static str>)
    ensures
        r matches Ok((k, v)) && k == KIND && v@ == data(tuple),
{
    let mut out = Vec::<u8>::new();
    proof {
        crate::wire::lemma_byte_range_16();
    }
    push_be(&mut out, tuple.0 as u128, 2);
    out.push(tuple.1);
    Ok((KIND, out))
}

/// The data written for a size and a fragment count has the length that
/// `from_option` asks for and reads back as the same pair.
pub proof fn lemma_roundtrip(tuple: (u16, u8))
    ensures
        data(tuple).len() == 3,
        value(data(tuple)) == tuple,
{
    crate::wire::lemma_byte_range_16();
    crate::wire::lemma_be_bytes_len(tuple.0 as nat, 2);
    crate::wire::lemma_be_value_of_be_bytes(tuple.0 as nat, 2);
    assert(data(tuple).subrange(0, 2) == be_bytes(tuple.0 as nat, 2));
}

/// Data of the right length is written back unchanged.
pub proof fn lemma_data_roundtrip(bytes: Seq<u8>)
    requires
        bytes.len() == 3,
    ensures
        data(value(bytes)) == bytes,
{
    crate::wire::lemma_byte_range_16();
    crate::wire::lemma_be_value_bound(bytes.subrange(0, 2));
    crate::wire::lemma_be_bytes_of_be_value(bytes.subrange(0, 2));
    assert(bytes == bytes.subrange(0, 2).push(bytes[2]));
}

} // verus!
