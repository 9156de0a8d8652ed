//! Maximum Datagram Size.
use vstd::prelude::*;
use crate::wire::{be_bytes, be_value, push_be, read_be};

verus! {

pub const KIND: u8 = 0x04;


/// Error of `from_option` on data of another length.
pub const LENGTH_MISMATCH: &'static str = "`option` data expected exactly 2 bytes.";

/// The maximum datagram size that the option's data spells in network order.
pub open spec fn value(data: Seq<u8>) -> u16 {
    be_value(data) as u16
}

/// The option's data for a maximum datagram size: its 2 bytes in network order.
pub open spec fn data(maximum: u16) -> Seq<u8> {
    be_bytes(maximum as nat, 2)
}

/// Reads the maximum datagram size from an option of this kind.
pub fn from_option(tuple: (u8, &[u8])) -> (r: Result<u16, &'static str>)
    ensures
        tuple.0 != KIND ==> r == Err::<u16, &'static str>(crate::option::KIND_MISMATCH),
        tuple.0 == KIND && tuple.1@.len() != 2 ==> r == Err::<u16, &'static str>(LENGTH_MISMATCH),
        tuple.0 == KIND && tuple.1@.len() == 2 ==> r == Ok::<u16, &'static str>(value(tuple.1@)),
{
    if tuple.0 != KIND {
        return Err(crate::option::KIND_MISMATCH);
    } else if tuple.1.len() != 2 {
        return Err(LENGTH_MISMATCH);
    }
    proof {
        crate::wire::lemma_byte_range_16();
    }
    assert(tuple.1@.subrange(0, 2) == tuple.1@);
    Ok(read_be(tuple.1, 0, 2) as u16)
}

/// The option of this kind that carries a maximum datagram size.
pub fn to_option(maximum: u16) -> (r: Result<(u8, Vec<u8>), &'static str>)
    ensures
        r matches Ok((k, v)) && k == KIND && v@ == data(maximum),
{
    let mut out = Vec::<u8>::new();
    proof {
        crate::wire::lemma_byte_range_16();
    }
    push_be(&mut out, maximum as u128, 2);
    assert(out@ == data(maximum));
    Ok((KIND, out))
}

/// The data written for a maximum datagram size has the length that `from_option` asks for and
/// reads back as the same maximum datagram size.
pub proof fn lemma_roundtrip(maximum: u16)
    ensures
        data(maximum).len() == 2,
        value(data(maximum)) == maximum,
{
    crate::wire::lemma_byte_range_16();
    crate::wire::lemma_be_bytes_len(maximum as nat, 2);
    crate::wire::lemma_be_value_of_be_bytes(maximum as nat, 2);
}

/// Data of the right length is written back unchanged.
pub proof fn lemma_data_roundtrip(bytes: Seq<u8>)
    requires
        bytes.len() == 2,
    ensures
        data(value(bytes)) == bytes,
{
    crate::wire::lemma_byte_range_16();
    crate::wire::lemma_be_value_bound(bytes);
    crate::wire::lemma_be_bytes_of_be_value(bytes);
}

} // verus!
