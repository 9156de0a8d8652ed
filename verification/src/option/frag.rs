//! Fragmentation.
use vstd::prelude::*;
use crate::wire::{be_bytes, be_value, push_be, read_be};

verus! {

pub const KIND: u8 = 0x3;

/// Error of `from_option` on another kind.
pub const KIND_MISMATCH: &'static str = "`frag` option kind mismatch.";

/// Error of `from_option` on data of another length.
pub const LENGTH_MISMATCH: &'static str = "`frag` option data expected exactly 8 | 10 bytes.";

/// Where the fields after the identification start: after a 16-bit
/// identification in 8 bytes of data, after a 32-bit one in 10.
pub open spec fn id_len(data: Seq<u8>) -> int {
    if data.len() == 8 {
        2
    } else {
        4
    }
}

/// The identification, the 32-bit field and the 16-bit field that the
/// option's data spell in network order.
pub open spec fn value(data: Seq<u8>) -> (u32, u32, u16) {
    let k = id_len(data);
    (
        be_value(data.subrange(0, k)) as u32,
        be_value(data.subrange(k, k + 4)) as u32,
        be_value(data.subrange(k + 4, k + 6)) as u16,
    )
}

/// The option's data: the identification in two bytes when it fits, else in four,
/// then the other two fields, all in network order.
pub open spec fn data(tuple: (u32, u32, u16)) -> Seq<u8> {
    (if tuple.0 > 0xffff {
        be_bytes(tuple.0 as nat, 4)
    } else {
        be_bytes(tuple.0 as nat, 2)
    }) + be_bytes(tuple.1 as nat, 4) + be_bytes(tuple.2 as nat, 2)
}

/// Reads the three fields from an option of this kind.
pub fn from_option(tuple: (u8, &[u8])) -> (r: Result<(u32, u32, u16), &'static str>)
    ensures
        tuple.0 != KIND ==> r == Err::<(u32, u32, u16), &'static str>(KIND_MISMATCH),
        tuple.0 == KIND && tuple.1@.len() != 8 && tuple.1@.len() != 10 ==> r == Err::<
            (u32, u32, u16),
            &'static str,
        >(LENGTH_MISMATCH),
        tuple.0 == KIND && (tuple.1@.len() == 8 || tuple.1@.len() == 10) ==> r == Ok::<
            (u32, u32, u16),
            &'static str,
        >(value(tuple.1@)),
{
    if tuple.0 != KIND {
        return Err(KIND_MISMATCH);
    } else if tuple.1.len() != 8 && tuple.1.len() != 10 {
        return Err(LENGTH_MISMATCH);
    }
    proof {
        crate::wire::lemma_byte_range_16();
    }
    let identification: u32;
    let mut offset: usize = 0;
    if tuple.1.len() == 8 {
        identification = read_be(tuple.1, 0, 2) as u32;
    } else {
        identification = read_be(tuple.1, 0, 4) as u32;
        offset = 2;
    }
    Ok(
        (
            identification,
            read_be(tuple.1, 2 + offset, 4) as u32,
            read_be(tuple.1, 2 + offset + 4, 2) as u16,
        ),
    )
}

/// The option of this kind that carries the three fields.
pub fn to_option(tuple: (u32, u32, u16)) -> (r: Result<(u8, Vec<u8>), &'static str>)
    ensures
        r matches Ok((k, v)) && k == KIND && v@ == data(tuple),
{
    let mut out = Vec::<u8>::new();
    proof {
        crate::wire::lemma_byte_range_16();
    }
    if tuple.0 > 0xffff {
        push_be(&mut out, tuple.0 as u128, 4);
    } else {
        push_be(&mut out, tuple.0 as u128, 2);
    }
    push_be(&mut out, tuple.1 as u128, 4);
    push_be(&mut out, tuple.2 as u128, 2);
    Ok((KIND, out))
}

/// The data written for the three fields has a length that `from_option`
/// accepts and reads back as the same fields.
pub proof fn lemma_roundtrip(tuple: (u32, u32, u16))
    ensures
        data(tuple).len() == 8 || data(tuple).len() == 10,
        value(data(tuple)) == tuple,
{
    crate::wire::lemma_byte_range_16();
    let k: int = if tuple.0 > 0xffff { 4 } else { 2 };
    let a = be_bytes(tuple.0 as nat, k as nat);
    let b = be_bytes(tuple.1 as nat, 4);
    let c = be_bytes(tuple.2 as nat, 2);
    crate::wire::lemma_be_bytes_len(tuple.0 as nat, k as nat);
    crate::wire::lemma_be_bytes_len(tuple.1 as nat, 4);
    crate::wire::lemma_be_bytes_len(tuple.2 as nat, 2);
    crate::wire::lemma_be_value_of_be_bytes(tuple.0 as nat, k as nat);
    crate::wire::lemma_be_value_of_be_bytes(tuple.1 as nat, 4);
    crate::wire::lemma_be_value_of_be_bytes(tuple.2 as nat, 2);
    let d = data(tuple);
    assert(d == a + b + c);
    assert(d.subrange(0, k) == a);
    assert(d.subrange(k, k + 4) == b);
    assert(d.subrange(k + 4, k + 6) == c);
}

/// Data in either accepted length is written back unchanged, except that a
/// 32-bit identification below 0x10000 is written back in two bytes.
pub proof fn lemma_data_roundtrip(bytes: Seq<u8>)
    requires
        bytes.len() == 8 || (bytes.len() == 10 && be_value(bytes.subrange(0, 4)) > 0xffff),
    ensures
        data(value(bytes)) == bytes,
{
    crate::wire::lemma_byte_range_16();
    let k = id_len(bytes);
    let (a, b, c) = (bytes.subrange(0, k), bytes.subrange(k, k + 4), bytes.subrange(k + 4, k + 6));
    crate::wire::lemma_be_value_bound(a);
    crate::wire::lemma_be_value_bound(b);
    crate::wire::lemma_be_value_bound(c);
    crate::wire::lemma_be_bytes_of_be_value(a);
    crate::wire::lemma_be_bytes_of_be_value(b);
    crate::wire::lemma_be_bytes_of_be_value(c);
    assert(bytes == a + b + c);
}

} // verus!
