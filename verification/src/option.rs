//! UDP options (RFC 9868): a kind byte, then for all but the single-byte
//! kinds a length byte (0xff announcing a 16-bit extended length) and data.
use vstd::prelude::*;
use crate::wire::{be_bytes, be_value, push_be, push_slice, read_be};

pub mod apc;
pub mod auth;
pub mod eol;
pub mod exp;
pub mod frag;
pub mod mds;
pub mod mrds;
pub mod nop;
pub mod req;
pub mod res;
pub mod time;
pub mod ucmp;
pub mod uenc;
pub mod uexp;

verus! {

/// Error of `from_bytes` when the kind or the length byte is missing.
pub const PARTIAL: &'static str = "`option` only partial, more data required.";

/// Error of `from_bytes` when an extended length is cut short.
pub const EXTENDED_PARTIAL: &'static str = "`option` extended only partial, more data required.";

/// Error of `from_bytes` when the length reaches past the bytes.
pub const DATA_PARTIAL: &'static str = "`option` extended data only partial, more data required.";

/// Error of `to_bytes` when the data cannot be counted in 16 bits.
pub const TOO_BIG: &'static str = "`option` data too big.";

/// Error of the `from_option` of several kinds on another kind.
pub const KIND_MISMATCH: &'static str = "`option` kind mismatch.";

/// The largest amount of data that an option can carry.
pub const MAX_DATA: usize = 65531;

/// Whether a kind stands alone, with neither length nor data.
pub open spec fn is_single_byte(kind: u8) -> bool {
    kind == eol::KIND || kind == nop::KIND
}

/// Whether the length byte of an option announces an extended length.
pub open spec fn is_extended(bytes: Seq<u8>) -> bool {
    bytes[1] == 0xff
}

/// Where the data of a (not single-byte) option starts.
pub open spec fn data_offset(bytes: Seq<u8>) -> nat {
    if is_extended(bytes) {
        4
    } else {
        2
    }
}

/// The length that a (not single-byte) option declares: kind, length and data together.
pub open spec fn declared_length(bytes: Seq<u8>) -> nat {
    if is_extended(bytes) {
        be_value(bytes.subrange(2, 4))
    } else {
        bytes[1] as nat
    }
}

/// What `from_bytes` gives for `bytes`: the option's kind and data, or the error.
pub open spec fn parse(bytes: Seq<u8>) -> Result<(u8, Seq<u8>), &'static str> {
    if bytes.len() < 1 {
        Err(PARTIAL)
    } else if is_single_byte(bytes[0]) {
        Ok((bytes[0], Seq::empty()))
    } else if bytes.len() < 2 {
        Err(PARTIAL)
    } else if is_extended(bytes) && bytes.len() < 4 {
        Err(EXTENDED_PARTIAL)
    } else if bytes.len() < declared_length(bytes) {
        Err(DATA_PARTIAL)
    } else {
        Ok((bytes[0], bytes.subrange(data_offset(bytes) as int, declared_length(bytes) as int)))
    }
}

/// Whether a declared length, where `from_bytes` reaches it, covers at least the
/// kind and length bytes (a shorter one leaves no data to take).
pub open spec fn length_covers_header(bytes: Seq<u8>) -> bool {
    (bytes.len() >= 2 && !is_single_byte(bytes[0]) && !(is_extended(bytes) && bytes.len() < 4)
        && declared_length(bytes) <= bytes.len()) ==> data_offset(bytes) <= declared_length(
        bytes,
    )
}

/// An option on the wire. A single-byte kind (end of options list, no
/// operation) is its kind byte alone: it carries no data, and data given with
/// it is not written. Any other kind is its kind, then the length of the whole
/// (in one byte, or after 0xff in two when the data is longer than 0xfc), then
/// the data.
pub open spec fn encoding(kind: u8, data: Seq<u8>) -> Seq<u8> {
    if is_single_byte(kind) {
        seq![kind]
    } else if data.len() > 0xfc {
        seq![kind, 0xffu8] + be_bytes((data.len() + 4) as nat, 2) + data
    } else {
        seq![kind, (data.len() + 2) as u8] + data
    }
}

/// A parse result with its data taken by value.
pub open spec fn parsed_view(r: Result<(u8, &[u8]), &'static str>) -> Result<
    (u8, Seq<u8>),
    &'static str,
> {
    match r {
        Ok((k, d)) => Ok((k, d@)),
        Err(e) => Err(e),
    }
}

/// Reads the option at the start of `bytes`.
pub fn from_bytes(bytes: &[u8]) -> (r: Result<(u8, &[u8]), &'static str>)
    requires
        length_covers_header(bytes@),
    ensures
        parsed_view(r) == parse(bytes@),
{
    if bytes.len() < 1 {
        return Err(PARTIAL);
    }
    let kind = bytes[0];
    if kind == eol::KIND || kind == nop::KIND {
        let empty: &[u8] = &[];
        assert(empty@ =~= Seq::<u8>::empty());
        return Ok((kind, empty));
    } else if bytes.len() < 2 {
        return Err(PARTIAL);
    }
    let mut length: u16 = bytes[1] as u16;
    let mut offset: usize = 2;
    if length == 0xff {
        if bytes.len() < 4 {
            return Err(EXTENDED_PARTIAL);
        }
        proof {
            crate::wire::lemma_byte_range_16();
        }
        length = read_be(bytes, 2, 2) as u16;
        offset = 4;
    }
    if bytes.len() < length as usize {
        return Err(DATA_PARTIAL);
    }
    Ok((kind, vstd::slice::slice_subrange(bytes, offset, length as usize)))
}

/// Writes an option: the kind byte alone for a single-byte kind, else kind,
/// length and data.
pub fn to_bytes(tuple: (u8, &[u8])) -> (r: Result<Vec<u8>, &'static str>)
    ensures
        tuple.1@.len() > MAX_DATA ==> r == Err::<Vec<u8>, &'static str>(TOO_BIG),
        tuple.1@.len() <= MAX_DATA ==> (r matches Ok(v) && v@ == encoding(tuple.0, tuple.1@)),
{
    if tuple.1.len() > MAX_DATA {
        return Err(TOO_BIG);
    }
    let mut out = Vec::<u8>::new();
    out.push(tuple.0);
    if tuple.0 == eol::KIND || tuple.0 == nop::KIND {
        return Ok(out);
    }
    if tuple.1.len() > 0xfc {
        out.push(0xff);
        proof {
            crate::wire::lemma_byte_range_16();
        }
        push_be(&mut out, (4 + tuple.1.len()) as u128, 2);
    } else {
        out.push(tuple.1.len() as u8 + 2);
    }
    push_slice(&mut out, tuple.1);
    assert(out@ == encoding(tuple.0, tuple.1@));
    Ok(out)
}

/// Reading back a written option of a kind that carries data gives its kind
/// and data, whatever bytes follow it.
pub proof fn lemma_option_roundtrip(kind: u8, data: Seq<u8>, rest: Seq<u8>)
    requires
        !is_single_byte(kind),
        data.len() <= MAX_DATA,
    ensures
        length_covers_header(encoding(kind, data) + rest),
        parse(encoding(kind, data) + rest) == Ok::<(u8, Seq<u8>), &'static str>((kind, data)),
{
    let e = encoding(kind, data) + rest;
    if data.len() > 0xfc {
        crate::wire::lemma_byte_range_16();
        crate::wire::lemma_be_bytes_len((data.len() + 4) as nat, 2);
        let l = be_bytes((data.len() + 4) as nat, 2);
        assert(e.subrange(2, 4) == l);
        crate::wire::lemma_be_value_of_be_bytes((data.len() + 4) as nat, 2);
        assert(e.subrange(4, data.len() + 4int) == data);
    } else {
        assert(e.subrange(2, data.len() + 2int) == data);
    }
}

/// A written single-byte kind reads back alone, whatever follows it.
pub proof fn lemma_single_byte_option(kind: u8, data: Seq<u8>, rest: Seq<u8>)
    requires
        is_single_byte(kind),
    ensures
        encoding(kind, data) == seq![kind],
        length_covers_header(encoding(kind, data) + rest),
        parse(encoding(kind, data) + rest) == Ok::<(u8, Seq<u8>), &'static str>(
            (kind, Seq::empty()),
        ),
{
    assert((seq![kind] + rest)[0] == kind);
}

} // verus!
