//! A UDP datagram: a header and the payload that its length field covers.
use vstd::prelude::*;
use crate::wire::push_slice;
use crate::Header;

verus! {

/// Error of `from_bytes` when the length field reaches past the bytes.
pub const DATAGRAM_PARTIAL: &'static str = "UDP `datagram` only partial, missing data.";

/// What `from_bytes` gives for `bytes`: the header and the payload that the
/// header's length field covers, or the error.
pub open spec fn parse(bytes: Seq<u8>) -> Result<(Header, Seq<u8>), &'static str> {
    if bytes.len() < 8 {
        Err(crate::HEADER_PARTIAL)
    } else if bytes.len() < Header::decode(bytes).length {
        Err(DATAGRAM_PARTIAL)
    } else {
        Ok((Header::decode(bytes), bytes.subrange(8, Header::decode(bytes).length as int)))
    }
}

/// The bytes of a datagram on the wire: the header, then the payload.
pub open spec fn encoding(header: Header, payload: Seq<u8>) -> Seq<u8> {
    header.encoding() + payload
}

/// A parse result with its payload taken by value.
pub open spec fn parsed_view(r: Result<(Header, &[u8]), &'static str>) -> Result<
    (Header, Seq<u8>),
    &'static str,
> {
    match r {
        Ok((h, d)) => Ok((h, d@)),
        Err(e) => Err(e),
    }
}

/// Splits a datagram into its header and payload (surplus bytes past the length are left).
pub fn from_bytes(bytes: &[u8]) -> (r: Result<(Header, &[u8]), &'static str>)
    requires
        bytes@.len() >= 8 ==> Header::decode(bytes@).length >= 8,
    ensures
        parsed_view(r) == parse(bytes@),
{
    let header = match Header::from_bytes(bytes) {
        Ok(h) => h,
        Err(e) => return Err(e),
    };
    if bytes.len() < header.length as usize {
        return Err(DATAGRAM_PARTIAL);
    }
    Ok((header, vstd::slice::slice_subrange(bytes, Header::PACKED_SIZE, header.length as usize)))
}

/// Writes a datagram: the header as it stands, then the payload.
pub fn to_bytes(tuple: (Header, &[u8])) -> (r: Result<Vec<u8>, &'static str>)
    ensures
        r matches Ok(v) && v@ == encoding(tuple.0, tuple.1@),
{
    let mut out = match tuple.0.to_bytes() {
        Ok(v) => v,
        Err(e) => return Err(e),
    };
    push_slice(&mut out, tuple.1);
    Ok(out)
}

/// Reading back a written datagram whose length field counts the header and the
/// payload gives the header and the payload.
pub proof fn lemma_datagram_roundtrip(header: Header, payload: Seq<u8>)
    requires
        header.length == 8 + payload.len(),
    ensures
        parse(encoding(header, payload)) == Ok::<(Header, Seq<u8>), &'static str>(
            (header, payload),
        ),
{
    let e = encoding(header, payload);
    crate::lemma_header_decode_encoding(header);
    crate::wire::lemma_be_bytes_len(header.source_port as nat, 2);
    crate::wire::lemma_be_bytes_len(header.destination_port as nat, 2);
    crate::wire::lemma_be_bytes_len(header.length as nat, 2);
    crate::wire::lemma_be_bytes_len(header.checksum as nat, 2);
    assert(e.take(8) == header.encoding());
    assert(e.subrange(0, 2) == e.take(8).subrange(0, 2));
    assert(e.subrange(2, 4) == e.take(8).subrange(2, 4));
    assert(e.subrange(4, 6) == e.take(8).subrange(4, 6));
    assert(e.subrange(6, 8) == e.take(8).subrange(6, 8));
    assert(Header::decode(e) == Header::decode(e.take(8)));
    assert(e.subrange(8, 8 + payload.len() as int) == payload);
}

} // verus!
