//! UDP over IPv4 (RFC 768).
use vstd::prelude::*;
use crate::wire::{be_bytes, be_value, push_be, read_be};

pub mod datagram;

verus! {

/// Error of `PseudoHeader::from_bytes` on fewer than twelve bytes.
pub const PSEUDO_HEADER_PARTIAL: &'static str =
    "UDP `PseudoHeader` expected at least 12 bytes (partial).";

/// The IPv4 pseudo-header that the UDP checksum covers.
#[derive(Clone, Copy, Debug)]
pub struct PseudoHeader {
    pub source_address: u32,
    pub destination_address: u32,
    pub protocol: u8,
    pub udp_length: u16,
}

impl PseudoHeader {
    pub const PACKED_SIZE: usize = 12;

    /// The pseudo-header spelled by the first twelve bytes of `raw` (byte 8,
    /// the zero byte before the protocol, is not read).
    pub open spec fn decode(raw: Seq<u8>) -> PseudoHeader {
        PseudoHeader {
            source_address: be_value(raw.subrange(0, 4)) as u32,
            destination_address: be_value(raw.subrange(4, 8)) as u32,
            protocol: raw[9],
            udp_length: be_value(raw.subrange(10, 12)) as u16,
        }
    }

    /// The twelve bytes of the pseudo-header: addresses, a zero byte, the
    /// protocol and the UDP length, in network order.
    pub open spec fn encoding(self) -> Seq<u8> {
        be_bytes(self.source_address as nat, 4) + be_bytes(self.destination_address as nat, 4)
            + be_bytes(self.protocol as nat, 2) + be_bytes(self.udp_length as nat, 2)
    }

    pub fn from_bytes(raw: &[u8]) -> (r: Result<PseudoHeader, &'static str>)
        ensures
            raw@.len() < 12 ==> r == Err::<PseudoHeader, &'static str>(PSEUDO_HEADER_PARTIAL),
            raw@.len() >= 12 ==> r == Ok::<PseudoHeader, &'static str>(
                PseudoHeader::decode(raw@),
            ),
    {
        if raw.len() < Self::PACKED_SIZE {
            return Err(PSEUDO_HEADER_PARTIAL);
        }
        proof {
            crate::wire::lemma_byte_range_16();
        }
        Ok(Self {
            source_address: read_be(raw, 0, 4) as u32,
            destination_address: read_be(raw, 4, 4) as u32,
            protocol: raw[9],
            udp_length: read_be(raw, 10, 2) as u16,
        })
    }

    pub fn to_bytes(&self) -> (r: Result<Vec<u8>, &'static str>)
        ensures
            r matches Ok(v) && v@ == self.encoding(),
    {
        let mut out = Vec::<u8>::new();
        proof {
            crate::wire::lemma_byte_range_16();
        }
        push_be(&mut out, self.source_address as u128, 4);
        push_be(&mut out, self.destination_address as u128, 4);
        push_be(&mut out, self.protocol as u128, 2);
        push_be(&mut out, self.udp_length as u128, 2);
        assert(out@ == self.encoding());
        Ok(out)
    }
}

/// The encoding of a pseudo-header is twelve bytes long.
pub proof fn lemma_pseudo_header_len(p: PseudoHeader)
    ensures
        p.encoding().len() == 12,
{
    crate::wire::lemma_be_bytes_len(p.source_address as nat, 4);
    crate::wire::lemma_be_bytes_len(p.destination_address as nat, 4);
    crate::wire::lemma_be_bytes_len(p.protocol as nat, 2);
    crate::wire::lemma_be_bytes_len(p.udp_length as nat, 2);
}

/// Parsing the bytes that a pseudo-header is written to gives it back.
pub proof fn lemma_pseudo_header_decode_encoding(p: PseudoHeader)
    ensures
        PseudoHeader::decode(p.encoding()) == p,
{
    crate::wire::lemma_byte_range_16();
    crate::wire::lemma_be_bytes_len(p.source_address as nat, 4);
    crate::wire::lemma_be_bytes_len(p.destination_address as nat, 4);
    crate::wire::lemma_be_bytes_len(p.protocol as nat, 2);
    crate::wire::lemma_be_bytes_len(p.udp_length as nat, 2);
    let e = p.encoding();
    assert(e.subrange(0, 4) == be_bytes(p.source_address as nat, 4));
    assert(e.subrange(4, 8) == be_bytes(p.destination_address as nat, 4));
    assert(e.subrange(8, 10) == be_bytes(p.protocol as nat, 2));
    assert(e.subrange(10, 12) == be_bytes(p.udp_length as nat, 2));
    crate::wire::lemma_be_value_of_be_bytes(p.source_address as nat, 4);
    crate::wire::lemma_be_value_of_be_bytes(p.destination_address as nat, 4);
    crate::wire::lemma_be_value_of_be_bytes(p.udp_length as nat, 2);
    assert(be_bytes(p.protocol as nat, 2)[1] == p.protocol) by {
        reveal_with_fuel(be_bytes, 3);
    }
}

/// Writing a parsed pseudo-header gives back the twelve bytes it was parsed
/// from, provided the byte it skips is zero.
pub proof fn lemma_pseudo_header_encoding_decode(raw: Seq<u8>)
    requires
        raw.len() >= 12,
        raw[8] == 0,
    ensures
        PseudoHeader::decode(raw).encoding() == raw.take(12),
{
    crate::wire::lemma_byte_range_16();
    let parts = seq![raw.subrange(0, 4), raw.subrange(4, 8), raw.subrange(10, 12)];
    crate::wire::lemma_be_value_bound(parts[0]);
    crate::wire::lemma_be_bytes_of_be_value(parts[0]);
    crate::wire::lemma_be_value_bound(parts[1]);
    crate::wire::lemma_be_bytes_of_be_value(parts[1]);
    crate::wire::lemma_be_value_bound(parts[2]);
    crate::wire::lemma_be_bytes_of_be_value(parts[2]);
    let mid = raw.subrange(8, 10);
    assert(be_value(mid) == raw[9]) by {
        reveal_with_fuel(be_value, 3);
        assert(mid.drop_last().drop_last() =~= Seq::<u8>::empty());
    }
    crate::wire::lemma_be_bytes_of_be_value(mid);
    assert(raw.take(12) == parts[0] + parts[1] + mid + parts[2]);
}

} // verus!
