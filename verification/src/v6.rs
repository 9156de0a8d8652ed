//! UDP over IPv6 (RFC 8200).
use vstd::prelude::*;
use crate::wire::{be_bytes, be_value, push_be, read_be};

pub mod datagram;

verus! {

/// Error of `PseudoHeader::from_bytes` on fewer than forty bytes.
pub const PSEUDO_HEADER_PARTIAL: &'static str = "";

/// The IPv6 pseudo-header that the UDP checksum covers.
#[derive(Clone, Copy, Debug)]
pub struct PseudoHeader {
    pub source_address: u128,
    pub destination_address: u128,
    pub ul_length: u32,
    pub next_header: u8,
}

impl PseudoHeader {
    pub const PACKED_SIZE: usize = 40;

    /// The pseudo-header spelled by the first forty bytes of `raw` (bytes 36 to
    /// 38, the zeros before the next header, are not read).
    pub open spec fn decode(raw: Seq<u8>) -> PseudoHeader {
        PseudoHeader {
            source_address: be_value(raw.subrange(0, 16)) as u128,
            destination_address: be_value(raw.subrange(16, 32)) as u128,
            ul_length: be_value(raw.subrange(32, 36)) as u32,
            next_header: raw[39],
        }
    }

    /// The forty bytes of the pseudo-header: the addresses, then the upper-layer
    /// length and the next header as one 64-bit word, in network order.
    pub open spec fn encoding(self) -> Seq<u8> {
        be_bytes(self.source_address as nat, 16) + be_bytes(self.destination_address as nat, 16)
            + be_bytes(self.ul_length as nat * 0x1_0000_0000 + self.next_header as nat, 8)
    }

    pub fn from_bytes(raw: &[u8]) -> (r: Result<Self, &'static str>)
        ensures
            raw@.len() < 40 ==> r == Err::<PseudoHeader, &'static str>(PSEUDO_HEADER_PARTIAL),
            raw@.len() >= 40 ==> r == Ok::<PseudoHeader, &'static str>(
                PseudoHeader::decode(raw@),
            ),
    {
        if raw.len() < Self::PACKED_SIZE {
            return Err(PSEUDO_HEADER_PARTIAL);
        }
        proof {
            crate::wire::lemma_byte_range_16();
        }
        Ok(Self {
            source_address: read_be(raw, 0, 16),
            destination_address: read_be(raw, 16, 16),
            ul_length: read_be(raw, 32, 4) as u32,
            next_header: raw[39],
        })
    }

    pub fn to_bytes(&self) -> (r: Result<Vec<u8>, &'static str>)
        ensures
            r matches Ok(v) && v@ == self.encoding(),
    {
        let mut out = Vec::<u8>::new();
        proof {
            crate::wire::lemma_byte_range_16();
        }
        push_be(&mut out, self.source_address, 16);
        push_be(&mut out, self.destination_address, 16);
        let ul = self.ul_length;
        let nh = self.next_header;
        let word: u64 = ((ul as u64) << 32) | (nh as u64);
        assert(word == ul as u64 * 0x1_0000_0000 + nh as u64) by (bit_vector)
            requires
                word == ((ul as u64) << 32) | (nh as u64),
        ;
        push_be(&mut out, word as u128, 8);
        assert(out@ == self.encoding());
        Ok(out)
    }
}

/// The last eight bytes of the encoding: the upper-layer length, three zero
/// bytes and the next header.
proof fn lemma_length_word(ul_length: u32, next_header: u8)
    ensures
        be_bytes(ul_length as nat * 0x1_0000_0000 + next_header as nat, 8) == be_bytes(
            ul_length as nat,
            4,
        ) + seq![0u8, 0u8, 0u8, next_header],
{
    crate::wire::lemma_byte_range_16();
    let x = ul_length as nat * 0x1_0000_0000 + next_header as nat;
    crate::wire::lemma_be_bytes_split(x, 4, 4);
    vstd::arithmetic::div_mod::lemma_fundamental_div_mod_converse(
        x as int,
        0x1_0000_0000,
        ul_length as int,
        next_header as int,
    );
    crate::wire::lemma_be_bytes_split(next_header as nat, 3, 1);
    reveal_with_fuel(be_bytes, 4);
    assert(be_bytes(0, 3) == seq![0u8, 0u8, 0u8]);
    assert(be_bytes(next_header as nat, 1) == seq![next_header]);
}

/// The encoding of a pseudo-header is forty bytes long.
pub proof fn lemma_pseudo_header_len(p: PseudoHeader)
    ensures
        p.encoding().len() == 40,
{
    crate::wire::lemma_be_bytes_len(p.source_address as nat, 16);
    crate::wire::lemma_be_bytes_len(p.destination_address as nat, 16);
    crate::wire::lemma_be_bytes_len(p.ul_length as nat * 0x1_0000_0000 + p.next_header as nat, 8);
}

/// Parsing the bytes that a pseudo-header is written to gives it back.
pub proof fn lemma_pseudo_header_decode_encoding(p: PseudoHeader)
    ensures
        PseudoHeader::decode(p.encoding()) == p,
{
    crate::wire::lemma_byte_range_16();
    crate::wire::lemma_be_bytes_len(p.source_address as nat, 16);
    crate::wire::lemma_be_bytes_len(p.destination_address as nat, 16);
    crate::wire::lemma_be_bytes_len(p.ul_length as nat, 4);
    lemma_length_word(p.ul_length, p.next_header);
    let e = p.encoding();
    assert(e.subrange(0, 16) == be_bytes(p.source_address as nat, 16));
    assert(e.subrange(16, 32) == be_bytes(p.destination_address as nat, 16));
    assert(e.subrange(32, 36) == be_bytes(p.ul_length as nat, 4));
    assert(e[39] == p.next_header);
    crate::wire::lemma_be_value_of_be_bytes(p.source_address as nat, 16);
    crate::wire::lemma_be_value_of_be_bytes(p.destination_address as nat, 16);
    crate::wire::lemma_be_value_of_be_bytes(p.ul_length as nat, 4);
}

/// Writing a parsed pseudo-header gives back the forty bytes it was parsed
/// from, provided the bytes it skips are zero.
pub proof fn lemma_pseudo_header_encoding_decode(raw: Seq<u8>)
    requires
        raw.len() >= 40,
        raw[36] == 0 && raw[37] == 0 && raw[38] == 0,
    ensures
        PseudoHeader::decode(raw).encoding() == raw.take(40),
{
    crate::wire::lemma_byte_range_16();
    let (a, b, c) = (raw.subrange(0, 16), raw.subrange(16, 32), raw.subrange(32, 36));
    crate::wire::lemma_be_value_bound(a);
    crate::wire::lemma_be_bytes_of_be_value(a);
    crate::wire::lemma_be_value_bound(b);
    crate::wire::lemma_be_bytes_of_be_value(b);
    crate::wire::lemma_be_value_bound(c);
    crate::wire::lemma_be_bytes_of_be_value(c);
    let p = PseudoHeader::decode(raw);
    lemma_length_word(p.ul_length, p.next_header);
    assert(raw.take(40) == a + b + c + seq![0u8, 0u8, 0u8, raw[39]]);
}

} // verus!
