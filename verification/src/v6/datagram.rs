//! UDPv6 datagram: pseudo-header, header and payload.
//! Be aware that null value checksums should be invalid, although tunnel
//! exemptions may apply (RFC 6935/6936).
use vstd::prelude::*;
use super::PseudoHeader;
use crate::{be_words, datagram_checksum, pad_even, transmitted_checksum, word_sum, Header};

verus! {

/// Error when the payload does not fit a 32-bit upper-layer length.
pub const DOES_NOT_FIT: &'static str = "UDP data does not fit.";

/// Error of `check` when the pseudo-header names another protocol.
pub const PROTOCOL_MISMATCH: &'static str = "`PseudoHeader`'s protocol field expected 17 (UDP).";

/// Error of `check` when a length field does not count header and payload.
pub const LENGTH_MISMATCH: &'static str = "`datagram` length mismatches.";

/// The largest payload whose length, with the header's, fits in 32 bits.
pub const MAX_PAYLOAD: usize = 0xffff_fff7;

/// The upper-layer length of a datagram carrying `n` bytes of payload.
pub open spec fn ul_length(n: nat) -> u32 {
    (8 + n) as u32
}

/// The header's length field for `n` bytes of payload: the length, or zero
/// for a jumbogram whose length does not fit in 16 bits.
pub open spec fn udp_length(n: nat) -> u16 {
    if 8 + n > 0xffff {
        0
    } else {
        (8 + n) as u16
    }
}

/// The bytes that the checksum covers: pseudo-header, header with a zero
/// checksum, and the payload padded to an even length.
pub open spec fn covered(pseudo: PseudoHeader, header: Header, payload: Seq<u8>) -> Seq<u8> {
    pseudo.encoding() + Header { checksum: 0, ..header }.encoding() + pad_even(payload)
}

/// The pseudo-header and header that `make` leaves: both length fields count
/// header and payload, and the checksum, which IPv6 makes mandatory, is
/// computed whatever the header held.
pub open spec fn made(pseudo: PseudoHeader, header: Header, payload: Seq<u8>) -> (
    PseudoHeader,
    Header,
) {
    let l = udp_length(payload.len());
    let p = PseudoHeader { ul_length: ul_length(payload.len()), ..pseudo };
    let h = Header { length: l, ..header };
    (p, Header { checksum: transmitted_checksum(covered(p, h, payload)), ..h })
}

/// What `check` answers: an error for a wrong protocol, an oversized payload or
/// wrong length fields; else whether the checksum, when there is one, is right
/// (a zero checksum is let through, for the tunnel exemptions of RFC 6935/6936).
pub open spec fn verdict(pseudo: PseudoHeader, header: Header, payload: Seq<u8>) -> Result<
    bool,
    &'static str,
> {
    if pseudo.next_header != crate::PROTOCOL_NO {
        Err(PROTOCOL_MISMATCH)
    } else if payload.len() > MAX_PAYLOAD {
        Err(DOES_NOT_FIT)
    } else if pseudo.ul_length != ul_length(payload.len()) || header.length != udp_length(
        payload.len(),
    ) {
        Err(LENGTH_MISMATCH)
    } else if header.checksum == 0 {
        Ok(true)
    } else {
        Ok(header.checksum == transmitted_checksum(covered(pseudo, header, payload)))
    }
}

/// Whether the plain sum of the words that the checksum covers fits in the
/// 32-bit accumulator (a payload of more than about 128 KiB can exceed it).
pub open spec fn checksum_fits(pseudo: PseudoHeader, header: Header, payload: Seq<u8>) -> bool {
    word_sum(be_words(covered(pseudo, header, payload))) <= u32::MAX
}

/// Makes a valid datagram: source and destination ports and addresses and the
/// next header are left untouched; the length fields are set, and the
/// checksum, mandatory over IPv6, is always computed (never zero).
pub fn make(tuple: &mut (PseudoHeader, Header, &[u8])) -> (r: Result<(), &'static str>)
    requires
        old(tuple).2@.len() <= MAX_PAYLOAD ==> checksum_fits(
            PseudoHeader { ul_length: ul_length(old(tuple).2@.len()), ..old(tuple).0 },
            Header { length: udp_length(old(tuple).2@.len()), ..old(tuple).1 },
            old(tuple).2@,
        ),
    ensures
        old(tuple).2@.len() > MAX_PAYLOAD ==> r == Err::<(), &'static str>(DOES_NOT_FIT)
            && *final(tuple) == *old(tuple),
        old(tuple).2@.len() <= MAX_PAYLOAD ==> r is Ok && final(tuple).2 == old(tuple).2 && (
        final(tuple).0, final(tuple).1) == made(old(tuple).0, old(tuple).1, old(tuple).2@),
{
    if tuple.2.len() > MAX_PAYLOAD {
        return Err(DOES_NOT_FIT);
    }
    let length: u32 = (Header::PACKED_SIZE + tuple.2.len()) as u32;
    tuple.1.length = if length > u16::MAX as u32 {
        0x0
    } else {
        length as u16
    };
    tuple.0.ul_length = length;
    tuple.1.checksum = 0;
    let pseudo = match tuple.0.to_bytes() {
        Ok(v) => v,
        Err(e) => return Err(e),
    };
    let header = match tuple.1.to_bytes() {
        Ok(v) => v,
        Err(e) => return Err(e),
    };
    proof {
        super::lemma_pseudo_header_len(tuple.0);
        crate::lemma_header_len(tuple.1);
        assert(Header { checksum: 0, ..tuple.1 } == tuple.1);
    }
    tuple.1.checksum = datagram_checksum(pseudo.as_slice(), header.as_slice(), tuple.2);
    Ok(())
}

/// Checks a datagram for validity: protocol, lengths and checksum. The datagram
/// is left as it was.
pub fn check(tuple: &mut (PseudoHeader, Header, &[u8])) -> (r: Result<bool, &'static str>)
    requires
        verdict(old(tuple).0, old(tuple).1, old(tuple).2@) is Ok && old(tuple).1.checksum != 0
            ==> checksum_fits(old(tuple).0, old(tuple).1, old(tuple).2@),
    ensures
        r == verdict(old(tuple).0, old(tuple).1, old(tuple).2@),
        *final(tuple) == *old(tuple),
{
    if tuple.0.next_header != crate::PROTOCOL_NO {
        return Err(PROTOCOL_MISMATCH);
    } else if tuple.2.len() > MAX_PAYLOAD {
        return Err(DOES_NOT_FIT);
    }
    let length: u32 = (Header::PACKED_SIZE + tuple.2.len()) as u32;
    if tuple.0.ul_length != length || tuple.1.length != if length > u16::MAX as u32 {
        0x0
    } else {
        length as u16
    } {
        return Err(LENGTH_MISMATCH);
    }
    if tuple.1.checksum != 0 {
        let checksum: u16 = tuple.1.checksum;
        tuple.1.checksum = 0;
        let pseudo = match tuple.0.to_bytes() {
            Ok(v) => v,
            Err(e) => return Err(e),
        };
        let header = match tuple.1.to_bytes() {
            Ok(v) => v,
            Err(e) => return Err(e),
        };
        proof {
            super::lemma_pseudo_header_len(tuple.0);
            crate::lemma_header_len(tuple.1);
            assert(Header { checksum: 0, ..tuple.1 } == tuple.1);
        }
        let computed = datagram_checksum(pseudo.as_slice(), header.as_slice(), tuple.2);
        tuple.1.checksum = checksum;
        return Ok(tuple.1.checksum == computed);
    }
    Ok(true)
}

/// A datagram that `make` completed passes `check`, provided its pseudo-header
/// names UDP.
pub proof fn lemma_make_then_check(pseudo: PseudoHeader, header: Header, payload: Seq<u8>)
    requires
        pseudo.next_header == crate::PROTOCOL_NO,
        payload.len() <= MAX_PAYLOAD,
    ensures
        verdict(made(pseudo, header, payload).0, made(pseudo, header, payload).1, payload) == Ok::<
            bool,
            &'static str,
        >(true),
{
    let (p, h) = made(pseudo, header, payload);
    assert(Header { checksum: 0, ..h } == Header {
        checksum: 0,
        ..Header { length: udp_length(payload.len()), ..header }
    });
}

/// A receiver verifies a datagram that `make` completed by adding up every
/// word it covers with the checksum in place: the checksum of that sum comes
/// out zero. The checksum `make` leaves is never zero.
pub proof fn lemma_made_checksum_verifies(pseudo: PseudoHeader, header: Header, payload: Seq<u8>)
    ensures
        made(pseudo, header, payload).1.checksum != 0,
        ({
            let (p, h) = made(pseudo, header, payload);
            crate::ones_complement(
                word_sum(be_words(p.encoding() + h.encoding() + pad_even(payload))),
            ) == 0
        }),
{
    let (p, h) = made(pseudo, header, payload);
    super::lemma_pseudo_header_len(p);
    crate::lemma_checksum_in_place(p.encoding(), h, payload);
    let h1 = Header { length: udp_length(payload.len()), ..header };
    assert(Header { checksum: 0, ..h } == Header { checksum: 0, ..h1 });
    crate::lemma_transmitted_checksum_verifies(covered(p, h1, payload));
}

/// `make` sets the length fields to count the eight header bytes and the
/// payload, and leaves the addresses, the protocol and the ports as they were.
pub proof fn lemma_made_lengths(pseudo: PseudoHeader, header: Header, payload: Seq<u8>)
    requires
        payload.len() <= MAX_PAYLOAD,
    ensures
        made(pseudo, header, payload).0.ul_length == 8 + payload.len(),
        8 + payload.len() <= 0xffff ==> made(pseudo, header, payload).1.length == 8
            + payload.len(),
        8 + payload.len() > 0xffff ==> made(pseudo, header, payload).1.length == 0,
        made(pseudo, header, payload).0.source_address == pseudo.source_address,
        made(pseudo, header, payload).0.destination_address == pseudo.destination_address,
        made(pseudo, header, payload).0.next_header == pseudo.next_header,
        made(pseudo, header, payload).1.source_port == header.source_port,
        made(pseudo, header, payload).1.destination_port == header.destination_port,
        made(pseudo, header, payload).1.checksum != 0,
{
    crate::lemma_transmitted_checksum_verifies(covered(made(pseudo, header, payload).0, Header {
        length: udp_length(payload.len()),
        ..header
    }, payload));
}

/// `check` accepts only a datagram for UDP whose length fields count the eight
/// header bytes and the payload, and whose checksum, when there is one,
/// verifies: with it in place, the words of the pseudo-header, the header and
/// the payload padded to an even length add up to a sum whose checksum is zero.
pub proof fn lemma_check_accepts(pseudo: PseudoHeader, header: Header, payload: Seq<u8>)
    ensures
        verdict(pseudo, header, payload) is Ok ==> {
            &&& pseudo.next_header == 17
            &&& payload.len() <= 0xffff_fff7
            &&& pseudo.ul_length == 8 + payload.len()
            &&& 8 + payload.len() <= 0xffff ==> header.length == 8 + payload.len()
            &&& 8 + payload.len() > 0xffff ==> header.length == 0
        },
        verdict(pseudo, header, payload) == Ok::<bool, &'static str>(true) && header.checksum != 0
            ==> crate::ones_complement(
            word_sum(be_words(pseudo.encoding() + header.encoding() + pad_even(payload))),
        ) == 0,
{
    super::lemma_pseudo_header_len(pseudo);
    crate::lemma_checksum_in_place(pseudo.encoding(), header, payload);
    crate::lemma_transmitted_checksum_verifies(covered(pseudo, header, payload));
}

} // verus!
