//! UDPv4 datagram: pseudo-header, header and payload.
use vstd::prelude::*;
use super::PseudoHeader;
use crate::{be_words, datagram_checksum, pad_even, transmitted_checksum, word_sum, Header};

verus! {

/// Error when the payload does not fit a 16-bit UDP length.
pub const DOES_NOT_FIT: &'static str = "UDP data does not fit.";

/// Error of `check` when the pseudo-header names another protocol.
pub const PROTOCOL_MISMATCH: &'static str = "`PseudoHeader`'s protocol field expected 17 (UDP).";

/// Error of `check` when a length field does not count header and payload.
pub const LENGTH_MISMATCH: &'static str = "`datagram` length fields mismatches.";

/// The largest payload whose length, with the header's, fits in 16 bits.
pub const MAX_PAYLOAD: usize = 65527;

/// The UDP length of a datagram carrying `n` bytes of payload.
pub open spec fn udp_length(n: nat) -> u16 {
    (8 + n) as u16
}

/// The bytes that the checksum covers: pseudo-header, header with a zero
/// checksum, and the payload padded to an even length.
pub open spec fn covered(pseudo: PseudoHeader, header: Header, payload: Seq<u8>) -> Seq<u8> {
    pseudo.encoding() + Header { checksum: 0, ..header }.encoding() + pad_even(payload)
}

/// The pseudo-header and header that `make` leaves: both length fields count
/// header and payload, and a checksum that was asked for (nonzero) is computed.
pub open spec fn made(pseudo: PseudoHeader, header: Header, payload: Seq<u8>) -> (
    PseudoHeader,
    Header,
) {
    let l = udp_length(payload.len());
    let p = PseudoHeader { udp_length: l, ..pseudo };
    let h = Header { length: l, ..header };
    if header.checksum == 0 {
        (p, h)
    } else {
        (p, Header { checksum: transmitted_checksum(covered(p, h, payload)), ..h })
    }
}

/// What `check` answers: an error for a wrong protocol, an oversized payload or
/// wrong length fields; else whether the checksum, when there is one, is right.
pub open spec fn verdict(pseudo: PseudoHeader, header: Header, payload: Seq<u8>) -> Result<
    bool,
    &'static str,
> {
    if pseudo.protocol != crate::PROTOCOL_NO {
        Err(PROTOCOL_MISMATCH)
    } else if payload.len() > MAX_PAYLOAD {
        Err(DOES_NOT_FIT)
    } else if pseudo.udp_length != udp_length(payload.len()) || header.length != udp_length(
        payload.len(),
    ) {
        Err(LENGTH_MISMATCH)
    } else if header.checksum == 0 {
        Ok(true)
    } else {
        Ok(header.checksum == transmitted_checksum(covered(pseudo, header, payload)))
    }
}

proof fn lemma_covered_fits(pseudo: PseudoHeader, header: Header, payload: Seq<u8>)
    requires
        payload.len() <= MAX_PAYLOAD,
    ensures
        word_sum(be_words(covered(pseudo, header, payload))) <= u32::MAX,
{
    super::lemma_pseudo_header_len(pseudo);
    crate::lemma_header_len(Header { checksum: 0, ..header });
    crate::lemma_word_sum_bound(be_words(covered(pseudo, header, payload)));
}

/// Makes a valid datagram: source and destination ports and addresses and the
/// protocol are left untouched; the length fields are set, and the checksum is
/// computed unless it is zero ("no checksum").
pub fn make(tuple: &mut (PseudoHeader, Header, &[u8])) -> (r: Result<(), &'static str>)
    ensures
        old(tuple).2@.len() > MAX_PAYLOAD ==> r == Err::<(), &'static str>(DOES_NOT_FIT)
            && *final(tuple) == *old(tuple),
        old(tuple).2@.len() <= MAX_PAYLOAD ==> r is Ok && final(tuple).2 == old(tuple).2 && (
        final(tuple).0, final(tuple).1) == made(old(tuple).0, old(tuple).1, old(tuple).2@),
{
    if tuple.2.len() > MAX_PAYLOAD {
        return Err(DOES_NOT_FIT);
    }
    let length: u16 = (Header::PACKED_SIZE + tuple.2.len()) as u16;
    tuple.1.length = length;
    tuple.0.udp_length = tuple.1.length;
    if tuple.1.checksum != 0 {
        tuple.1.checksum = 0;
        let pseudo = match tuple.0.to_bytes() {
            Ok(v) => v,
            Err(e) => return Err(e),
        };
        let header = match tuple.1.to_bytes() {
            Ok(v) => v,
            Err(e) => return Err(e),
        };
        proof {
            super::lemma_pseudo_header_len(tuple.0);
            crate::lemma_header_len(tuple.1);
            lemma_covered_fits(tuple.0, tuple.1, tuple.2@);
            assert(Header { checksum: 0, ..tuple.1 } == tuple.1);
        }
        tuple.1.checksum = datagram_checksum(pseudo.as_slice(), header.as_slice(), tuple.2);
    }
    Ok(())
}

/// Checks a datagram for validity: protocol, lengths and checksum. The datagram
/// is left as it was.
pub fn check(tuple: &mut (PseudoHeader, Header, &[u8])) -> (r: Result<bool, &'static str>)
    ensures
        r == verdict(old(tuple).0, old(tuple).1, old(tuple).2@),
        *final(tuple) == *old(tuple),
{
    if tuple.0.protocol != crate::PROTOCOL_NO {
        return Err(PROTOCOL_MISMATCH);
    } else if tuple.2.len() > MAX_PAYLOAD {
        return Err(DOES_NOT_FIT);
    }
    let length: u16 = (Header::PACKED_SIZE + tuple.2.len()) as u16;
    if tuple.0.udp_length != length || tuple.1.length != length {
        return Err(LENGTH_MISMATCH);
    }
    if tuple.1.checksum != 0 {
        let checksum: u16 = tuple.1.checksum;
        tuple.1.checksum = 0;
        let pseudo = match tuple.0.to_bytes() {
            Ok(v) => v,
            Err(e) => return Err(e),
        };
        let header = match tuple.1.to_bytes() {
            Ok(v) => v,
            Err(e) => return Err(e),
        };
        proof {
            super::lemma_pseudo_header_len(tuple.0);
            crate::lemma_header_len(tuple.1);
            lemma_covered_fits(tuple.0, tuple.1, tuple.2@);
            assert(Header { checksum: 0, ..tuple.1 } == tuple.1);
        }
        let computed = datagram_checksum(pseudo.as_slice(), header.as_slice(), tuple.2);
        tuple.1.checksum = checksum;
        return Ok(tuple.1.checksum == computed);
    }
    Ok(true)
}

/// A datagram that `make` completed passes `check`, provided its pseudo-header
/// names UDP.
pub proof fn lemma_make_then_check(pseudo: PseudoHeader, header: Header, payload: Seq<u8>)
    requires
        pseudo.protocol == crate::PROTOCOL_NO,
        payload.len() <= MAX_PAYLOAD,
    ensures
        verdict(made(pseudo, header, payload).0, made(pseudo, header, payload).1, payload) == Ok::<
            bool,
            &'static str,
        >(true),
{
    let (p, h) = made(pseudo, header, payload);
    assert(Header { checksum: 0, ..h } == Header {
        checksum: 0,
        ..Header { length: udp_length(payload.len()), ..header }
    });
}

/// A receiver verifies a datagram that `make` completed with a checksum by
/// adding up every word it covers with the checksum in place: the checksum of
/// that sum comes out zero.
pub proof fn lemma_made_checksum_verifies(pseudo: PseudoHeader, header: Header, payload: Seq<u8>)
    requires
        header.checksum != 0,
    ensures
        ({
            let (p, h) = made(pseudo, header, payload);
            crate::ones_complement(
                word_sum(be_words(p.encoding() + h.encoding() + pad_even(payload))),
            ) == 0
        }),
{
    let (p, h) = made(pseudo, header, payload);
    super::lemma_pseudo_header_len(p);
    crate::lemma_checksum_in_place(p.encoding(), h, payload);
    let h1 = Header { length: udp_length(payload.len()), ..header };
    assert(Header { checksum: 0, ..h } == Header { checksum: 0, ..h1 });
    crate::lemma_transmitted_checksum_verifies(covered(p, h1, payload));
}

/// `make` sets the length fields to count the eight header bytes and the
/// payload, and leaves the addresses, the protocol and the ports as they were.
pub proof fn lemma_made_lengths(pseudo: PseudoHeader, header: Header, payload: Seq<u8>)
    requires
        payload.len() <= MAX_PAYLOAD,
    ensures
        made(pseudo, header, payload).0.udp_length == 8 + payload.len(),
        made(pseudo, header, payload).1.length == 8 + payload.len(),
        made(pseudo, header, payload).0.source_address == pseudo.source_address,
        made(pseudo, header, payload).0.destination_address == pseudo.destination_address,
        made(pseudo, header, payload).0.protocol == pseudo.protocol,
        made(pseudo, header, payload).1.source_port == header.source_port,
        made(pseudo, header, payload).1.destination_port == header.destination_port,
        header.checksum == 0 ==> made(pseudo, header, payload).1.checksum == 0,
        header.checksum != 0 ==> made(pseudo, header, payload).1.checksum != 0,
{
    crate::lemma_transmitted_checksum_verifies(covered(made(pseudo, header, payload).0, Header {
        length: udp_length(payload.len()),
        ..header
    }, payload));
}

/// `check` accepts only a datagram for UDP whose length fields count the eight
/// header bytes and the payload, and whose checksum, when there is one,
/// verifies: with it in place, the words of the pseudo-header, the header and
/// the payload padded to an even length add up to a sum whose checksum is zero.
pub proof fn lemma_check_accepts(pseudo: PseudoHeader, header: Header, payload: Seq<u8>)
    ensures
        verdict(pseudo, header, payload) is Ok ==> {
            &&& pseudo.protocol == 17
            &&& payload.len() <= 65527
            &&& pseudo.udp_length == 8 + payload.len()
            &&& header.length == 8 + payload.len()
        },
        verdict(pseudo, header, payload) == Ok::<bool, &'static str>(true) && header.checksum != 0
            ==> crate::ones_complement(
            word_sum(be_words(pseudo.encoding() + header.encoding() + pad_even(payload))),
        ) == 0,
{
    super::lemma_pseudo_header_len(pseudo);
    crate::lemma_checksum_in_place(pseudo.encoding(), header, payload);
    crate::lemma_transmitted_checksum_verifies(covered(pseudo, header, payload));
}

} // verus!
