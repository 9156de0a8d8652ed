//! User Datagram Protocol: headers, pseudo-headers, options and the
//! Internet checksum, with their wire formats.
use vstd::prelude::*;
use crate::wire::{be_bytes, be_value, push_be, read_be};

pub mod datagram;
pub mod option;
pub mod surplus;
pub mod v4;
pub mod v6;
pub mod wire;

verus! {

/// One's-complement end-around-carry folding of a sum into 16 bits.
pub open spec fn fold16(n: nat) -> nat
    decreases n,
{
    if n < 0x10000 {
        n
    } else {
        fold16(n % 0x10000 + n / 0x10000)
    }
}

/// The Internet checksum of a sum of 16-bit words: the complement of its folding.
pub open spec fn ones_complement(n: nat) -> u16 {
    (0xffff - fold16(n)) as u16
}

/// The plain integer sum of a sequence of 16-bit words.
pub open spec fn word_sum(ws: Seq<u16>) -> nat
    decreases ws.len(),
{
    if ws.len() == 0 {
        0
    } else {
        word_sum(ws.drop_last()) + ws.last() as nat
    }
}

/// The word sum distributes over concatenation.
pub proof fn lemma_word_sum_append(a: Seq<u16>, b: Seq<u16>)
    ensures
        word_sum(a + b) == word_sum(a) + word_sum(b),
    decreases b.len(),
{
    if b.len() == 0 {
        assert(a + b == a);
    } else {
        assert((a + b).drop_last() == a + b.drop_last());
        lemma_word_sum_append(a, b.drop_last());
    }
}

/// A prefix never sums to more than the whole sequence.
pub proof fn lemma_word_sum_prefix(ws: Seq<u16>, i: int)
    requires
        0 <= i <= ws.len(),
    ensures
        word_sum(ws.take(i)) <= word_sum(ws),
{
    assert(ws == ws.take(i) + ws.skip(i));
    lemma_word_sum_append(ws.take(i), ws.skip(i));
}

/// The big-endian 16-bit words of a byte sequence (a trailing odd byte is left out).
pub open spec fn be_words(bs: Seq<u8>) -> Seq<u16> {
    Seq::new(bs.len() / 2, |i: int| (bs[2 * i] as int * 256 + bs[2 * i + 1] as int) as u16)
}

/// A byte sequence padded with a zero byte to an even length.
pub open spec fn pad_even(bs: Seq<u8>) -> Seq<u8> {
    if bs.len() % 2 == 1 {
        bs.push(0)
    } else {
        bs
    }
}

/// The checksum that a datagram carries for the bytes it covers: zero stands for
/// "no checksum", so a computed zero is sent as its one's-complement twin 0xffff.
pub open spec fn transmitted_checksum(covered: Seq<u8>) -> u16 {
    if ones_complement(word_sum(be_words(covered))) == 0 {
        0xffff
    } else {
        ones_complement(word_sum(be_words(covered)))
    }
}

/// The words of two byte sequences, the first of even length, are the words of
/// each: feeding `Checksum::update_from_bytes` two even-length pieces in turn
/// adds the same as feeding it them at once.
pub proof fn lemma_be_words_append(a: Seq<u8>, b: Seq<u8>)
    requires
        a.len() % 2 == 0,
    ensures
        be_words(a + b) == be_words(a) + be_words(b),
{
    assert(be_words(a + b) =~= be_words(a) + be_words(b));
}

/// The sum of `n` words is at most `0xffff * n`.
pub proof fn lemma_word_sum_bound(ws: Seq<u16>)
    ensures
        word_sum(ws) <= 0xffff * ws.len(),
    decreases ws.len(),
{
    if ws.len() > 0 {
        lemma_word_sum_bound(ws.drop_last());
    }
}

/// Folding gives a 16-bit value and leaves a 16-bit sum as it is.
pub proof fn lemma_fold16_bound(n: nat)
    ensures
        fold16(n) <= 0xffff,
        n < 0x10000 ==> fold16(n) == n,
    decreases n,
{
    if n >= 0x10000 {
        lemma_fold16_bound(n % 0x10000 + n / 0x10000);
    }
}

/// Folding keeps a sum's residue modulo `0xffff`.
pub proof fn lemma_fold16_mod(n: nat)
    ensures
        fold16(n) % 0xffff == n % 0xffff,
    decreases n,
{
    if n >= 0x10000 {
        let q = n / 0x10000;
        let r = n % 0x10000;
        vstd::arithmetic::div_mod::lemma_fundamental_div_mod(n as int, 0x10000);
        assert(n == 0xffff * q + (q + r));
        vstd::arithmetic::div_mod::lemma_mod_multiples_vanish(q as int, (q + r) as int, 0xffff);
        lemma_fold16_mod((q + r) as nat);
    }
}

/// Folding a positive sum never gives zero.
pub proof fn lemma_fold16_positive(n: nat)
    ensures
        n > 0 ==> fold16(n) > 0,
    decreases n,
{
    if n >= 0x10000 {
        lemma_fold16_positive(n % 0x10000 + n / 0x10000);
    }
}

/// A positive sum that is a multiple of `0xffff` has checksum zero: one's
/// complement addition of everything, checksum included, gives all ones.
pub proof fn lemma_zero_residue(m: nat)
    requires
        m > 0,
        m % 0xffff == 0,
    ensures
        ones_complement(m) == 0,
{
    lemma_fold16_mod(m);
    lemma_fold16_bound(m);
    lemma_fold16_positive(m);
}

/// Adding the checksum of a sum to the sum gives a multiple of `0xffff`.
proof fn lemma_sum_with_checksum(n: nat)
    ensures
        (n + ones_complement(n)) % 0xffff == 0,
        fold16(n) == 0xffff ==> n % 0xffff == 0,
{
    lemma_fold16_bound(n);
    lemma_fold16_mod(n);
    let f = fold16(n);
    let c = ones_complement(n);
    assert(c == 0xffff - f);
    vstd::arithmetic::div_mod::lemma_fundamental_div_mod(n as int, 0xffff);
    vstd::arithmetic::div_mod::lemma_fundamental_div_mod(f as int, 0xffff);
    vstd::arithmetic::div_mod::lemma_mod_multiples_vanish(
        (n / 0xffff - f / 0xffff) as int,
        (f + c) as int,
        0xffff,
    );
}

/// Adding the checksum of a sum to the sum gives a sum whose checksum is zero.
pub proof fn lemma_complement_verifies(n: nat)
    ensures
        ones_complement(n + ones_complement(n) as nat) == 0,
{
    lemma_sum_with_checksum(n);
    lemma_fold16_bound(n);
    lemma_fold16_positive(n);
    lemma_zero_residue(n + ones_complement(n) as nat);
}

/// RFC 1071: appending the checksum of some words to them makes the checksum of
/// the whole come out zero, which is how a receiver verifies data.
pub proof fn lemma_checksum_verifies(ws: Seq<u16>)
    ensures
        ones_complement(word_sum(ws.push(ones_complement(word_sum(ws))))) == 0,
{
    let s = word_sum(ws);
    let c = ones_complement(s);
    assert(ws.push(c).drop_last() == ws);
    lemma_sum_with_checksum(s);
    lemma_fold16_bound(s);
    lemma_fold16_positive(s);
    lemma_zero_residue(s + c as nat);
}

/// The checksum that a datagram carries verifies the same way: added to the sum
/// of the words it covers, it gives a sum whose checksum is zero.
pub proof fn lemma_transmitted_checksum_verifies(covered: Seq<u8>)
    ensures
        ones_complement(word_sum(be_words(covered)) + transmitted_checksum(covered) as nat) == 0,
{
    let n = word_sum(be_words(covered));
    lemma_sum_with_checksum(n);
    lemma_fold16_bound(n);
    lemma_fold16_positive(n);
    if ones_complement(n) == 0 {
        vstd::arithmetic::div_mod::lemma_mod_multiples_vanish(1, n as int, 0xffff);
        lemma_zero_residue(n + 0xffff);
    } else {
        lemma_zero_residue(n + ones_complement(n) as nat);
    }
}

fn fold_and_complement(acc: u32) -> (r: u16)
    ensures
        r == ones_complement(acc as nat),
{
    let mut a: u32 = acc;
    while a >> 16 != 0
        invariant
            fold16(a as nat) == fold16(acc as nat),
        decreases a,
    {
        assert(a >> 16 == a / 0x10000 && a & 0xffff == a % 0x10000) by (bit_vector);
        a = (a & 0xffff) + (a >> 16);
    }
    assert(a >> 16 == 0 ==> a < 0x10000) by (bit_vector);
    proof {
        lemma_fold16_bound(acc as nat);
    }
    assert(a < 0x10000 ==> !(a as u16) == (0xffff - a) as u16) by (bit_vector);
    !(a as u16)
}

/// RFC 1071 checksum of a sequence of 16-bit words.
pub fn checksum(words: &[u16]) -> (r: u16)
    requires
        word_sum(words@) <= u32::MAX,
    ensures
        r == ones_complement(word_sum(words@)),
{
    let mut accumulator: u32 = 0;
    let mut i: usize = 0;
    while i < words.len()
        invariant
            i <= words.len(),
            word_sum(words@) <= u32::MAX,
            accumulator == word_sum(words@.take(i as int)),
        decreases words.len() - i,
    {
        proof {
            assert(words@.take(i + 1).drop_last() == words@.take(i as int));
            lemma_word_sum_prefix(words@, i + 1);
        }
        accumulator = accumulator + words[i] as u32;
        i = i + 1;
    }
    assert(words@.take(i as int) == words@);
    fold_and_complement(accumulator)
}

/// Error of `Checksum::update_from_bytes` on an odd number of bytes.
pub const UNALIGNED: &'static str = "`bytes` needs to be word aligned.";

/// Streaming RFC 1071 checksum: the plain sum of the words fed so far.
pub struct Checksum {
    pub accumulator: u32,
}

impl Checksum {
    pub fn new() -> (r: Self)
        ensures
            r.accumulator == 0,
    {
        Self { accumulator: 0u32 }
    }

    /// Adds each word to the accumulator.
    pub fn update_from_words(&mut self, words: &[u16]) -> (r: Result<(), &'static str>)
        requires
            old(self).accumulator + word_sum(words@) <= u32::MAX,
        ensures
            r is Ok,
            final(self).accumulator == old(self).accumulator + word_sum(words@),
    {
        let mut i: usize = 0;
        while i < words.len()
            invariant
                i <= words.len(),
                old(self).accumulator + word_sum(words@) <= u32::MAX,
                self.accumulator == old(self).accumulator + word_sum(words@.take(i as int)),
            decreases words.len() - i,
        {
            proof {
                assert(words@.take(i + 1).drop_last() == words@.take(i as int));
                lemma_word_sum_prefix(words@, i + 1);
            }
            self.accumulator = self.accumulator + words[i] as u32;
            i = i + 1;
        }
        assert(words@.take(i as int) == words@);
        Ok(())
    }

    /// Adds the big-endian words of `bytes`; refuses an odd number of bytes.
    pub fn update_from_bytes(&mut self, bytes: &[u8]) -> (r: Result<(), &'static str>)
        requires
            bytes@.len() % 2 == 0 ==> old(self).accumulator + word_sum(be_words(bytes@))
                <= u32::MAX,
        ensures
            bytes@.len() % 2 != 0 ==> r == Err::<(), &'static str>(UNALIGNED) && *final(self)
                == *old(self),
            bytes@.len() % 2 == 0 ==> r is Ok && final(self).accumulator == old(self).accumulator
                + word_sum(be_words(bytes@)),
    {
        if bytes.len() % 2 != 0 {
            return Err(UNALIGNED);
        }
        let ghost ws = be_words(bytes@);
        let len: usize = bytes.len();
        let n: usize = len / 2;
        let mut i: usize = 0;
        while i < n
            invariant
                i <= n,
                n == bytes@.len() / 2,
                2 * n == bytes@.len(),
                len == bytes@.len(),
                ws == be_words(bytes@),
                old(self).accumulator + word_sum(ws) <= u32::MAX,
                self.accumulator == old(self).accumulator + word_sum(ws.take(i as int)),
            decreases n - i,
        {
            proof {
                assert(ws.take(i + 1).drop_last() == ws.take(i as int));
                lemma_word_sum_prefix(ws, i + 1);
            }
            assert(2 * i + 1 < bytes@.len());
            let hi: u8 = bytes[2 * i];
            let lo: u8 = bytes[2 * i + 1];
            let word: u16 = hi as u16 * 256 + lo as u16;
            assert(word == ws[i as int]);
            self.accumulator = self.accumulator + word as u32;
            i = i + 1;
        }
        assert(ws.take(i as int) == ws);
        Ok(())
    }

    /// The checksum of everything fed so far.
    pub fn digest(&self) -> (r: u16)
        ensures
            r == ones_complement(self.accumulator as nat),
    {
        fold_and_complement(self.accumulator)
    }
}

/// Checksums the bytes a datagram's checksum covers: the pseudo-header, the
/// header (with a zero checksum), then the payload padded to an even length.
pub(crate) fn datagram_checksum(pseudo: &[u8], header: &[u8], payload: &[u8]) -> (r: u16)
    requires
        pseudo@.len() % 2 == 0,
        header@.len() % 2 == 0,
        word_sum(be_words(pseudo@ + header@ + pad_even(payload@))) <= u32::MAX,
    ensures
        r == transmitted_checksum(pseudo@ + header@ + pad_even(payload@)),
{
    let ghost even = payload@.take((payload@.len() / 2 * 2) as int);
    let ghost tail = if payload@.len() % 2 == 1 { seq![payload@.last(), 0u8] } else { Seq::empty() };
    proof {
        assert(pad_even(payload@) == even + tail);
        lemma_be_words_append(pseudo@, header@);
        lemma_be_words_append(pseudo@ + header@, even);
        lemma_be_words_append(pseudo@ + header@ + even, tail);
        assert(pseudo@ + header@ + pad_even(payload@) == pseudo@ + header@ + even + tail);
        lemma_word_sum_append(be_words(pseudo@), be_words(header@));
        lemma_word_sum_append(be_words(pseudo@) + be_words(header@), be_words(even));
        lemma_word_sum_append(be_words(pseudo@) + be_words(header@) + be_words(even), be_words(tail));
    }
    let mut cs = Checksum::new();
    let _ = cs.update_from_bytes(pseudo);
    let _ = cs.update_from_bytes(header);
    let data = vstd::slice::slice_subrange(payload, 0, payload.len() / 2 * 2);
    let _ = cs.update_from_bytes(data);
    if payload.len() % 2 != 0 {
        let padded = [payload[payload.len() - 1], 0u8];
        assert(padded@ == tail);
        let _ = cs.update_from_bytes(padded.as_slice());
    } else {
        assert(be_words(tail) =~= Seq::<u16>::empty());
    }
    assert(cs.accumulator == word_sum(be_words(pseudo@ + header@ + pad_even(payload@))));
    let mut checksum = cs.digest();
    if checksum == 0 {
        assert(!0u16 == 0xffff) by (bit_vector);
        checksum = !checksum;
    }
    checksum
}

/// The IP protocol number of UDP.
pub const PROTOCOL_NO: u8 = 17;

/// Error of `Header::from_bytes` on fewer than eight bytes.
pub const HEADER_PARTIAL: &'static str = "UDP `Header` expected at least 8 bytes (partial).";

/// The eight-byte UDP header.
#[derive(Clone, Copy, Debug)]
pub struct Header {
    pub source_port: u16,
    pub destination_port: u16,
    pub length: u16,
    pub checksum: u16,
}

impl Header {
    pub const PACKED_SIZE: usize = 8;

    /// The header spelled by the first eight bytes of `raw`.
    pub open spec fn decode(raw: Seq<u8>) -> Header {
        Header {
            source_port: be_value(raw.subrange(0, 2)) as u16,
            destination_port: be_value(raw.subrange(2, 4)) as u16,
            length: be_value(raw.subrange(4, 6)) as u16,
            checksum: be_value(raw.subrange(6, 8)) as u16,
        }
    }

    /// The eight bytes of the header on the wire: its four fields in network order.
    pub open spec fn encoding(self) -> Seq<u8> {
        be_bytes(self.source_port as nat, 2) + be_bytes(self.destination_port as nat, 2)
            + be_bytes(self.length as nat, 2) + be_bytes(self.checksum as nat, 2)
    }

    pub fn from_bytes(raw: &[u8]) -> (r: Result<Header, &'static str>)
        ensures
            raw@.len() < 8 ==> r == Err::<Header, &'static str>(HEADER_PARTIAL),
            raw@.len() >= 8 ==> r == Ok::<Header, &'static str>(Header::decode(raw@)),
    {
        if raw.len() < Self::PACKED_SIZE {
            return Err(HEADER_PARTIAL);
        }
        proof {
            wire::lemma_byte_range_16();
        }
        Ok(Self {
            source_port: read_be(raw, 0, 2) as u16,
            destination_port: read_be(raw, 2, 2) as u16,
            length: read_be(raw, 4, 2) as u16,
            checksum: read_be(raw, 6, 2) as u16,
        })
    }

    pub fn to_bytes(&self) -> (r: Result<Vec<u8>, &'static str>)
        ensures
            r matches Ok(v) && v@ == self.encoding(),
    {
        let mut out = Vec::<u8>::new();
        proof {
            wire::lemma_byte_range_16();
        }
        push_be(&mut out, self.source_port as u128, 2);
        push_be(&mut out, self.destination_port as u128, 2);
        push_be(&mut out, self.length as u128, 2);
        push_be(&mut out, self.checksum as u128, 2);
        assert(out@ == self.encoding());
        Ok(out)
    }
}

/// The encoding of a header is eight bytes long.
pub proof fn lemma_header_len(h: Header)
    ensures
        h.encoding().len() == 8,
{
    wire::lemma_be_bytes_len(h.source_port as nat, 2);
    wire::lemma_be_bytes_len(h.destination_port as nat, 2);
    wire::lemma_be_bytes_len(h.length as nat, 2);
    wire::lemma_be_bytes_len(h.checksum as nat, 2);
}

/// The two bytes of a 16-bit value form one word equal to it.
proof fn lemma_be16_word(x: u16)
    ensures
        be_words(be_bytes(x as nat, 2)) == seq![x],
{
    wire::lemma_be_bytes_len(x as nat, 2);
    let b = be_bytes(x as nat, 2);
    assert(b[0] == (x / 256) % 256 && b[1] == x % 256) by {
        reveal_with_fuel(be_bytes, 3);
    }
    assert(be_words(b) =~= seq![x]);
}

/// The words of a header are its four fields.
pub proof fn lemma_header_word_sum(h: Header)
    ensures
        word_sum(be_words(h.encoding())) == h.source_port + h.destination_port + h.length
            + h.checksum,
{
    let (a, b, c, d) = (
        be_bytes(h.source_port as nat, 2),
        be_bytes(h.destination_port as nat, 2),
        be_bytes(h.length as nat, 2),
        be_bytes(h.checksum as nat, 2),
    );
    wire::lemma_be_bytes_len(h.source_port as nat, 2);
    wire::lemma_be_bytes_len(h.destination_port as nat, 2);
    wire::lemma_be_bytes_len(h.length as nat, 2);
    lemma_be16_word(h.source_port);
    lemma_be16_word(h.destination_port);
    lemma_be16_word(h.length);
    lemma_be16_word(h.checksum);
    lemma_be_words_append(a, b);
    lemma_be_words_append(a + b, c);
    lemma_be_words_append(a + b + c, d);
    let ws = seq![h.source_port, h.destination_port, h.length, h.checksum];
    assert(be_words(h.encoding()) == ws);
    assert(word_sum(ws) == h.source_port + h.destination_port + h.length + h.checksum) by {
        reveal_with_fuel(word_sum, 5);
        assert(ws.drop_last() =~= seq![h.source_port, h.destination_port, h.length]);
        assert(ws.drop_last().drop_last() =~= seq![h.source_port, h.destination_port]);
        assert(ws.drop_last().drop_last().drop_last() =~= seq![h.source_port]);
        assert(ws.drop_last().drop_last().drop_last().drop_last() =~= Seq::<u16>::empty());
    }
}

/// With a header's checksum in place, the words a checksum covers add up to
/// their sum with a zero checksum, plus the checksum.
pub proof fn lemma_checksum_in_place(pseudo: Seq<u8>, h: Header, payload: Seq<u8>)
    requires
        pseudo.len() % 2 == 0,
    ensures
        word_sum(be_words(pseudo + h.encoding() + pad_even(payload))) == word_sum(
            be_words(pseudo + Header { checksum: 0, ..h }.encoding() + pad_even(payload)),
        ) + h.checksum,
{
    let h0 = Header { checksum: 0, ..h };
    lemma_header_len(h);
    lemma_header_len(h0);
    lemma_header_word_sum(h);
    lemma_header_word_sum(h0);
    lemma_be_words_append(pseudo, h.encoding());
    lemma_be_words_append(pseudo + h.encoding(), pad_even(payload));
    lemma_be_words_append(pseudo, h0.encoding());
    lemma_be_words_append(pseudo + h0.encoding(), pad_even(payload));
    lemma_word_sum_append(be_words(pseudo), be_words(h.encoding()));
    lemma_word_sum_append(be_words(pseudo) + be_words(h.encoding()), be_words(pad_even(payload)));
    lemma_word_sum_append(be_words(pseudo), be_words(h0.encoding()));
    lemma_word_sum_append(be_words(pseudo) + be_words(h0.encoding()), be_words(pad_even(payload)));
}

/// Parsing the bytes that a header is written to gives the header back.
pub proof fn lemma_header_decode_encoding(h: Header)
    ensures
        Header::decode(h.encoding()) == h,
{
    wire::lemma_byte_range_16();
    let e = h.encoding();
    let (a, b, c, d) = (
        be_bytes(h.source_port as nat, 2),
        be_bytes(h.destination_port as nat, 2),
        be_bytes(h.length as nat, 2),
        be_bytes(h.checksum as nat, 2),
    );
    wire::lemma_be_bytes_len(h.source_port as nat, 2);
    wire::lemma_be_bytes_len(h.destination_port as nat, 2);
    wire::lemma_be_bytes_len(h.length as nat, 2);
    wire::lemma_be_bytes_len(h.checksum as nat, 2);
    assert(e.subrange(0, 2) == a);
    assert(e.subrange(2, 4) == b);
    assert(e.subrange(4, 6) == c);
    assert(e.subrange(6, 8) == d);
    wire::lemma_be_value_of_be_bytes(h.source_port as nat, 2);
    wire::lemma_be_value_of_be_bytes(h.destination_port as nat, 2);
    wire::lemma_be_value_of_be_bytes(h.length as nat, 2);
    wire::lemma_be_value_of_be_bytes(h.checksum as nat, 2);
}

/// Writing a parsed header gives back the eight bytes it was parsed from.
pub proof fn lemma_header_encoding_decode(raw: Seq<u8>)
    requires
        raw.len() >= 8,
    ensures
        Header::decode(raw).encoding() == raw.take(8),
{
    wire::lemma_byte_range_16();
    let parts = seq![raw.subrange(0, 2), raw.subrange(2, 4), raw.subrange(4, 6), raw.subrange(6, 8)];
    assert forall|k: int| 0 <= k < 4 implies be_bytes(be_value(#[trigger] parts[k]) as u16 as nat, 2)
        == parts[k] by {
        wire::lemma_be_value_bound(parts[k]);
        wire::lemma_be_bytes_of_be_value(parts[k]);
    }
    assert(raw.take(8) == parts[0] + parts[1] + parts[2] + parts[3]);
}

} // verus!
