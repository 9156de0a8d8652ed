//! Surplus area (RFC 9868): the option checksum (OCS), then options up to the
//! end of the options list.
use vstd::prelude::*;
use crate::option::{self, eol, nop, MAX_DATA, TOO_BIG};
use crate::wire::{be_bytes, be_value, push_be, push_slice, read_be};
use crate::{be_words, ones_complement, pad_even, word_sum, Checksum, Header};

verus! {

/// Error of `from_bytes` on fewer than two bytes.
pub const INCOMPLETE: &'static str = "`surplus` area incomplete, more data required.";

/// Error of `from_bytes` when the bytes end before an end-of-options-list.
pub const EOL_MISSING: &'static str = "`eol` missing.";

/// How many bytes `from_bytes` steps over for an option it has read: the kind,
/// for kinds that carry data a length byte, the data, and two bytes of
/// extended length when the data is longer than 0xfc.
pub open spec fn option_span(kind: u8, data_len: nat) -> nat {
    1 + (if option::is_single_byte(kind) {
        0nat
    } else {
        1nat
    }) + data_len + (if data_len > 0xfc {
        2nat
    } else {
        0nat
    })
}

/// An option that parses steps over at least one byte and no more than there are.
pub proof fn lemma_span_within(s: Seq<u8>)
    requires
        option::length_covers_header(s),
        option::parse(s) is Ok,
    ensures
        option::parse(s) matches Ok((k, d)) && 1 <= option_span(k, d.len()) <= s.len(),
{
    crate::wire::lemma_byte_range_16();
    if s.len() >= 2 && option::is_extended(s) && !option::is_single_byte(s[0]) {
        crate::wire::lemma_be_value_bound(s.subrange(2, 4));
    }
}

/// Whether `from_bytes` can step through the options of `s` without taking a
/// slice that ends before it starts (an option whose length does not cover
/// its own kind and length bytes).
pub open spec fn readable(s: Seq<u8>) -> bool
    decreases s.len(),
{
    option::length_covers_header(s) && match option::parse(s) {
        Ok((k, d)) => {
            proof {
                lemma_span_within(s);
            }
            let rest = s.skip(option_span(k, d.len()) as int);
            if k == eol::KIND || rest.len() == 0 {
                true
            } else {
                readable(rest)
            }
        },
        Err(_) => true,
    }
}

/// The options that `from_bytes` reads from `s`: one after another up to and
/// including an end-of-options-list, or the first error.
pub open spec fn parse_options(s: Seq<u8>) -> Result<Seq<(u8, Seq<u8>)>, &'static str>
    decreases s.len(),
    when readable(s)
{
    match option::parse(s) {
        Err(e) => Err(e),
        Ok((k, d)) => {
            proof {
                lemma_span_within(s);
            }
            let rest = s.skip(option_span(k, d.len()) as int);
            if rest.len() == 0 && k != eol::KIND {
                Err(EOL_MISSING)
            } else if k == eol::KIND {
                Ok(seq![(k, d)])
            } else {
                match parse_options(rest) {
                    Ok(os) => Ok(seq![(k, d)] + os),
                    Err(e) => Err(e),
                }
            }
        },
    }
}

/// Options with their data taken by value.
pub open spec fn options_view(os: Seq<(u8, &[u8])>) -> Seq<(u8, Seq<u8>)> {
    os.map_values(|o: (u8, &[u8])| (o.0, o.1@))
}

/// Puts options read earlier in front of what follows.
pub open spec fn prepend(
    os: Seq<(u8, Seq<u8>)>,
    r: Result<Seq<(u8, Seq<u8>)>, &'static str>,
) -> Result<Seq<(u8, Seq<u8>)>, &'static str> {
    match r {
        Ok(t) => Ok(os + t),
        Err(e) => Err(e),
    }
}

/// What `from_bytes` gives for a surplus area: the option checksum and the options.
pub open spec fn parse(bytes: Seq<u8>) -> Result<(u16, Seq<(u8, Seq<u8>)>), &'static str> {
    if bytes.len() < 2 {
        Err(INCOMPLETE)
    } else {
        match parse_options(bytes.skip(2)) {
            Ok(os) => Ok((be_value(bytes.take(2)) as u16, os)),
            Err(e) => Err(e),
        }
    }
}

/// A parse result with the options' data taken by value.
pub open spec fn parsed_view(r: Result<(u16, Vec<(u8, &[u8])>), &'static str>) -> Result<
    (u16, Seq<(u8, Seq<u8>)>),
    &'static str,
> {
    match r {
        Ok((ocs, os)) => Ok((ocs, options_view(os@))),
        Err(e) => Err(e),
    }
}

/// Reads a surplus area: the option checksum, then options up to and including
/// an end-of-options-list; the bytes after it (padding) are left to the caller.
pub fn from_bytes(bytes: &[u8]) -> (r: Result<(u16, Vec<(u8, &[u8])>), &'static str>)
    requires
        bytes@.len() >= 2 ==> readable(bytes@.skip(2)),
    ensures
        parsed_view(r) == parse(bytes@),
{
    if bytes.len() < 2 {
        return Err(INCOMPLETE);
    }
    proof {
        crate::wire::lemma_byte_range_16();
        assert(bytes@.subrange(0, 2) == bytes@.take(2));
    }
    let ocs = read_be(bytes, 0, 2) as u16;
    let mut data = vstd::slice::slice_subrange(bytes, 2, bytes.len());
    let mut options: Vec<(u8, &[u8])> = Vec::new();
    let ghost whole = bytes@.skip(2);
    assert(data@ == whole);
    assert(options_view(options@) + Seq::<(u8, Seq<u8>)>::empty() == Seq::<(u8, Seq<u8>)>::empty());
    assert(prepend(options_view(options@), parse_options(data@)) == parse_options(whole)) by {
        assert(options_view(options@) =~= Seq::<(u8, Seq<u8>)>::empty());
        if let Ok(t) = parse_options(whole) {
            assert(Seq::<(u8, Seq<u8>)>::empty() + t =~= t);
        }
    }
    loop
        invariant_except_break
            readable(data@),
            parse_options(whole) == prepend(options_view(options@), parse_options(data@)),
        invariant
            whole == bytes@.skip(2),
            bytes@.len() >= 2,
            ocs == be_value(bytes@.take(2)) as u16,
        ensures
            parse_options(whole) == Ok::<Seq<(u8, Seq<u8>)>, &'static str>(options_view(options@)),
        decreases data@.len(),
    {
        let data_len = data.len();
        let option = match option::from_bytes(data) {
            Ok(o) => o,
            Err(e) => {
                assert(option::parse(data@) == Err::<(u8, Seq<u8>), &'static str>(e));
                assert(parse_options(data@) == Err::<Seq<(u8, Seq<u8>)>, &'static str>(e));
                return Err(e);
            },
        };
        let ghost old_options = options_view(options@);
        let ghost old_data = data@;
        proof {
            lemma_span_within(data@);
        }
        options.push(option);
        assert(options_view(options@) == old_options.push((option.0, option.1@)));
        let dlen = option.1.len();
        let olength: usize = 1 + (if option.0 != eol::KIND && option.0 != nop::KIND {
            1
        } else {
            0
        }) + dlen + (if dlen > 0xfc {
            2
        } else {
            0
        });
        assert(olength == option_span(option.0, option.1@.len()));
        data = vstd::slice::slice_subrange(data, olength, data.len());
        assert(data@ == old_data.skip(olength as int));
        if data.len() == 0 && option.0 != eol::KIND {
            return Err(EOL_MISSING);
        } else if option.0 == eol::KIND {
            assert(old_options + seq![(option.0, option.1@)] == options_view(options@));
            break;
        }
        proof {
            let head = seq![(option.0, option.1@)];
            if let Ok(t) = parse_options(data@) {
                assert(old_options + (head + t) == options_view(options@) + t);
            }
        }
    }
    Ok((ocs, options))
}

/// Whether every option's data is small enough to be written.
pub open spec fn options_fit(os: Seq<(u8, Seq<u8>)>) -> bool {
    forall|i: int| 0 <= i < os.len() ==> (#[trigger] os[i]).1.len() <= MAX_DATA
}

/// The options written one after another, up to the first one too big to write.
pub open spec fn options_encoding(os: Seq<(u8, Seq<u8>)>) -> Seq<u8>
    decreases os.len(),
{
    if os.len() == 0 || os[0].1.len() > MAX_DATA {
        Seq::empty()
    } else {
        option::encoding(os[0].0, os[0].1) + options_encoding(os.drop_first())
    }
}

/// Writing options that all fit, then others, writes each group in turn.
pub proof fn lemma_options_encoding_append(a: Seq<(u8, Seq<u8>)>, b: Seq<(u8, Seq<u8>)>)
    requires
        options_fit(a),
    ensures
        options_encoding(a + b) == options_encoding(a) + options_encoding(b),
    decreases a.len(),
{
    if a.len() == 0 {
        assert(a + b == b);
    } else {
        assert(a[0].1.len() <= MAX_DATA);
        assert((a + b)[0] == a[0]);
        assert((a + b).drop_first() == a.drop_first() + b);
        assert forall|i: int| 0 <= i < a.drop_first().len() implies (
        #[trigger] a.drop_first()[i]).1.len() <= MAX_DATA by {
            assert(a.drop_first()[i] == a[i + 1]);
        }
        lemma_options_encoding_append(a.drop_first(), b);
    }
}

/// Writing the first `i + 1` options, all of which fit, adds option `i` to the first `i`.
proof fn lemma_options_encoding_step(os: Seq<(u8, Seq<u8>)>, i: int)
    requires
        0 <= i < os.len(),
        options_fit(os.take(i + 1)),
    ensures
        options_encoding(os.take(i + 1)) == options_encoding(os.take(i)) + option::encoding(
            os[i].0,
            os[i].1,
        ),
        options_encoding(os) == options_encoding(os.take(i + 1)) + options_encoding(
            os.skip(i + 1),
        ),
{
    let one = seq![os[i]];
    assert(os.take(i + 1) == os.take(i) + one);
    assert forall|j: int| 0 <= j < os.take(i).len() implies (#[trigger] os.take(i)[j]).1.len()
        <= MAX_DATA by {
        assert(os.take(i)[j] == os.take(i + 1)[j]);
    }
    lemma_options_encoding_append(os.take(i), one);
    assert(os.take(i + 1)[i] == os[i]);
    assert(os.take(i + 1)[i].1.len() <= MAX_DATA);
    assert(one[0] == os[i]);
    assert(one.drop_first() == Seq::<(u8, Seq<u8>)>::empty());
    assert(options_encoding(one.drop_first()) == Seq::<u8>::empty());
    assert(options_encoding(one) == option::encoding(os[i].0, os[i].1) + Seq::<u8>::empty());
    assert(os == os.take(i + 1) + os.skip(i + 1));
    lemma_options_encoding_append(os.take(i + 1), os.skip(i + 1));
}

/// Writes a surplus area: the option checksum, then each option.
pub fn to_bytes(tuple: (u16, Vec<(u8, &[u8])>)) -> (r: Result<Vec<u8>, &'static str>)
    ensures
        options_fit(options_view(tuple.1@)) ==> (r matches Ok(v) && v@ == be_bytes(
            tuple.0 as nat,
            2,
        ) + options_encoding(options_view(tuple.1@))),
        !options_fit(options_view(tuple.1@)) ==> r == Err::<Vec<u8>, &'static str>(TOO_BIG),
{
    let ghost os = options_view(tuple.1@);
    let mut bytes = Vec::<u8>::new();
    proof {
        crate::wire::lemma_byte_range_16();
    }
    push_be(&mut bytes, tuple.0 as u128, 2);
    let mut i: usize = 0;
    assert(os.take(0) == Seq::<(u8, Seq<u8>)>::empty());
    assert(bytes@ == be_bytes(tuple.0 as nat, 2) + options_encoding(os.take(0)));
    while i < tuple.1.len()
        invariant
            os == options_view(tuple.1@),
            i <= tuple.1@.len(),
            options_fit(os.take(i as int)),
            bytes@ == be_bytes(tuple.0 as nat, 2) + options_encoding(os.take(i as int)),
        decreases tuple.1@.len() - i,
    {
        let option = tuple.1[i];
        assert(os[i as int] == (option.0, option.1@));
        let encoded = match option::to_bytes(option) {
            Ok(v) => v,
            Err(e) => {
                assert(!options_fit(os));
                return Err(e);
            },
        };
        assert forall|j: int| 0 <= j < os.take(i + 1).len() implies (#[trigger] os.take(
            i + 1,
        )[j]).1.len() <= MAX_DATA by {
            if j < i {
                assert(os.take(i + 1)[j] == os.take(i as int)[j]);
            }
        }
        proof {
            lemma_options_encoding_step(os, i as int);
        }
        push_slice(&mut bytes, encoded.as_slice());
        i = i + 1;
    }
    assert(os.take(i as int) == os);
    Ok(bytes)
}

/// The bytes that the option checksum covers, before padding: a zero byte when
/// the UDP length is odd (so that the area's words line up with the
/// datagram's), the checksum field as two zero bytes, then the options.
pub open spec fn checksummed(header: Header, os: Seq<(u8, Seq<u8>)>) -> Seq<u8> {
    (if header.length % 2 == 1 {
        seq![0u8, 0u8, 0u8]
    } else {
        seq![0u8, 0u8]
    }) + options_encoding(os)
}

/// The option checksum (OCS) of a list of options that fit.
pub open spec fn option_checksum(header: Header, os: Seq<(u8, Seq<u8>)>) -> u16 {
    ones_complement(word_sum(be_words(pad_even(checksummed(header, os)))))
}

/// The longest even-length prefix of a byte sequence.
pub open spec fn even_part(s: Seq<u8>) -> Seq<u8> {
    s.take((s.len() - s.len() % 2) as int)
}

/// The bytes that the checksum computation adds up: all of them padded when
/// every option fits, else those before the first option too big to write,
/// without a trailing odd byte.
pub open spec fn fed(header: Header, os: Seq<(u8, Seq<u8>)>) -> Seq<u8> {
    if options_fit(os) {
        pad_even(checksummed(header, os))
    } else {
        even_part(checksummed(header, os))
    }
}

/// Whether the plain sum of the words added up fits in the 32-bit accumulator.
pub open spec fn checksum_fits(header: Header, os: Seq<(u8, Seq<u8>)>) -> bool {
    word_sum(be_words(fed(header, os))) <= u32::MAX
}

/// An even-length prefix sums to no more than the whole.
proof fn lemma_prefix_sum(x: Seq<u8>, y: Seq<u8>)
    requires
        x.len() % 2 == 0,
        x.len() <= y.len(),
        y.take(x.len() as int) == x,
    ensures
        word_sum(be_words(x)) <= word_sum(be_words(y)),
{
    assert(y == x + y.skip(x.len() as int));
    crate::lemma_be_words_append(x, y.skip(x.len() as int));
    crate::lemma_word_sum_append(be_words(x), be_words(y.skip(x.len() as int)));
}

/// Adding the whole words of what is pending keeps what has been added a
/// prefix of what is to be added, and keeps an odd byte at most.
proof fn lemma_feed_step(
    done: Seq<u8>,
    pending: Seq<u8>,
    even: int,
    next: Seq<u8>,
    tail: Seq<u8>,
    fit: bool,
)
    requires
        done.len() % 2 == 0,
        done + pending == next,
        even == pending.len() - pending.len() % 2,
    ensures
        ({
            let whole = next + tail;
            let nd = done + pending.take(even);
            let target = if fit {
                pad_even(whole)
            } else {
                even_part(whole)
            };
            &&& nd.len() % 2 == 0
            &&& nd.len() <= target.len()
            &&& target.take(nd.len() as int) == nd
            &&& nd + pending.skip(even) == next
        }),
{
    let whole = next + tail;
    let nd = done + pending.take(even);
    assert(nd == next.take(nd.len() as int));
    assert(pending.take(even) + pending.skip(even) == pending);
    assert(nd + pending.skip(even) == next);
    let target = if fit {
        pad_even(whole)
    } else {
        even_part(whole)
    };
    assert(target.take(nd.len() as int) == nd);
}

/// Computes the option checksum of `options` fed in chunks as they are written:
/// after each option the whole words are added and an odd byte is kept back.
fn options_checksum(options: &Vec<(u8, &[u8])>, header: Header) -> (r: Result<u16, &'static str>)
    requires
        checksum_fits(header, options_view(options@)),
    ensures
        options_fit(options_view(options@)) ==> r == Ok::<u16, &'static str>(
            option_checksum(header, options_view(options@)),
        ),
        !options_fit(options_view(options@)) ==> r == Err::<u16, &'static str>(TOO_BIG),
{
    let ghost os = options_view(options@);
    let ghost target = fed(header, os);
    let mut bytes = Vec::<u8>::new();
    let mut cs = Checksum::new();
    let length = header.length;
    assert((length & 0x1 == 0x1) == (length % 2 == 1)) by (bit_vector);
    if header.length & 0x1 == 0x1 {
        bytes.push(0);
    }
    bytes.push(0);
    bytes.push(0);
    let ghost mut done: Seq<u8> = Seq::empty();
    assert(os.take(0) == Seq::<(u8, Seq<u8>)>::empty());
    assert(done + bytes@ == checksummed(header, os.take(0)));
    let mut i: usize = 0;
    while i < options.len()
        invariant
            os == options_view(options@),
            target == fed(header, os),
            checksum_fits(header, os),
            i <= options@.len(),
            options_fit(os.take(i as int)),
            done + bytes@ == checksummed(header, os.take(i as int)),
            done.len() % 2 == 0,
            done.len() <= target.len(),
            target.take(done.len() as int) == done,
            cs.accumulator == word_sum(be_words(done)),
        decreases options@.len() - i,
    {
        let option = options[i];
        assert(os[i as int] == (option.0, option.1@));
        let encoded = match option::to_bytes(option) {
            Ok(v) => v,
            Err(e) => {
                assert(!options_fit(os));
                return Err(e);
            },
        };
        assert forall|j: int| 0 <= j < os.take(i + 1).len() implies (#[trigger] os.take(
            i + 1,
        )[j]).1.len() <= MAX_DATA by {
            if j < i {
                assert(os.take(i + 1)[j] == os.take(i as int)[j]);
            }
        }
        proof {
            lemma_options_encoding_step(os, i as int);
        }
        let ghost before = bytes@;
        push_slice(&mut bytes, encoded.as_slice());
        proof {
            let pre = if header.length % 2 == 1 {
                seq![0u8, 0u8, 0u8]
            } else {
                seq![0u8, 0u8]
            };
            let e = option::encoding(option.0, option.1@);
            assert(encoded@ == e);
            assert(checksummed(header, os.take(i + 1)) == pre + (options_encoding(os.take(i as int))
                + e));
            assert(done + before == pre + options_encoding(os.take(i as int)));
            assert(done + bytes@ == (done + before) + e);
            assert(done + bytes@ == checksummed(header, os.take(i + 1)));
        }
        let len = bytes.len();
        let even = len - len % 2;
        let chunk = vstd::slice::slice_subrange(bytes.as_slice(), 0, even);
        let ghost next = checksummed(header, os.take(i + 1));
        let ghost new_done = done + chunk@;
        proof {
            lemma_feed_step(done, bytes@, even as int, next, options_encoding(os.skip(i + 1)), options_fit(os));
            assert(checksummed(header, os) == next + options_encoding(os.skip(i + 1)));
            lemma_prefix_sum(new_done, target);
            crate::lemma_be_words_append(done, chunk@);
            crate::lemma_word_sum_append(be_words(done), be_words(chunk@));
        }
        let _ = cs.update_from_bytes(chunk);
        let mut rest = Vec::<u8>::new();
        push_slice(&mut rest, vstd::slice::slice_subrange(bytes.as_slice(), even, len));
        bytes = rest;
        proof {
            done = new_done;
        }
        i = i + 1;
    }
    assert(os.take(i as int) == os);
    let len = bytes.len();
    assert((len & 0x1 == 0x1) == (len % 2 == 1)) by (bit_vector);
    if bytes.len() & 0x1 == 0x1 {
        bytes.push(0);
    }
    proof {
        assert(done + bytes@ == pad_even(checksummed(header, os)));
        crate::lemma_be_words_append(done, bytes@);
        crate::lemma_word_sum_append(be_words(done), be_words(bytes@));
    }
    let _ = cs.update_from_bytes(bytes.as_slice());
    Ok(cs.digest())
}

/// Whether a list of options holds an end-of-options-list.
pub open spec fn has_eol(os: Seq<(u8, Seq<u8>)>) -> bool {
    exists|i: int| 0 <= i < os.len() && (#[trigger] os[i]).0 == eol::KIND
}

/// The options with an end-of-options-list appended when they hold none.
pub open spec fn with_eol(os: Seq<(u8, Seq<u8>)>) -> Seq<(u8, Seq<u8>)> {
    if has_eol(os) {
        os
    } else {
        os.push((eol::KIND, Seq::empty()))
    }
}

/// What `make` gives: the option checksum and the options ended by an
/// end-of-options-list, or the error of an option too big to write.
pub open spec fn made(os: Seq<(u8, Seq<u8>)>, header: Header) -> Result<
    (u16, Seq<(u8, Seq<u8>)>),
    &'static str,
> {
    if options_fit(with_eol(os)) {
        Ok((option_checksum(header, with_eol(os)), with_eol(os)))
    } else {
        Err(TOO_BIG)
    }
}

/// What `check` answers: whether the option checksum is right, or the error
/// of an option too big to write.
pub open spec fn verdict(ocs: u16, os: Seq<(u8, Seq<u8>)>, header: Header) -> Result<
    bool,
    &'static str,
> {
    if options_fit(os) {
        Ok(ocs == option_checksum(header, os))
    } else {
        Err(TOO_BIG)
    }
}

/// A result of `make` with the options' data taken by value.
pub open spec fn made_view(r: Result<(u16, Vec<(u8, &[u8])>), &'static str>) -> Result<
    (u16, Seq<(u8, Seq<u8>)>),
    &'static str,
> {
    match r {
        Ok((ocs, os)) => Ok((ocs, options_view(os@))),
        Err(e) => Err(e),
    }
}

/// Completes a surplus area: ends the options with an end-of-options-list if
/// they hold none, and computes their option checksum.
pub fn make<'a>(mut options: Vec<(u8, &'a [u8])>, header: Header) -> (r: Result<
    (u16, Vec<(u8, &'a [u8])>),
    &'static str,
>)
    requires
        checksum_fits(header, with_eol(options_view(options@))),
    ensures
        made_view(r) == made(options_view(options@), header),
{
    let ghost os = options_view(options@);
    let mut found = false;
    let mut i: usize = 0;
    while i < options.len()
        invariant
            os == options_view(options@),
            i <= options@.len(),
            found <==> exists|j: int| 0 <= j < i && (#[trigger] os[j]).0 == eol::KIND,
        decreases options@.len() - i,
    {
        assert(os[i as int].0 == options[i as int].0);
        if options[i].0 == eol::KIND {
            found = true;
        }
        i = i + 1;
    }
    if !found {
        let eol = match eol::to_option() {
            Ok(o) => o,
            Err(e) => return Err(e),
        };
        assert(eol.1@ =~= Seq::<u8>::empty());
        options.push(eol);
        assert(options_view(options@) =~= os.push((eol::KIND, Seq::<u8>::empty())));
    }
    assert(options_view(options@) == with_eol(os));
    let checksum = match options_checksum(&options, header) {
        Ok(c) => c,
        Err(e) => return Err(e),
    };
    Ok((checksum, options))
}

/// Checks the option checksum of a surplus area.
pub fn check(tuple: (u16, Vec<(u8, &[u8])>), header: Header) -> (r: Result<bool, &'static str>)
    requires
        checksum_fits(header, options_view(tuple.1@)),
    ensures
        r == verdict(tuple.0, options_view(tuple.1@), header),
{
    let checksum = match options_checksum(&tuple.1, header) {
        Ok(c) => c,
        Err(e) => return Err(e),
    };
    Ok(tuple.0 == checksum)
}

/// A surplus area that `make` completed holds an end-of-options-list and
/// passes `check`.
pub proof fn lemma_make_then_check(os: Seq<(u8, Seq<u8>)>, header: Header)
    requires
        options_fit(os),
    ensures
        made(os, header) matches Ok((ocs, done)) && has_eol(done) && verdict(ocs, done, header)
            == Ok::<bool, &'static str>(true),
{
    let w = with_eol(os);
    if !has_eol(os) {
        assert(w[os.len() as int].0 == eol::KIND);
        assert forall|i: int| 0 <= i < w.len() implies (#[trigger] w[i]).1.len() <= MAX_DATA by {
            if i < os.len() {
                assert(w[i] == os[i]);
            }
        }
    }
}

/// The option checksum that `make` computes: for an odd UDP length, the
/// checksum of a zero byte, the OCS field as two zero bytes and the written
/// options, padded to an even length; for an even one, the same without the
/// leading zero byte. So it depends on the UDP length only through its parity.
pub proof fn lemma_make_ocs(os: Seq<(u8, Seq<u8>)>, header: Header, other: Header)
    requires
        options_fit(os),
        header.length % 2 == other.length % 2,
    ensures
        made(os, header) matches Ok((ocs, done)) && ocs == ones_complement(
            word_sum(
                be_words(
                    pad_even(
                        (if header.length % 2 == 1 {
                            seq![0u8]
                        } else {
                            Seq::<u8>::empty()
                        }) + seq![0u8, 0u8] + options_encoding(done),
                    ),
                ),
            ),
        ),
        made(os, header) == made(os, other),
{
    lemma_make_then_check(os, header);
    let done = with_eol(os);
    if header.length % 2 == 1 {
        assert(seq![0u8] + seq![0u8, 0u8] =~= seq![0u8, 0u8, 0u8]);
    } else {
        assert(Seq::<u8>::empty() + seq![0u8, 0u8] =~= seq![0u8, 0u8]);
    }
}

/// `make` keeps the options given, in their order, and adds nothing but an
/// end-of-options-list without data, and that only when none is there.
pub proof fn lemma_make_options(os: Seq<(u8, Seq<u8>)>, header: Header)
    requires
        options_fit(os),
    ensures
        made(os, header) is Ok,
        made(os, header) matches Ok((ocs, done)) && done.take(os.len() as int) == os,
        (exists|i: int| 0 <= i < os.len() && os[i].0 == 0) ==> (made(os, header) matches Ok(
            (ocs, done),
        ) && done == os),
        !(exists|i: int| 0 <= i < os.len() && os[i].0 == 0) ==> (made(os, header) matches Ok(
            (ocs, done),
        ) && done.len() == os.len() + 1 && done.last() == (0u8, Seq::<u8>::empty())),
{
    lemma_make_then_check(os, header);
    assert(with_eol(os).take(os.len() as int) == os);
}

/// `check` accepts an option checksum only when it verifies: added to the sum
/// of the words it covers (a zero byte first for an odd UDP length, the OCS
/// field as two zero bytes, the options, padded to an even length) it gives a
/// sum whose checksum is zero. The checksum `make` computes is accepted.
pub proof fn lemma_check_accepts_verifying_ocs(
    ocs: u16,
    os: Seq<(u8, Seq<u8>)>,
    header: Header,
)
    ensures
        verdict(ocs, os, header) == Ok::<bool, &'static str>(true) ==> ones_complement(
            word_sum(
                be_words(
                    pad_even(
                        (if header.length % 2 == 1 {
                            seq![0u8]
                        } else {
                            Seq::<u8>::empty()
                        }) + seq![0u8, 0u8] + options_encoding(os),
                    ),
                ),
            ) + ocs as nat,
        ) == 0,
        options_fit(os) ==> (verdict(ocs, os, header) == Ok::<bool, &'static str>(true) <==> ocs
            == ones_complement(
            word_sum(
                be_words(
                    pad_even(
                        (if header.length % 2 == 1 {
                            seq![0u8]
                        } else {
                            Seq::<u8>::empty()
                        }) + seq![0u8, 0u8] + options_encoding(os),
                    ),
                ),
            ),
        )),
{
    if header.length % 2 == 1 {
        assert(seq![0u8] + seq![0u8, 0u8] =~= seq![0u8, 0u8, 0u8]);
    } else {
        assert(Seq::<u8>::empty() + seq![0u8, 0u8] =~= seq![0u8, 0u8]);
    }
    crate::lemma_complement_verifies(word_sum(be_words(pad_even(checksummed(header, os)))));
}

/// Whether `from_bytes` reads written options back one for one: the last is
/// an end-of-options-list, none before it is, each fits, and single-byte
/// kinds (which are written without their data) carry none.
pub open spec fn reads_back(os: Seq<(u8, Seq<u8>)>) -> bool {
    &&& os.len() > 0
    &&& os.last() == (eol::KIND, Seq::<u8>::empty())
    &&& forall|i: int|
        0 <= i < os.len() - 1 ==> (#[trigger] os[i]).0 != eol::KIND && os[i].1.len() <= MAX_DATA
            && (option::is_single_byte(os[i].0) ==> os[i].1.len() == 0)
}

/// Written options that read back one for one are read back, and can be stepped through.
proof fn lemma_options_roundtrip(os: Seq<(u8, Seq<u8>)>)
    requires
        reads_back(os),
    ensures
        readable(options_encoding(os)),
        parse_options(options_encoding(os)) == Ok::<Seq<(u8, Seq<u8>)>, &'static str>(os),
    decreases os.len(),
{
    let e = options_encoding(os);
    if os.len() == 1 {
        assert(os[0] == (eol::KIND, Seq::<u8>::empty()));
        assert(os.drop_first() == Seq::<(u8, Seq<u8>)>::empty());
        assert(e == option::encoding(eol::KIND, Seq::<u8>::empty()) + Seq::<u8>::empty());
        assert(e =~= seq![0u8]);
        option::lemma_single_byte_option(eol::KIND, Seq::<u8>::empty(), Seq::<u8>::empty());
        assert(e == seq![0u8] + Seq::<u8>::empty());
        assert(seq![(eol::KIND, Seq::<u8>::empty())] =~= os);
    } else {
        let (k, d) = os[0];
        let tail = os.drop_first();
        assert(k != eol::KIND && d.len() <= MAX_DATA);
        assert(tail.last() == os.last());
        assert forall|i: int| 0 <= i < tail.len() - 1 implies (#[trigger] tail[i]).0 != eol::KIND
            && tail[i].1.len() <= MAX_DATA && (option::is_single_byte(tail[i].0)
            ==> tail[i].1.len() == 0) by {
            assert(tail[i] == os[i + 1]);
        }
        lemma_options_roundtrip(tail);
        let te = options_encoding(tail);
        assert(e == option::encoding(k, d) + te);
        if option::is_single_byte(k) {
            option::lemma_single_byte_option(k, d, te);
            assert(d =~= Seq::<u8>::empty());
        } else {
            option::lemma_option_roundtrip(k, d, te);
        }
        if d.len() > 0xfc {
            crate::wire::lemma_byte_range_16();
            crate::wire::lemma_be_bytes_len((d.len() + 4) as nat, 2);
        }
        assert(option_span(k, d.len()) == option::encoding(k, d).len());
        assert(e.skip(option_span(k, d.len()) as int) == te);
        assert(te.len() > 0) by {
            lemma_options_encoding_nonempty(tail);
        }
        assert(seq![(k, d)] + tail == os);
    }
}

/// Writing options of which the first fits writes something.
proof fn lemma_options_encoding_nonempty(os: Seq<(u8, Seq<u8>)>)
    requires
        os.len() > 0,
        os[0].1.len() <= MAX_DATA,
    ensures
        options_encoding(os).len() > 0,
{
}

/// Reading back a written surplus area gives its option checksum and options,
/// when the options are such that they read back one for one.
pub proof fn lemma_surplus_roundtrip(ocs: u16, os: Seq<(u8, Seq<u8>)>)
    requires
        reads_back(os),
    ensures
        readable((be_bytes(ocs as nat, 2) + options_encoding(os)).skip(2)),
        parse(be_bytes(ocs as nat, 2) + options_encoding(os)) == Ok::<
            (u16, Seq<(u8, Seq<u8>)>),
            &'static str,
        >((ocs, os)),
{
    crate::wire::lemma_byte_range_16();
    crate::wire::lemma_be_bytes_len(ocs as nat, 2);
    crate::wire::lemma_be_value_of_be_bytes(ocs as nat, 2);
    let b = be_bytes(ocs as nat, 2) + options_encoding(os);
    assert(b.skip(2) == options_encoding(os));
    assert(b.take(2) == be_bytes(ocs as nat, 2));
    lemma_options_roundtrip(os);
}

} // verus!
