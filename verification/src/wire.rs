//! Big-endian (network order) integers on the wire.
use vstd::prelude::*;

verus! {

/// `256` to the power `n`: the number of values that `n` bytes can hold.
pub open spec fn byte_range(n: nat) -> nat
    decreases n,
{
    if n == 0 {
        1
    } else {
        256 * byte_range((n - 1) as nat)
    }
}

/// The unsigned integer that a byte sequence spells in network order.
pub open spec fn be_value(s: Seq<u8>) -> nat
    decreases s.len(),
{
    if s.len() == 0 {
        0
    } else {
        be_value(s.drop_last()) * 256 + s.last() as nat
    }
}

/// The `n` bytes that spell `x` in network order (the low `8 * n` bits of `x`).
pub open spec fn be_bytes(x: nat, n: nat) -> Seq<u8>
    decreases n,
{
    if n == 0 {
        Seq::empty()
    } else {
        be_bytes(x / 256, (n - 1) as nat).push((x % 256) as u8)
    }
}

/// More bytes hold more values.
pub proof fn lemma_byte_range_monotone(i: nat, j: nat)
    requires
        i <= j,
    ensures
        1 <= byte_range(i) <= byte_range(j),
    decreases j,
{
    if j > i {
        lemma_byte_range_monotone(i, (j - 1) as nat);
    } else if i > 0 {
        lemma_byte_range_monotone((i - 1) as nat, (i - 1) as nat);
    }
}

/// The ranges of the integer widths on the wire.
pub proof fn lemma_byte_range_16()
    ensures
        byte_range(16) == 0x1_0000_0000_0000_0000_0000_0000_0000_0000,
        byte_range(8) == 0x1_0000_0000_0000_0000,
        byte_range(4) == 0x1_0000_0000,
        byte_range(2) == 0x1_0000,
        byte_range(1) == 0x100,
{
    reveal_with_fuel(byte_range, 17);
}

/// `be_bytes(x, n)` is `n` bytes long.
pub proof fn lemma_be_bytes_len(x: nat, n: nat)
    ensures
        be_bytes(x, n).len() == n,
    decreases n,
{
    if n > 0 {
        lemma_be_bytes_len(x / 256, (n - 1) as nat);
    }
}

/// A byte sequence spells a value below the range of its length.
pub proof fn lemma_be_value_bound(s: Seq<u8>)
    ensures
        be_value(s) < byte_range(s.len()),
    decreases s.len(),
{
    if s.len() > 0 {
        lemma_be_value_bound(s.drop_last());
    }
}

/// Reading back the bytes written for a value in range gives the value.
pub proof fn lemma_be_value_of_be_bytes(x: nat, n: nat)
    requires
        x < byte_range(n),
    ensures
        be_value(be_bytes(x, n)) == x,
    decreases n,
{
    if n > 0 {
        assert(x / 256 < byte_range((n - 1) as nat));
        lemma_be_value_of_be_bytes(x / 256, (n - 1) as nat);
        let s = be_bytes(x, n);
        assert(s.drop_last() == be_bytes(x / 256, (n - 1) as nat));
    }
}

/// Writing back the value that bytes spell gives the same bytes.
pub proof fn lemma_be_bytes_of_be_value(s: Seq<u8>)
    ensures
        be_bytes(be_value(s), s.len()) == s,
    decreases s.len(),
{
    if s.len() > 0 {
        lemma_be_bytes_of_be_value(s.drop_last());
        let v = be_value(s.drop_last());
        assert((v * 256 + s.last() as nat) / 256 == v);
        assert((v * 256 + s.last() as nat) % 256 == s.last() as nat);
        assert(s == s.drop_last().push(s.last()));
    }
}

/// The spelling of `x` in `m + n` bytes is that of its high part in `m` bytes
/// followed by that of its low part in `n` bytes.
pub proof fn lemma_be_bytes_split(x: nat, m: nat, n: nat)
    ensures
        be_bytes(x, m + n) == be_bytes(x / byte_range(n), m) + be_bytes(x % byte_range(n), n),
    decreases n,
{
    lemma_byte_range_monotone(0, n);
    if n == 0 {
        assert(be_bytes(x, m) + be_bytes(0, 0) == be_bytes(x, m));
    } else {
        let r = byte_range((n - 1) as nat);
        lemma_byte_range_monotone(0, (n - 1) as nat);
        lemma_be_bytes_split(x / 256, m, (n - 1) as nat);
        vstd::arithmetic::div_mod::lemma_div_denominator(x as int, 256, r as int);
        vstd::arithmetic::div_mod::lemma_mod_breakdown(x as int, 256, r as int);
        vstd::arithmetic::div_mod::lemma_mod_mod(x as int, 256, r as int);
        let lo = x % byte_range(n);
        assert(lo / 256 == (x / 256) % r);
        assert(lo % 256 == x % 256);
        assert(be_bytes(x, m + n) == be_bytes(x / 256, (m + n - 1) as nat).push((x % 256) as u8));
    }
}

/// Reads the `n`-byte network-order integer at `start`.
pub fn read_be(bytes: &[u8], start: usize, n: usize) -> (r: u128)
    requires
        start + n <= bytes@.len(),
        n <= 16,
    ensures
        r == be_value(bytes@.subrange(start as int, start + n)),
        r < byte_range(n as nat),
{
    proof {
        lemma_byte_range_16();
        lemma_byte_range_monotone(n as nat, 16);
    }
    let len: usize = bytes.len();
    let mut acc: u128 = 0;
    let mut i: usize = 0;
    while i < n
        invariant
            len == bytes@.len(),
            i <= n <= 16,
            start + n <= bytes@.len(),
            byte_range(n as nat) <= 0x1_0000_0000_0000_0000_0000_0000_0000_0000,
            acc == be_value(bytes@.subrange(start as int, start + i)),
            acc < byte_range(i as nat),
        decreases n - i,
    {
        proof {
            lemma_byte_range_monotone((i + 1) as nat, n as nat);
            assert(bytes@.subrange(start as int, start + i + 1).drop_last() == bytes@.subrange(
                start as int,
                start + i,
            ));
        }
        acc = acc * 256 + bytes[start + i] as u128;
        i = i + 1;
    }
    acc
}

/// Appends the `n`-byte network-order spelling of `x`.
pub fn push_be(out: &mut Vec<u8>, x: u128, n: usize)
    requires
        x < byte_range(n as nat),
    ensures
        final(out)@ == old(out)@ + be_bytes(x as nat, n as nat),
    decreases n,
{
    if n == 0 {
        assert(old(out)@ + be_bytes(x as nat, 0) == old(out)@);
        return;
    }
    push_be(out, x / 256, n - 1);
    out.push((x % 256) as u8);
}

/// Appends every byte of `data`.
pub fn push_slice(out: &mut Vec<u8>, data: &[u8])
    ensures
        final(out)@ == old(out)@ + data@,
{
    let ghost start = out@;
    let mut i: usize = 0;
    while i < data.len()
        invariant
            i <= data@.len(),
            out@ == start + data@.take(i as int),
        decreases data@.len() - i,
    {
        proof {
            assert(data@.take(i + 1) == data@.take(i as int).push(data@[i as int]));
        }
        out.push(data[i]);
        i = i + 1;
    }
    assert(data@.take(i as int) == data@);
}

} // verus!
