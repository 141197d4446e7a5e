//! Fixed-width big-endian integers, the only integer form in the header.

use vstd::prelude::*;

verus! {

/// The eight bytes of `x`, most significant first.
#[verifier::opaque]
pub open spec fn u64_be(x: u64) -> Seq<u8> {
    seq![
        (x / 0x100_0000_0000_0000) as u8,
        ((x / 0x1_0000_0000_0000) % 0x100) as u8,
        ((x / 0x100_0000_0000) % 0x100) as u8,
        ((x / 0x1_0000_0000) % 0x100) as u8,
        ((x / 0x100_0000) % 0x100) as u8,
        ((x / 0x1_0000) % 0x100) as u8,
        ((x / 0x100) % 0x100) as u8,
        (x % 0x100) as u8,
    ]
}

/// The number that the first eight bytes of `s` spell, most significant first.
#[verifier::opaque]
pub open spec fn u64_from_be(s: Seq<u8>) -> u64
    recommends
        s.len() >= 8,
{
    (s[0] as int * 0x100_0000_0000_0000 + s[1] as int * 0x1_0000_0000_0000 + s[2] as int
        * 0x100_0000_0000 + s[3] as int * 0x1_0000_0000 + s[4] as int * 0x100_0000 + s[5] as int
        * 0x1_0000 + s[6] as int * 0x100 + s[7] as int) as u64
}

/// The eight digits of a `u64` in base 256 sum up to it again.
proof fn lemma_digits_sum(x: u64)
    by (bit_vector)
    ensures
        (x / 0x100_0000_0000_0000) < 0x100,
        (x / 0x100_0000_0000_0000) * 0x100_0000_0000_0000 + ((x / 0x1_0000_0000_0000) % 0x100)
            * 0x1_0000_0000_0000 + ((x / 0x100_0000_0000) % 0x100) * 0x100_0000_0000 + ((x
            / 0x1_0000_0000) % 0x100) * 0x1_0000_0000 + ((x / 0x100_0000) % 0x100) * 0x100_0000
            + ((x / 0x1_0000) % 0x100) * 0x1_0000 + ((x / 0x100) % 0x100) * 0x100 + (x % 0x100)
            == x,
{
}

/// Eight bytes are the base-256 digits of the number they spell.
proof fn lemma_sum_digits(b0: u8, b1: u8, b2: u8, b3: u8, b4: u8, b5: u8, b6: u8, b7: u8, v: u64)
    by (bit_vector)
    requires
        v == b0 as u64 * 0x100_0000_0000_0000 + b1 as u64 * 0x1_0000_0000_0000 + b2 as u64
            * 0x100_0000_0000 + b3 as u64 * 0x1_0000_0000 + b4 as u64 * 0x100_0000 + b5 as u64
            * 0x1_0000 + b6 as u64 * 0x100 + b7 as u64,
    ensures
        v / 0x100_0000_0000_0000 == b0,
        (v / 0x1_0000_0000_0000) % 0x100 == b1,
        (v / 0x100_0000_0000) % 0x100 == b2,
        (v / 0x1_0000_0000) % 0x100 == b3,
        (v / 0x100_0000) % 0x100 == b4,
        (v / 0x1_0000) % 0x100 == b5,
        (v / 0x100) % 0x100 == b6,
        v % 0x100 == b7,
{
}

/// Reading back what `u64_be` wrote gives the number again, whatever follows.
pub proof fn lemma_u64_be_round_trip(x: u64, rest: Seq<u8>)
    ensures
        u64_be(x).len() == 8,
        u64_from_be(u64_be(x) + rest) == x,
{
    reveal(u64_be);
    reveal(u64_from_be);
    let s = u64_be(x) + rest;
    lemma_digits_sum(x);
    assert(s[0] == u64_be(x)[0]);
    assert(s[1] == u64_be(x)[1]);
    assert(s[2] == u64_be(x)[2]);
    assert(s[3] == u64_be(x)[3]);
    assert(s[4] == u64_be(x)[4]);
    assert(s[5] == u64_be(x)[5]);
    assert(s[6] == u64_be(x)[6]);
    assert(s[7] == u64_be(x)[7]);
}

/// Writing what `u64_from_be` read gives the same eight bytes again.
pub proof fn lemma_u64_be_canonical(s: Seq<u8>)
    requires
        s.len() >= 8,
    ensures
        u64_be(u64_from_be(s)) == s.subrange(0, 8),
{
    reveal(u64_be);
    reveal(u64_from_be);
    let v = u64_from_be(s);
    assert(v == s[0] as u64 * 0x100_0000_0000_0000 + s[1] as u64 * 0x1_0000_0000_0000 + s[2] as u64
        * 0x100_0000_0000 + s[3] as u64 * 0x1_0000_0000 + s[4] as u64 * 0x100_0000 + s[5] as u64
        * 0x1_0000 + s[6] as u64 * 0x100 + s[7] as u64);
    lemma_sum_digits(s[0], s[1], s[2], s[3], s[4], s[5], s[6], s[7], v);
    assert(u64_be(v) =~= s.subrange(0, 8));
}

/// The big-endian form of a `u64` is eight bytes long.
pub proof fn lemma_u64_be_len(x: u64)
    ensures
        u64_be(x).len() == 8,
{
    reveal(u64_be);
}

/// Appends the big-endian form of `x` to `out`.
pub fn push_u64_be(out: &mut Vec<u8>, x: u64)
    ensures
        final(out)@ == old(out)@ + u64_be(x),
{
    out.push((x / 0x100_0000_0000_0000) as u8);
    out.push(((x / 0x1_0000_0000_0000) % 0x100) as u8);
    out.push(((x / 0x100_0000_0000) % 0x100) as u8);
    out.push(((x / 0x1_0000_0000) % 0x100) as u8);
    out.push(((x / 0x100_0000) % 0x100) as u8);
    out.push(((x / 0x1_0000) % 0x100) as u8);
    out.push(((x / 0x100) % 0x100) as u8);
    out.push((x % 0x100) as u8);
    reveal(u64_be);
    assert(out@ =~= old(out)@ + u64_be(x));
}

/// Reads a big-endian `u64` at `pos`, or `None` where fewer than eight bytes
/// are left.
pub fn read_u64_be(bytes: &[u8], pos: usize) -> (r: Option<u64>)
    ensures
        r is Some <==> pos + 8 <= bytes@.len(),
        r matches Some(x) ==> x == u64_from_be(bytes@.skip(pos as int)),
{
    if bytes.len() < 8 || pos > bytes.len() - 8 {
        return None;
    }
    let b0: u64 = bytes[pos] as u64;
    let b1: u64 = bytes[pos + 1] as u64;
    let b2: u64 = bytes[pos + 2] as u64;
    let b3: u64 = bytes[pos + 3] as u64;
    let b4: u64 = bytes[pos + 4] as u64;
    let b5: u64 = bytes[pos + 5] as u64;
    let b6: u64 = bytes[pos + 6] as u64;
    let b7: u64 = bytes[pos + 7] as u64;
    proof {
        reveal(u64_from_be);
    }
    Some(
        b0 * 0x100_0000_0000_0000 + b1 * 0x1_0000_0000_0000 + b2 * 0x100_0000_0000 + b3
            * 0x1_0000_0000 + b4 * 0x100_0000 + b5 * 0x1_0000 + b6 * 0x100 + b7,
    )
}

} // verus!
