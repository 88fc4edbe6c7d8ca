//! Fixed-width integers as little-endian and big-endian byte sequences.

use vstd::prelude::*;

verus! {

/// The two bytes of `x`, least significant first.
pub open spec fn le16(x: u16) -> Seq<u8> {
    seq![(x % 0x100) as u8, (x / 0x100) as u8]
}

/// The four bytes of `x`, least significant first.
pub open spec fn le32(x: u32) -> Seq<u8> {
    seq![
        (x % 0x100) as u8,
        (x / 0x100 % 0x100) as u8,
        (x / 0x1_0000 % 0x100) as u8,
        (x / 0x100_0000) as u8,
    ]
}

/// The eight bytes of `x`, least significant first.
pub open spec fn le64(x: u64) -> Seq<u8> {
    le32((x % 0x1_0000_0000) as u32) + le32((x / 0x1_0000_0000) as u32)
}

/// The two bytes of `x`, most significant first.
pub open spec fn be16(x: u16) -> Seq<u8> {
    seq![(x / 0x100) as u8, (x % 0x100) as u8]
}

/// The four bytes of `x`, most significant first.
pub open spec fn be32(x: u32) -> Seq<u8> {
    seq![
        (x / 0x100_0000) as u8,
        (x / 0x1_0000 % 0x100) as u8,
        (x / 0x100 % 0x100) as u8,
        (x % 0x100) as u8,
    ]
}

/// The number that four bytes spell, least significant first.
pub open spec fn from_le32(s: Seq<u8>) -> int {
    s[0] + 0x100 * s[1] + 0x1_0000 * s[2] + 0x100_0000 * s[3]
}

/// The number that eight bytes spell, least significant first.
pub open spec fn from_le64(s: Seq<u8>) -> int {
    from_le32(s.subrange(0, 4)) + 0x1_0000_0000 * from_le32(s.subrange(4, 8))
}

/// The number that two bytes spell, most significant first.
pub open spec fn from_be16(s: Seq<u8>) -> int {
    0x100 * s[0] + s[1]
}

/// The number that four bytes spell, most significant first.
pub open spec fn from_be32(s: Seq<u8>) -> int {
    0x100_0000 * s[0] + 0x1_0000 * s[1] + 0x100 * s[2] + s[3]
}

/// `n` zero bytes.
pub open spec fn zeros(n: nat) -> Seq<u8> {
    Seq::new(n, |i: int| 0u8)
}

/// `s` and zeros behind it, `n` bytes in all.
pub open spec fn padded(s: Seq<u8>, n: nat) -> Seq<u8> {
    s + zeros((n - s.len()) as nat)
}

/// Reading back what was written gives the number written.
#[verifier::rlimit(40)]
pub proof fn lemma_le32_round_trip(x: u32)
    ensures
        le32(x).len() == 4,
        from_le32(le32(x)) == x,
{
}

/// Reading back what was written gives the number written.
#[verifier::rlimit(40)]
pub proof fn lemma_le64_round_trip(x: u64)
    ensures
        le64(x).len() == 8,
        from_le64(le64(x)) == x,
{
    let lo = (x % 0x1_0000_0000) as u32;
    let hi = (x / 0x1_0000_0000) as u32;
    assert(le64(x).subrange(0, 4) =~= le32(lo));
    assert(le64(x).subrange(4, 8) =~= le32(hi));
    assert(x == lo + 0x1_0000_0000 * hi);
    lemma_le32_round_trip(lo);
    lemma_le32_round_trip(hi);
}

/// Reading back what was written gives the number written.
pub proof fn lemma_be16_round_trip(x: u16)
    ensures
        be16(x).len() == 2,
        from_be16(be16(x)) == x,
{
}

/// Reading back what was written gives the number written.
#[verifier::rlimit(40)]
pub proof fn lemma_be32_round_trip(x: u32)
    ensures
        be32(x).len() == 4,
        from_be32(be32(x)) == x,
{
}

/// The bytes of a little-endian number are its digits to the base 256, the lowest first.
pub proof fn law_little_endian_digits(x: u16, y: u32, z: u64)
    ensures
        le16(x).len() == 2,
        x == le16(x)[0] + 0x100 * le16(x)[1],
        le32(y).len() == 4,
        y == le32(y)[0] + 0x100 * le32(y)[1] + 0x1_0000 * le32(y)[2] + 0x100_0000 * le32(y)[3],
        le64(z).len() == 8,
        z == le64(z)[0] + 0x100 * le64(z)[1] + 0x1_0000 * le64(z)[2] + 0x100_0000 * le64(z)[3]
            + 0x1_0000_0000 * (le64(z)[4] + 0x100 * le64(z)[5] + 0x1_0000 * le64(z)[6]
            + 0x100_0000 * le64(z)[7]),
{
    let lo = (z % 0x1_0000_0000) as u32;
    let hi = (z / 0x1_0000_0000) as u32;
    assert(z == lo + 0x1_0000_0000 * hi);
    assert(lo == le32(lo)[0] + 0x100 * le32(lo)[1] + 0x1_0000 * le32(lo)[2] + 0x100_0000
        * le32(lo)[3]);
    assert(hi == le32(hi)[0] + 0x100 * le32(hi)[1] + 0x1_0000 * le32(hi)[2] + 0x100_0000
        * le32(hi)[3]);
}

/// The bytes of a big-endian number are those of the little-endian one, the other way round.
pub proof fn law_big_endian_is_reversed(x: u16, y: u32)
    ensures
        be16(x) == le16(x).reverse(),
        be32(y) == le32(y).reverse(),
{
    assert(be16(x) =~= le16(x).reverse());
    assert(be32(y) =~= le32(y).reverse());
}

/// The number that bytes spell is the sum of its digits.
pub proof fn law_numbers_are_sums_of_digits(s: Seq<u8>)
    ensures
        s.len() == 4 ==> from_le32(s) == s[0] + 0x100 * s[1] + 0x1_0000 * s[2] + 0x100_0000
            * s[3],
        s.len() == 8 ==> from_le64(s) == s[0] + 0x100 * s[1] + 0x1_0000 * s[2] + 0x100_0000
            * s[3] + 0x1_0000_0000 * (s[4] + 0x100 * s[5] + 0x1_0000 * s[6] + 0x100_0000 * s[7]),
        s.len() == 2 ==> from_be16(s) == s[1] + 0x100 * s[0],
        s.len() == 4 ==> from_be32(s) == s[3] + 0x100 * s[2] + 0x1_0000 * s[1] + 0x100_0000
            * s[0],
{
}

/// Padding keeps what is there and adds zeros up to the length.
pub proof fn law_padding_adds_zeros(s: Seq<u8>, n: nat, i: int)
    requires
        s.len() <= n,
        0 <= i < n,
    ensures
        padded(s, n).len() == n,
        padded(s, n)[i] == if i < s.len() {
            s[i]
        } else {
            0
        },
{
}

/// Append `x` in little-endian order.
pub fn put_u16(v: &mut Vec<u8>, x: u16)
    ensures
        final(v)@ == old(v)@ + le16(x),
{
    v.push((x % 0x100) as u8);
    v.push((x / 0x100) as u8);
    assert(v@ =~= old(v)@ + le16(x));
}

/// Append `x` in little-endian order.
pub fn put_u32(v: &mut Vec<u8>, x: u32)
    ensures
        final(v)@ == old(v)@ + le32(x),
{
    v.push((x % 0x100) as u8);
    v.push((x / 0x100 % 0x100) as u8);
    v.push((x / 0x1_0000 % 0x100) as u8);
    v.push((x / 0x100_0000) as u8);
    assert(v@ =~= old(v)@ + le32(x));
}

/// Append `x` in little-endian order.
pub fn put_u64(v: &mut Vec<u8>, x: u64)
    ensures
        final(v)@ == old(v)@ + le64(x),
{
    put_u32(v, (x % 0x1_0000_0000) as u32);
    put_u32(v, (x / 0x1_0000_0000) as u32);
    assert(v@ =~= old(v)@ + le64(x));
}

/// Append `x` in big-endian order.
pub fn put_u16_be(v: &mut Vec<u8>, x: u16)
    ensures
        final(v)@ == old(v)@ + be16(x),
{
    v.push((x / 0x100) as u8);
    v.push((x % 0x100) as u8);
    assert(v@ =~= old(v)@ + be16(x));
}

/// Append `x` in big-endian order.
pub fn put_u32_be(v: &mut Vec<u8>, x: u32)
    ensures
        final(v)@ == old(v)@ + be32(x),
{
    v.push((x / 0x100_0000) as u8);
    v.push((x / 0x1_0000 % 0x100) as u8);
    v.push((x / 0x100 % 0x100) as u8);
    v.push((x % 0x100) as u8);
    assert(v@ =~= old(v)@ + be32(x));
}

/// Append the bytes of `s`.
pub fn put_bytes(v: &mut Vec<u8>, s: &[u8])
    ensures
        final(v)@ == old(v)@ + s@,
{
    v.extend_from_slice(s);
    assert(v@ =~= old(v)@ + s@);
}

/// Append `n` zero bytes.
pub fn put_zeros(v: &mut Vec<u8>, n: usize)
    ensures
        final(v)@ == old(v)@ + zeros(n as nat),
{
    let mut i: usize = 0;
    while i < n
        invariant
            i <= n,
            v@ == old(v)@ + zeros(i as nat),
        decreases n - i,
    {
        v.push(0);
        assert(v@ =~= old(v)@ + zeros((i + 1) as nat));
        i = i + 1;
    }
    assert(v@ =~= old(v)@ + zeros(n as nat));
}

} // verus!
