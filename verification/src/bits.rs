//! Bits of a 32-bit register, and registers built from their bits.

use vstd::prelude::*;

verus! {

/// Bit `i` of `w`, for `0 <= i < 32`.
pub open spec fn bit(w: u32, i: int) -> bool {
    (w >> (i as u32)) & 1u32 == 1u32
}

/// The register whose bits below `n` are given by `f` and whose other bits are clear.
pub open spec fn pack(f: spec_fn(int) -> bool, n: nat) -> u32
    decreases n,
{
    if n == 0 {
        0
    } else if f(n - 1) {
        pack(f, (n - 1) as nat) | (1u32 << ((n - 1) as u32))
    } else {
        pack(f, (n - 1) as nat)
    }
}

/// Setting a bit sets that bit and no other.
pub proof fn lemma_bit_or(w: u32, k: int, i: int)
    requires
        0 <= k < 32,
        0 <= i < 32,
    ensures
        bit(w | (1u32 << (k as u32)), i) == (bit(w, i) || i == k),
{
    let k = k as u32;
    let i = i as u32;
    assert(((w | (1u32 << k)) >> i) & 1u32 == 1u32 <==> ((w >> i) & 1u32 == 1u32 || i == k))
        by (bit_vector)
        requires
            k < 32,
            i < 32,
    ;
}

/// Clearing a bit clears that bit and no other.
pub proof fn lemma_bit_and_not(w: u32, k: int, i: int)
    requires
        0 <= k < 32,
        0 <= i < 32,
    ensures
        bit(w & !(1u32 << (k as u32)), i) == (bit(w, i) && i != k),
{
    let k = k as u32;
    let i = i as u32;
    assert(((w & !(1u32 << k)) >> i) & 1u32 == 1u32 <==> ((w >> i) & 1u32 == 1u32 && i != k))
        by (bit_vector)
        requires
            k < 32,
            i < 32,
    ;
}

/// A bit is tested by masking.
pub proof fn lemma_bit_mask(w: u32, k: int)
    requires
        0 <= k < 32,
    ensures
        bit(w, k) == (w & (1u32 << (k as u32)) != 0),
{
    let k = k as u32;
    assert((w >> k) & 1u32 == 1u32 <==> w & (1u32 << k) != 0) by (bit_vector)
        requires
            k < 32,
    ;
}

/// A shifted register's lowest bit is either clear or set.
pub proof fn lemma_bit_cases(w: u32, k: int)
    requires
        0 <= k < 32,
    ensures
        bit(w, k) <==> (w >> (k as u32)) & 1u32 != 0u32,
{
    let k = k as u32;
    assert((w >> k) & 1u32 == 1u32 <==> (w >> k) & 1u32 != 0u32) by (bit_vector)
        requires
            k < 32,
    ;
}

/// The empty register has no bit set.
pub proof fn lemma_bit_zero(i: int)
    requires
        0 <= i < 32,
    ensures
        !bit(0, i),
{
    let i = i as u32;
    assert((0u32 >> i) & 1u32 == 0u32) by (bit_vector)
        requires
            i < 32,
    ;
}

/// The bits of a packed register are the bits it was packed from.
pub proof fn lemma_pack_bit(f: spec_fn(int) -> bool, n: nat, i: int)
    requires
        n <= 32,
        0 <= i < 32,
    ensures
        bit(pack(f, n), i) == (i < n && f(i)),
    decreases n,
{
    if n == 0 {
        lemma_bit_zero(i);
    } else {
        lemma_pack_bit(f, (n - 1) as nat, i);
        lemma_bit_or(pack(f, (n - 1) as nat), n - 1, i);
    }
}

/// Registers with the same bits from `k` on agree there.
proof fn lemma_high_bits_equal(a: u32, b: u32, k: u32)
    requires
        k < 32,
        forall|i: int| 0 <= i < 32 ==> bit(a, i) == bit(b, i),
    ensures
        a >> k == b >> k,
    decreases 32 - k,
{
    assert(bit(a, k as int) == bit(b, k as int));
    if k == 31 {
        assert(a >> 31u32 == b >> 31u32) by (bit_vector)
            requires
                ((a >> 31u32) & 1u32 == 1u32) == ((b >> 31u32) & 1u32 == 1u32),
        ;
    } else {
        let next = (k + 1) as u32;
        lemma_high_bits_equal(a, b, next);
        assert(a >> k == b >> k) by (bit_vector)
            requires
                k < 31,
                next == k + 1,
                a >> next == b >> next,
                ((a >> k) & 1u32 == 1u32) == ((b >> k) & 1u32 == 1u32),
        ;
    }
}

/// Two registers with the same bits are the same register.
pub proof fn lemma_bits_equal(a: u32, b: u32)
    requires
        forall|i: int| 0 <= i < 32 ==> bit(a, i) == bit(b, i),
    ensures
        a == b,
{
    lemma_high_bits_equal(a, b, 0);
    assert(a == b) by (bit_vector)
        requires
            a >> 0u32 == b >> 0u32,
    ;
}

/// A register is the packing of its own bits.
pub proof fn lemma_pack_of_bits(w: u32, f: spec_fn(int) -> bool)
    requires
        forall|i: int| 0 <= i < 32 ==> #[trigger] f(i) == bit(w, i),
    ensures
        w == pack(f, 32),
{
    assert forall|i: int| 0 <= i < 32 implies bit(w, i) == bit(pack(f, 32), i) by {
        lemma_pack_bit(f, 32, i);
        assert(f(i) == bit(w, i));
    }
    lemma_bits_equal(w, pack(f, 32));
}

} // verus!
