//! Bits of a `u128` occupancy mask.

use vstd::prelude::*;
use vstd::std_specs::bits::{axiom_u64_leading_zeros, u64_leading_zeros};

verus! {

/// Whether bit `p` of `mask` is set.
pub open spec fn has_bit(mask: u128, p: int) -> bool {
    0 <= p < 128 && (mask >> (p as u128)) & 1u128 == 1u128
}

/// `p` is the highest bit set in `mask`.
pub open spec fn is_highest_bit(mask: u128, p: int) -> bool {
    &&& has_bit(mask, p)
    &&& forall|q: int| p < q ==> !#[trigger] has_bit(mask, q)
}

/// Bit `p` is set in both masks or in neither.
pub open spec fn bits_agree(a: u128, b: u128, p: int) -> bool {
    has_bit(a, p) <==> has_bit(b, p)
}

/// The zero mask has no bit set.
pub proof fn lemma_zero_has_no_bit(p: int)
    ensures
        !has_bit(0, p),
{
    if 0 <= p < 128 {
        let q = p as u128;
        assert((0u128 >> q) & 1u128 == 0u128) by (bit_vector);
    }
}

/// Setting bit `i` changes that bit alone.
pub proof fn lemma_set_bit(mask: u128, i: u128, p: int)
    requires
        i < 128,
    ensures
        has_bit(mask | (1u128 << i), p) <==> (p == i || has_bit(mask, p)),
{
    if 0 <= p < 128 {
        let q = p as u128;
        assert(q != i ==> ((mask | (1u128 << i)) >> q) & 1u128 == (mask >> q) & 1u128)
            by (bit_vector)
            requires
                i < 128,
                q < 128,
        ;
        assert(((mask | (1u128 << i)) >> i) & 1u128 == 1u128) by (bit_vector)
            requires
                i < 128,
        ;
    }
}

/// Clearing bit `i` changes that bit alone.
pub proof fn lemma_clear_bit(mask: u128, i: u128, p: int)
    requires
        i < 128,
    ensures
        has_bit(mask & !(1u128 << i), p) <==> (p != i && has_bit(mask, p)),
{
    if 0 <= p < 128 {
        let q = p as u128;
        assert(q != i ==> ((mask & !(1u128 << i)) >> q) & 1u128 == (mask >> q) & 1u128)
            by (bit_vector)
            requires
                i < 128,
                q < 128,
        ;
        assert(((mask & !(1u128 << i)) >> i) & 1u128 == 0u128) by (bit_vector)
            requires
                i < 128,
        ;
    }
}

/// Masking with `2^k - 1` keeps exactly the bits below `k`.
pub proof fn lemma_keep_below(mask: u128, k: u128, p: int)
    requires
        k < 128,
    ensures
        (1u128 << k) >= 1,
        has_bit(mask & ((1u128 << k) - 1) as u128, p) <==> (p < k && has_bit(mask, p)),
{
    assert((1u128 << k) >= 1) by (bit_vector)
        requires
            k < 128,
    ;
    if 0 <= p < 128 {
        let q = p as u128;
        let low = ((1u128 << k) - 1) as u128;
        assert(q < k ==> ((mask & low) >> q) & 1u128 == (mask >> q) & 1u128) by (bit_vector)
            requires
                k < 128,
                q < 128,
                low + 1 == 1u128 << k,
        ;
        assert(q >= k ==> ((mask & low) >> q) & 1u128 == 0u128) by (bit_vector)
            requires
                k < 128,
                q < 128,
                low + 1 == 1u128 << k,
        ;
    }
}

/// Two masks with the same bits are the same number.
pub proof fn lemma_same_bits(a: u128, b: u128)
    requires
        forall|p: int| bits_agree(a, b, p),
    ensures
        a == b,
{
    let x = a ^ b;
    if x == 0 {
        assert(a == b) by (bit_vector)
            requires
                a ^ b == 0,
        ;
    } else {
        lemma_highest_by_halves(x);
        let p = highest_by_halves(x);
        let q = p as u128;
        assert(has_bit(x, p));
        assert((a >> q) & 1u128 == 1u128 <==> !((b >> q) & 1u128 == 1u128)) by (bit_vector)
            requires
                ((a ^ b) >> q) & 1u128 == 1u128,
        ;
        assert(bits_agree(a, b, p));
    }
}

/// The two halves of a mask, and where the highest bit of each stands in the whole.
proof fn lemma_halves(mask: u128, hi: u64, lo: u64, p: int)
    requires
        hi == mask >> 64u128,
        lo == mask & 0xffff_ffff_ffff_ffffu128,
        0 <= p < 128,
    ensures
        p >= 64 ==> (has_bit(mask, p) <==> (hi >> ((p - 64) as u64)) & 1u64 == 1u64),
        p < 64 ==> (has_bit(mask, p) <==> (lo >> (p as u64)) & 1u64 == 1u64),
        mask == 0 <==> (hi == 0 && lo == 0),
{
    let q = p as u128;
    if p >= 64 {
        let r = (p - 64) as u64;
        assert((mask >> q) & 1u128 == 1u128 <==> (hi >> r) & 1u64 == 1u64) by (bit_vector)
            requires
                hi as u128 == mask >> 64u128,
                q < 128,
                q == r as u128 + 64,
                r < 64,
        ;
    } else {
        let r = p as u64;
        assert((mask >> q) & 1u128 == 1u128 <==> (lo >> r) & 1u64 == 1u64) by (bit_vector)
            requires
                lo as u128 == mask & 0xffff_ffff_ffff_ffffu128,
                q < 64,
                q == r as u128,
        ;
    }
    assert(mask == 0 <==> (hi == 0 && lo == 0)) by (bit_vector)
        requires
            hi as u128 == mask >> 64u128,
            lo as u128 == mask & 0xffff_ffff_ffff_ffffu128,
    ;
}

/// The position of the highest bit, by counting the leading zeros of the upper half and, where
/// that half is zero, of the lower one.
pub open spec fn highest_by_halves(mask: u128) -> int {
    let hi = (mask >> 64u128) as u64;
    let lo = (mask & 0xffff_ffff_ffff_ffffu128) as u64;
    if hi != 0 {
        127 - u64_leading_zeros(hi)
    } else {
        63 - u64_leading_zeros(lo)
    }
}

/// Counting leading zeros by halves finds the highest bit of every mask that is not zero.
pub proof fn lemma_highest_by_halves(mask: u128)
    requires
        mask != 0,
    ensures
        is_highest_bit(mask, highest_by_halves(mask)),
{
    assert(mask >> 64u128 <= 0xffff_ffff_ffff_ffffu128) by (bit_vector);
    assert(mask & 0xffff_ffff_ffff_ffffu128 <= 0xffff_ffff_ffff_ffffu128) by (bit_vector);
    let hi: u64 = (mask >> 64u128) as u64;
    let lo: u64 = (mask & 0xffff_ffff_ffff_ffffu128) as u64;
    axiom_u64_leading_zeros(hi);
    axiom_u64_leading_zeros(lo);
    lemma_halves(mask, hi, lo, 0);
    let p = highest_by_halves(mask);
    lemma_halves(mask, hi, lo, p);
    let b: u64 = (p % 64) as u64;
    assert((hi >> b) & 1u64 != 0 ==> (hi >> b) & 1u64 == 1) by (bit_vector);
    assert((lo >> b) & 1u64 != 0 ==> (lo >> b) & 1u64 == 1) by (bit_vector);
    assert forall|q: int| p < q implies !#[trigger] has_bit(mask, q) by {
        if q < 128 {
            lemma_halves(mask, hi, lo, q);
            let r: u64 = (q % 64) as u64;
            assert(hi == 0 ==> (hi >> r) & 1u64 == 0) by (bit_vector);
        }
    }
}

/// The position of the highest bit set in a mask that is not zero.
pub fn highest_bit(mask: u128) -> (p: u32)
    requires
        mask != 0,
    ensures
        is_highest_bit(mask, p as int),
{
    proof {
        assert(mask >> 64u128 <= 0xffff_ffff_ffff_ffffu128) by (bit_vector);
        assert(mask & 0xffff_ffff_ffff_ffffu128 <= 0xffff_ffff_ffff_ffffu128) by (bit_vector);
        lemma_highest_by_halves(mask);
        axiom_u64_leading_zeros((mask >> 64u128) as u64);
        axiom_u64_leading_zeros((mask & 0xffff_ffff_ffff_ffffu128) as u64);
        assert(has_bit(mask, highest_by_halves(mask)));
    }
    let hi: u64 = (mask >> 64u128) as u64;
    if hi != 0 {
        127 - hi.leading_zeros()
    } else {
        let lo: u64 = (mask & 0xffff_ffff_ffff_ffffu128) as u64;
        63 - lo.leading_zeros()
    }
}

} // verus!
