//! Bit-level facts about 64-bit masks.
//!
//! The rest of the crate reasons about masks only through [`has_bit`]; the
//! lemmas here connect that predicate to the machine operators.

use vstd::prelude::*;

verus! {

/// Whether bit `i` of `m` is set. False for every `i` outside `0..64`.
pub open spec fn has_bit(m: u64, i: int) -> bool {
    0 <= i < 64 && (m >> (i as u64)) & 1u64 == 1u64
}

/// Reads bit `i` of `m`.
pub fn test_bit(m: u64, i: usize) -> (r: bool)
    requires
        i < 64,
    ensures
        r == has_bit(m, i as int),
{
    (m >> (i as u64)) & 1u64 == 1u64
}

/// The mask with only bit `i` set.
pub fn single_bit(i: usize) -> (r: u64)
    requires
        i < 64,
    ensures
        forall|j: int| has_bit(r, j) <==> j == i,
{
    let r: u64 = 1u64 << (i as u64);
    proof {
        assert forall|j: int| has_bit(r, j) <==> j == i by {
            if 0 <= j < 64 {
                lemma_single_shift(i as u64, j as u64);
            }
        }
    }
    r
}

proof fn lemma_single_shift(i: u64, j: u64)
    by (bit_vector)
    requires
        i < 64,
        j < 64,
    ensures
        (((1u64 << i) >> j) & 1u64 == 1u64) <==> i == j,
{
}

proof fn lemma_or_shift(a: u64, b: u64, j: u64)
    by (bit_vector)
    requires
        j < 64,
    ensures
        (((a | b) >> j) & 1u64 == 1u64) <==> ((a >> j) & 1u64 == 1u64 || (b >> j) & 1u64 == 1u64),
{
}

proof fn lemma_and_shift(a: u64, b: u64, j: u64)
    by (bit_vector)
    requires
        j < 64,
    ensures
        (((a & b) >> j) & 1u64 == 1u64) <==> ((a >> j) & 1u64 == 1u64 && (b >> j) & 1u64 == 1u64),
{
}

proof fn lemma_xor_shift(a: u64, b: u64, j: u64)
    by (bit_vector)
    requires
        j < 64,
    ensures
        (((a ^ b) >> j) & 1u64 == 1u64) <==> ((a >> j) & 1u64 == 1u64) != ((b >> j) & 1u64
            == 1u64),
{
}

proof fn lemma_not_shift(a: u64, j: u64)
    by (bit_vector)
    requires
        j < 64,
    ensures
        (((!a) >> j) & 1u64 == 1u64) <==> !((a >> j) & 1u64 == 1u64),
{
}

proof fn lemma_zero_shift(j: u64)
    by (bit_vector)
    requires
        j < 64,
    ensures
        (0u64 >> j) & 1u64 == 0u64,
{
}

proof fn lemma_xor_zero(a: u64, b: u64)
    by (bit_vector)
    requires
        a ^ b == 0u64,
    ensures
        a == b,
{
}

/// Union of masks is disjunction of bits.
pub proof fn lemma_or(a: u64, b: u64)
    ensures
        forall|j: int| has_bit(a | b, j) <==> has_bit(a, j) || has_bit(b, j),
{
    assert forall|j: int| has_bit(a | b, j) <==> has_bit(a, j) || has_bit(b, j) by {
        if 0 <= j < 64 {
            lemma_or_shift(a, b, j as u64);
        }
    }
}

/// Intersection of masks is conjunction of bits.
pub proof fn lemma_and(a: u64, b: u64)
    ensures
        forall|j: int| has_bit(a & b, j) <==> has_bit(a, j) && has_bit(b, j),
{
    assert forall|j: int| has_bit(a & b, j) <==> has_bit(a, j) && has_bit(b, j) by {
        if 0 <= j < 64 {
            lemma_and_shift(a, b, j as u64);
        }
    }
}

/// Symmetric difference of masks is inequality of bits.
pub proof fn lemma_xor(a: u64, b: u64)
    ensures
        forall|j: int| has_bit(a ^ b, j) <==> has_bit(a, j) != has_bit(b, j),
{
    assert forall|j: int| has_bit(a ^ b, j) <==> has_bit(a, j) != has_bit(b, j) by {
        if 0 <= j < 64 {
            lemma_xor_shift(a, b, j as u64);
        }
    }
}

/// Complement of a mask negates every bit of the board.
pub proof fn lemma_not(a: u64)
    ensures
        forall|j: int| 0 <= j < 64 ==> (has_bit(!a, j) <==> !has_bit(a, j)),
{
    assert forall|j: int| 0 <= j < 64 implies (has_bit(!a, j) <==> !has_bit(a, j)) by {
        lemma_not_shift(a, j as u64);
    }
}

/// The empty mask has no bit.
pub proof fn lemma_zero()
    ensures
        forall|j: int| !has_bit(0u64, j),
{
    assert forall|j: int| !has_bit(0u64, j) by {
        if 0 <= j < 64 {
            lemma_zero_shift(j as u64);
        }
    }
}

/// Two masks with the same bits are the same mask.
pub proof fn lemma_ext(a: u64, b: u64)
    requires
        forall|j: int| 0 <= j < 64 ==> has_bit(a, j) == has_bit(b, j),
    ensures
        a == b,
{
    let x = a ^ b;
    if x != 0 {
        vstd::std_specs::bits::axiom_u64_trailing_zeros(x);
        let k = vstd::std_specs::bits::u64_trailing_zeros(x);
        assert(k < 64);
        assert((x >> (k as u64)) & 1u64 == 1u64);
        assert(has_bit(x, k as int));
        lemma_xor_shift(a, b, k as u64);
        assert(has_bit(a, k as int) != has_bit(b, k as int));
        assert(false);
    }
    lemma_xor_zero(a, b);
}

/// A mask without bits is zero.
pub proof fn lemma_empty_is_zero(a: u64)
    requires
        forall|j: int| 0 <= j < 64 ==> !has_bit(a, j),
    ensures
        a == 0,
{
    lemma_zero();
    lemma_ext(a, 0);
}

/// The lowest set bit of a non-zero mask, as `trailing_zeros` finds it.
pub proof fn lemma_lowest(m: u64)
    requires
        m != 0,
    ensures
        has_bit(m, vstd::std_specs::bits::u64_trailing_zeros(m) as int),
        forall|j: int|
            0 <= j < vstd::std_specs::bits::u64_trailing_zeros(m) ==> !has_bit(m, j),
{
    vstd::std_specs::bits::axiom_u64_trailing_zeros(m);
    let k = vstd::std_specs::bits::u64_trailing_zeros(m);
    assert forall|j: int| 0 <= j < k implies !has_bit(m, j) by {
        let ju = j as u64;
        assert((m >> ju) & 1u64 == 0u64);
    }
}

/// The highest set bit of a non-zero mask, as `leading_zeros` finds it.
pub proof fn lemma_highest(m: u64)
    requires
        m != 0,
    ensures
        has_bit(m, 63 - vstd::std_specs::bits::u64_leading_zeros(m)),
        forall|j: int|
            63 - vstd::std_specs::bits::u64_leading_zeros(m) < j < 64 ==> !has_bit(m, j),
{
    vstd::std_specs::bits::axiom_u64_leading_zeros(m);
    let z = vstd::std_specs::bits::u64_leading_zeros(m);
    let k = (63 - z) as u64;
    assert(0 <= z < 64);
    assert((m >> k) & 1u64 != 0u64);
    lemma_low_bit_is_one(m >> k);
    assert forall|j: int| 63 - z < j < 64 implies !has_bit(m, j) by {
        let ju = j as u64;
        assert((m >> ju) & 1u64 == 0u64);
    }
}

proof fn lemma_low_bit_is_one(a: u64)
    by (bit_vector)
    requires
        a & 1u64 != 0u64,
    ensures
        a & 1u64 == 1u64,
{
}

/// How many bits of `m` are set below position `n`.
pub open spec fn popcount_below(m: u64, n: int) -> int
    decreases n,
{
    if n <= 0 {
        0
    } else {
        popcount_below(m, n - 1) + if has_bit(m, n - 1) {
            1int
        } else {
            0int
        }
    }
}

/// The number of set bits of `m`.
pub fn popcount(m: u64) -> (r: i32)
    ensures
        r == popcount_below(m, 64),
        0 <= r <= 64,
{
    let mut r: i32 = 0;
    let mut i: usize = 0;
    while i < 64
        invariant
            i <= 64,
            r == popcount_below(m, i as int),
            0 <= r <= i,
        decreases 64 - i,
    {
        if test_bit(m, i) {
            r = r + 1;
        }
        i = i + 1;
    }
    r
}

} // verus!
