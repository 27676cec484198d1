//! A set of squares held in one 64-bit word.

use vstd::prelude::*;
use crate::bits::{has_bit, lemma_and, lemma_not, lemma_or, lemma_xor, lemma_zero, lemma_ext};

verus! {

/// A set of squares: bit `i` stands for the square with index `i`.
#[derive(Debug, Clone, Copy, PartialEq, Eq, Hash, Structural)]
pub struct Bitboard(pub u64);

impl View for Bitboard {
    type V = Set<int>;

    /// The squares in the set, by index; all lie in `0..64`.
    open spec fn view(&self) -> Set<int> {
        Set::new(|i: int| has_bit(self.0, i))
    }
}

impl Bitboard {
    pub open spec fn spec_or(self, rhs: Bitboard) -> Bitboard {
        Bitboard(self.0 | rhs.0)
    }

    pub open spec fn spec_and(self, rhs: Bitboard) -> Bitboard {
        Bitboard(self.0 & rhs.0)
    }

    pub open spec fn spec_xor(self, rhs: Bitboard) -> Bitboard {
        Bitboard(self.0 ^ rhs.0)
    }

    pub open spec fn spec_not(self) -> Bitboard {
        Bitboard(!self.0)
    }

    /// The empty set.
    pub fn empty() -> (r: Bitboard)
        ensures
            r.0 == 0,
            r@ == Set::<int>::empty(),
    {
        proof {
            lemma_zero();
        }
        Bitboard(0)
    }

    /// The set that holds one square.
    pub fn single(i: usize) -> (r: Bitboard)
        requires
            i < 64,
        ensures
            r@ == set![i as int],
    {
        let r = Bitboard(crate::bits::single_bit(i));
        assert(r@ =~= set![i as int]);
        r
    }

    /// Whether the square with index `i` is in the set.
    pub fn contains(&self, i: usize) -> (r: bool)
        requires
            i < 64,
        ensures
            r == self@.contains(i as int),
    {
        crate::bits::test_bit(self.0, i)
    }

    /// Whether the set holds no square.
    pub fn is_empty(&self) -> (r: bool)
        ensures
            r == (self@ == Set::<int>::empty()),
    {
        proof {
            lemma_zero();
            if self@ =~= Set::<int>::empty() {
                assert forall|j: int| 0 <= j < 64 implies !has_bit(self.0, j) by {
                    assert(!self@.contains(j));
                }
                crate::bits::lemma_empty_is_zero(self.0);
            }
            if self.0 == 0 {
                assert(self@ =~= Set::<int>::empty());
            }
        }
        self.0 == 0
    }
}

/// Two bitboards with the same squares are the same word.
pub proof fn lemma_view_injective(a: Bitboard, b: Bitboard)
    requires
        a@ == b@,
    ensures
        a == b,
{
    assert forall|j: int| 0 <= j < 64 implies has_bit(a.0, j) == has_bit(b.0, j) by {
        assert(a@.contains(j) == has_bit(a.0, j));
        assert(b@.contains(j) == has_bit(b.0, j));
    }
    lemma_ext(a.0, b.0);
}

/// What the four operators do to the sets of squares.
pub proof fn lemma_ops(a: Bitboard, b: Bitboard)
    ensures
        a.spec_or(b)@ == a@.union(b@),
        a.spec_and(b)@ == a@.intersect(b@),
        a.spec_xor(b)@ == a@.union(b@).difference(a@.intersect(b@)),
        a.spec_not()@ == Set::new(|i: int| 0 <= i < 64 && !a@.contains(i)),
{
    lemma_or(a.0, b.0);
    lemma_and(a.0, b.0);
    lemma_xor(a.0, b.0);
    lemma_not(a.0);
    assert(a.spec_or(b)@ =~= a@.union(b@));
    assert(a.spec_and(b)@ =~= a@.intersect(b@));
    assert(a.spec_xor(b)@ =~= a@.union(b@).difference(a@.intersect(b@)));
    assert(a.spec_not()@ =~= Set::new(|i: int| 0 <= i < 64 && !a@.contains(i)));
}

impl core::ops::BitOr for Bitboard {
    type Output = Bitboard;

    fn bitor(self, rhs: Bitboard) -> (r: Bitboard) {
        Bitboard(self.0 | rhs.0)
    }
}

impl vstd::std_specs::ops::BitOrSpecImpl for Bitboard {
    open spec fn obeys_bitor_spec() -> bool {
        true
    }

    open spec fn bitor_req(self, rhs: Bitboard) -> bool {
        true
    }

    open spec fn bitor_spec(self, rhs: Bitboard) -> Bitboard {
        self.spec_or(rhs)
    }
}

impl core::ops::BitAnd for Bitboard {
    type Output = Bitboard;

    fn bitand(self, rhs: Bitboard) -> (r: Bitboard) {
        Bitboard(self.0 & rhs.0)
    }
}

impl vstd::std_specs::ops::BitAndSpecImpl for Bitboard {
    open spec fn obeys_bitand_spec() -> bool {
        true
    }

    open spec fn bitand_req(self, rhs: Bitboard) -> bool {
        true
    }

    open spec fn bitand_spec(self, rhs: Bitboard) -> Bitboard {
        self.spec_and(rhs)
    }
}

impl core::ops::BitXor for Bitboard {
    type Output = Bitboard;

    fn bitxor(self, rhs: Bitboard) -> (r: Bitboard) {
        Bitboard(self.0 ^ rhs.0)
    }
}

impl vstd::std_specs::ops::BitXorSpecImpl for Bitboard {
    open spec fn obeys_bitxor_spec() -> bool {
        true
    }

    open spec fn bitxor_req(self, rhs: Bitboard) -> bool {
        true
    }

    open spec fn bitxor_spec(self, rhs: Bitboard) -> Bitboard {
        self.spec_xor(rhs)
    }
}

impl core::ops::Not for Bitboard {
    type Output = Bitboard;

    fn not(self) -> (r: Bitboard) {
        Bitboard(!self.0)
    }
}

impl vstd::std_specs::ops::NotSpecImpl for Bitboard {
    open spec fn obeys_not_spec() -> bool {
        true
    }

    open spec fn not_req(self) -> bool {
        true
    }

    open spec fn not_spec(self) -> Bitboard {
        self.spec_not()
    }
}

impl core::ops::BitOrAssign for Bitboard {
    fn bitor_assign(&mut self, rhs: Bitboard)
        ensures
            *final(self) == old(self).spec_or(rhs),
    {
        self.0 = self.0 | rhs.0;
    }
}

impl core::ops::BitAndAssign for Bitboard {
    fn bitand_assign(&mut self, rhs: Bitboard)
        ensures
            *final(self) == old(self).spec_and(rhs),
    {
        self.0 = self.0 & rhs.0;
    }
}

impl core::ops::BitXorAssign for Bitboard {
    fn bitxor_assign(&mut self, rhs: Bitboard)
        ensures
            *final(self) == old(self).spec_xor(rhs),
    {
        self.0 = self.0 ^ rhs.0;
    }
}

impl Default for Bitboard {
    fn default() -> (r: Bitboard)
        ensures
            r.0 == 0,
    {
        Bitboard(0)
    }
}

} // verus!
