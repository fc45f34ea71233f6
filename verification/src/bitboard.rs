//! A set of board squares packed into 64 bits.
//!
//! Squares are numbered 0..=63 from a8 (0) along each rank to h1 (63).
//! Square `s` is stored in bit `63 - s`, so the most significant bit is a8.

use vstd::prelude::*;
use vstd::std_specs::bits::u64_leading_zeros;
use vstd::std_specs::bits::axiom_u64_leading_zeros;

verus! {

/// Whether the bit that stands for square `sq` is set in `bits`.
pub open spec fn bit_of(bits: u64, sq: int) -> bool {
    0 <= sq < 64 && (bits >> ((63 - sq) as u64)) & 1 == 1
}

pub proof fn lemma_bit_of_or(a: u64, b: u64, sq: int)
    ensures
        bit_of(a | b, sq) == (bit_of(a, sq) || bit_of(b, sq)),
{
    if 0 <= sq < 64 {
        let j = (63 - sq) as u64;
        assert(((a | b) >> j) & 1 == 1 <==> ((a >> j) & 1 == 1 || (b >> j) & 1 == 1))
            by (bit_vector);
    }
}

pub proof fn lemma_bit_of_and(a: u64, b: u64, sq: int)
    ensures
        bit_of(a & b, sq) == (bit_of(a, sq) && bit_of(b, sq)),
{
    if 0 <= sq < 64 {
        let j = (63 - sq) as u64;
        assert(((a & b) >> j) & 1 == 1 <==> ((a >> j) & 1 == 1 && (b >> j) & 1 == 1))
            by (bit_vector);
    }
}

pub proof fn lemma_bit_of_single(at: int, sq: int)
    requires
        0 <= at < 64,
    ensures
        bit_of(1u64 << ((63 - at) as u64), sq) == (sq == at),
{
    if 0 <= sq < 64 {
        let i = (63 - at) as u64;
        let j = (63 - sq) as u64;
        assert(i < 64 && j < 64 ==> (((1u64 << i) >> j) & 1 == 1 <==> i == j)) by (bit_vector);
    }
}

pub proof fn lemma_bit_of_without(a: u64, at: int, sq: int)
    requires
        0 <= at < 64,
    ensures
        bit_of(a & !(1u64 << ((63 - at) as u64)), sq) == (bit_of(a, sq) && sq != at),
{
    if 0 <= sq < 64 {
        let i = (63 - at) as u64;
        let j = (63 - sq) as u64;
        assert(i < 64 && j < 64 ==> (((a & !(1u64 << i)) >> j) & 1 == 1 <==> ((a >> j) & 1 == 1
            && i != j))) by (bit_vector);
    }
}

pub proof fn lemma_bit_of_zero(sq: int)
    ensures
        !bit_of(0, sq),
{
    if 0 <= sq < 64 {
        let j = (63 - sq) as u64;
        assert((0u64 >> j) & 1 == 0) by (bit_vector);
    }
}

/// A non-zero word has a lowest square, and `leading_zeros` names it.
pub proof fn lemma_first_square(bits: u64)
    requires
        bits != 0,
    ensures
        0 <= u64_leading_zeros(bits) < 64,
        bit_of(bits, u64_leading_zeros(bits)),
        forall|sq: int| bit_of(bits, sq) ==> u64_leading_zeros(bits) <= sq,
{
    axiom_u64_leading_zeros(bits);
    let lz = u64_leading_zeros(bits);
    let top = (63 - lz) as u64;
    assert((bits >> top) & 1 != 0 ==> (bits >> top) & 1 == 1) by (bit_vector);
    assert forall|sq: int| bit_of(bits, sq) implies lz <= sq by {
        let j = (63 - sq) as u64;
        if sq < lz {
            assert(64 - lz <= j < 64);
            assert((bits >> j) & 1 == 0);
        }
    }
}

pub proof fn lemma_zero_has_no_square(bits: u64)
    ensures
        bits == 0 <==> (forall|sq: int| !bit_of(bits, sq)),
{
    if bits == 0 {
        assert forall|sq: int| !bit_of(bits, sq) by {
            lemma_bit_of_zero(sq);
        }
    } else {
        lemma_first_square(bits);
    }
}

/// Dropping a square from a word that holds it makes the word smaller.
pub proof fn lemma_next_decreases(bits: u64, at: int)
    requires
        0 <= at < 64,
        bit_of(bits, at),
    ensures
        bits & !(1u64 << ((63 - at) as u64)) < bits,
{
    let i = (63 - at) as u64;
    assert(i < 64 && (bits >> i) & 1 == 1 ==> bits & !(1u64 << i) < bits) by (bit_vector);
}

/// A set of squares.
#[derive(Debug, Copy, Clone, PartialEq, Eq)]
pub struct Bitboard(pub u64);

impl View for Bitboard {
    type V = Set<int>;

    /// The squares in the set.
    open spec fn view(&self) -> Set<int> {
        Set::new(|sq: int| self.has(sq))
    }
}

impl Bitboard {
    /// Whether square `sq` is in the set. No square outside 0..=63 ever is.
    pub open spec fn has(self, sq: int) -> bool {
        bit_of(self.0, sq)
    }


    /// The set that the 64 bits stand for, the highest bit being a8.
    pub fn new(val: u64) -> (r: Self)
        ensures
            r.0 == val,
    {
        Bitboard(val)
    }


    /// The 64 bits that stand for the set.
    pub fn to_u64(self) -> (r: u64)
        ensures
            r == self.0,
    {
        self.0
    }


    /// Whether the square is in the set.
    pub fn get_bit(&self, index: u16) -> (r: bool)
        requires
            index < 64,
        ensures
            r == self.has(index as int),
            r == self@.contains(index as int),
    {
        let shift: u64 = 63 - index as u64;
        let bits = self.0;
        assert(shift < 64 ==> ((bits & (1u64 << shift)) != 0 <==> (bits >> shift) & 1 == 1))
            by (bit_vector);
        (self.0 & (1u64 << shift)) != 0
    }

    /// Whether the square on file `file` and rank `rank` is in the set, files
    /// and ranks being counted from 1 as on the board.
    pub fn get_bit_manual(&self, file: i8, rank: i8) -> (r: bool)
        requires
            1 <= file <= 8,
            1 <= rank <= 8,
        ensures
            r == self.has((8 - rank) * 8 + file - 1),
    {
        let index = (8 - rank) * 8 + file - 1;
        self.get_bit(index as u16)
    }


    /// Puts the square into the set.
    pub fn set_bit(&mut self, index: u16)
        requires
            index < 64,
        ensures
            final(self)@ == old(self)@.insert(index as int),
            forall|sq: int| #[trigger] final(self).has(sq) == (sq == index || old(self).has(sq)),
    {
        let shift: u64 = 63 - index as u64;
        let ghost before = self.0;
        self.0 = self.0 | (1u64 << shift);
        proof {
            assert forall|sq: int| #[trigger] self.has(sq) == (sq == index || bit_of(before, sq)) by {
                lemma_bit_of_or(before, 1u64 << shift, sq);
                lemma_bit_of_single(index as int, sq);
            }
            assert(self@ =~= old(self)@.insert(index as int));
        }
    }


    /// Takes the square out of the set.
    pub fn clear_bit(&mut self, index: u16)
        requires
            index < 64,
        ensures
            final(self)@ == old(self)@.remove(index as int),
            forall|sq: int| #[trigger] final(self).has(sq) == (sq != index && old(self).has(sq)),
    {
        let shift: u64 = 63 - index as u64;
        let ghost before = self.0;
        self.0 = self.0 & !(1u64 << shift);
        proof {
            assert forall|sq: int| #[trigger] self.has(sq) == (sq != index && bit_of(before, sq)) by {
                lemma_bit_of_without(before, index as int, sq);
            }
            assert(self@ =~= old(self)@.remove(index as int));
        }
    }
}

impl Bitboard {
    /// The set of one square.
    pub fn single(index: u16) -> (r: Bitboard)
        requires
            index < 64,
        ensures
            forall|sq: int| #[trigger] r.has(sq) == (sq == index),
    {
        let shift: u64 = 63 - index as u64;
        let r = Bitboard(1u64 << shift);
        proof {
            assert forall|sq: int| #[trigger] r.has(sq) == (sq == index) by {
                lemma_bit_of_single(index as int, sq);
            }
        }
        r
    }

    /// The squares of the board that are not in `self`.
    pub fn complement(self) -> (r: Bitboard)
        ensures
            forall|sq: int| #[trigger] r.has(sq) == (0 <= sq < 64 && !self.has(sq)),
    {
        let r = Bitboard(!self.0);
        proof {
            assert forall|sq: int| #[trigger] r.has(sq) == (0 <= sq < 64 && !self.has(sq)) by {
                if 0 <= sq < 64 {
                    let j = (63 - sq) as u64;
                    let a = self.0;
                    assert(j < 64 ==> (((!a) >> j) & 1 == 1 <==> !((a >> j) & 1 == 1))) by (bit_vector);
                }
            }
        }
        r
    }

    /// The squares that are in `self` or in `other`.
    pub fn union(self, other: Bitboard) -> (r: Bitboard)
        ensures
            r@ == self@.union(other@),
            forall|sq: int| #[trigger] r.has(sq) == (self.has(sq) || other.has(sq)),
    {
        let r = Bitboard(self.0 | other.0);
        proof {
            assert forall|sq: int| #[trigger] r.has(sq) == (self.has(sq) || other.has(sq)) by {
                lemma_bit_of_or(self.0, other.0, sq);
            }
            assert(r@ =~= self@.union(other@));
        }
        r
    }

    /// The squares that are in both `self` and `other`.
    pub fn intersect(self, other: Bitboard) -> (r: Bitboard)
        ensures
            r@ == self@.intersect(other@),
            forall|sq: int| #[trigger] r.has(sq) == (self.has(sq) && other.has(sq)),
    {
        let r = Bitboard(self.0 & other.0);
        proof {
            assert forall|sq: int| #[trigger] r.has(sq) == (self.has(sq) && other.has(sq)) by {
                lemma_bit_of_and(self.0, other.0, sq);
            }
            assert(r@ =~= self@.intersect(other@));
        }
        r
    }


    /// Whether the set holds no square.
    pub fn is_empty(&self) -> (r: bool)
        ensures
            r == (self@ == Set::<int>::empty()),
            r == (forall|sq: int| !self.has(sq)),
    {
        proof {
            lemma_zero_has_no_square(self.0);
            if self.0 == 0 {
                assert(self@ =~= Set::<int>::empty());
            } else {
                lemma_first_square(self.0);
                assert(self.has(u64_leading_zeros(self.0)));
                assert(self@.contains(u64_leading_zeros(self.0)));
            }
        }
        self.0 == 0
    }

    /// Starts a fresh walk over the squares of the set, lowest square first.
    pub fn iter(&self) -> (it: BitboardIterator)
        ensures
            it@ == self@,
            it.bits == self.0,
    {
        BitboardIterator { bits: self.0 }
    }
}

impl core::ops::BitOr for Bitboard {
    type Output = Bitboard;

    fn bitor(self, rhs: Bitboard) -> (r: Bitboard) {
        Bitboard(self.0 | rhs.0)
    }
}

impl vstd::std_specs::ops::BitOrSpecImpl for Bitboard {
    open spec fn obeys_bitor_spec() -> bool {
        true
    }

    open spec fn bitor_req(self, rhs: Bitboard) -> bool {
        true
    }

    open spec fn bitor_spec(self, rhs: Bitboard) -> Bitboard {
        Bitboard(self.0 | rhs.0)
    }
}

impl core::ops::BitAnd for Bitboard {
    type Output = Bitboard;

    fn bitand(self, rhs: Bitboard) -> (r: Bitboard) {
        Bitboard(self.0 & rhs.0)
    }
}

impl vstd::std_specs::ops::BitAndSpecImpl for Bitboard {
    open spec fn obeys_bitand_spec() -> bool {
        true
    }

    open spec fn bitand_req(self, rhs: Bitboard) -> bool {
        true
    }

    open spec fn bitand_spec(self, rhs: Bitboard) -> Bitboard {
        Bitboard(self.0 & rhs.0)
    }
}

/// A walk over the squares of a set in ascending order; what is left of the
/// set is its state.
pub struct BitboardIterator {
    pub bits: u64,
}

impl View for BitboardIterator {
    type V = Set<int>;

    /// The squares still to come.
    open spec fn view(&self) -> Set<int> {
        Set::new(|sq: int| self.has(sq))
    }
}

impl BitboardIterator {
    pub open spec fn has(self, sq: int) -> bool {
        bit_of(self.bits, sq)
    }

    /// Hands out the lowest square left and drops it, or `None` once the walk is over.
    pub fn next(&mut self) -> (r: Option<u16>)
        ensures
            r is None <==> (forall|sq: int| !old(self).has(sq)),
            r is None ==> final(self).bits == old(self).bits,
            r matches Some(first) ==> {
                &&& first < 64
                &&& old(self).has(first as int)
                &&& forall|sq: int| old(self).has(sq) ==> first <= sq
                &&& forall|sq: int| #[trigger] final(self).has(sq) == (old(self).has(sq) && sq != first)
                &&& final(self)@ == old(self)@.remove(first as int)
                &&& final(self).bits < old(self).bits
            },
    {
        if self.bits == 0 {
            proof {
                assert forall|sq: int| !old(self).has(sq) by {
                    lemma_bit_of_zero(sq);
                }
            }
            None
        } else {
            let ghost before = self.bits;
            proof {
                lemma_first_square(before);
                lemma_next_decreases(before, u64_leading_zeros(before));
            }
            let first: u16 = self.bits.leading_zeros() as u16;
            let shift: u64 = 63 - first as u64;
            self.bits = self.bits & !(1u64 << shift);
            proof {
                assert forall|sq: int| #[trigger] self.has(sq) == (bit_of(before, sq) && sq != first) by {
                    lemma_bit_of_without(before, first as int, sq);
                }
                assert(self@ =~= old(self)@.remove(first as int));
                assert(old(self).has(first as int));
            }
            Some(first)
        }
    }
}

} // verus!
