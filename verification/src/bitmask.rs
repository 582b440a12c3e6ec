//! Packed boolean board states: one bit per board cell in a single 128-bit
//! word, with constant-time overlap, union and membership tests.

use vstd::prelude::*;
use vstd::set_lib::lemma_int_range;
use vstd::set_lib::lemma_len_subset;
use vstd::set_lib::lemma_set_disjoint_lens;

verus! {

/// Bit `i` of the word is set.
pub open spec fn bit(m: u128, i: int) -> bool {
    0 <= i < 128 && (m >> (i as u128)) & 1u128 == 1u128
}

/// The set of indices whose bit is set.
pub open spec fn bit_indices(m: u128) -> Set<int> {
    Set::new(|i: int| bit(m, i))
}

proof fn lemma_bit_or(a: u128, b: u128, i: int)
    ensures
        bit(a | b, i) == (bit(a, i) || bit(b, i)),
{
    if 0 <= i < 128 {
        let j = i as u128;
        assert((((a | b) >> j) & 1u128 == 1u128) == (((a >> j) & 1u128 == 1u128) || ((b >> j)
            & 1u128 == 1u128))) by (bit_vector);
    }
}

proof fn lemma_bit_and(a: u128, b: u128, i: int)
    ensures
        bit(a & b, i) == (bit(a, i) && bit(b, i)),
{
    if 0 <= i < 128 {
        let j = i as u128;
        assert((((a & b) >> j) & 1u128 == 1u128) == (((a >> j) & 1u128 == 1u128) && ((b >> j)
            & 1u128 == 1u128))) by (bit_vector);
    }
}

proof fn lemma_bit_zero(i: int)
    ensures
        !bit(0u128, i),
{
    if 0 <= i < 128 {
        let j = i as u128;
        assert((0u128 >> j) & 1u128 == 0u128) by (bit_vector);
    }
}

proof fn lemma_bit_single(n: u128, i: int)
    requires
        n < 128,
    ensures
        bit(1u128 << n, i) == (i == n),
{
    if 0 <= i < 128 {
        let j = i as u128;
        assert((((1u128 << n) >> j) & 1u128 == 1u128) == (j == n)) by (bit_vector)
            requires
                n < 128 && j < 128,
        ;
    }
}

/// A word other than zero has at least one set bit.
proof fn lemma_nonzero_has_bit(m: u128)
    requires
        m != 0,
    ensures
        exists|i: int| bit(m, i),
    decreases m,
{
    if m & 1u128 == 1u128 {
        assert(bit(m, 0)) by {
            assert((m >> 0u128) & 1u128 == m & 1u128) by (bit_vector);
        }
    } else {
        assert(m >> 1u128 != 0 && m >> 1u128 < m) by (bit_vector)
            requires
                m != 0 && m & 1u128 != 1u128,
        ;
        lemma_nonzero_has_bit(m >> 1u128);
        let i = choose|i: int| bit(m >> 1u128, i);
        let j = i as u128;
        assert(j < 127) by {
            if j >= 127 {
                assert(((m >> 1u128) >> j) & 1u128 == 0u128) by (bit_vector)
                    requires
                        j >= 127,
                ;
            }
        }
        assert(bit(m, i + 1)) by {
            assert((m >> (j + 1)) & 1u128 == ((m >> 1u128) >> j) & 1u128) by (bit_vector)
                requires
                    j < 127,
            ;
        }
    }
}

/// Words that agree on every bit are equal.
proof fn lemma_bit_ext(a: u128, b: u128)
    requires
        forall|i: int| bit(a, i) == bit(b, i),
    ensures
        a == b,
{
    if a != b {
        assert((a ^ b) != 0) by (bit_vector)
            requires
                a != b,
        ;
        lemma_nonzero_has_bit(a ^ b);
        let i = choose|i: int| bit(a ^ b, i);
        let j = i as u128;
        assert((((a ^ b) >> j) & 1u128 == 1u128) == (((a >> j) & 1u128 == 1u128) != ((b >> j)
            & 1u128 == 1u128))) by (bit_vector);
        assert(bit(a, i) != bit(b, i));
    }
}

/// The set of bit indices is finite and holds at most 128 elements.
proof fn lemma_bit_indices_card(m: u128)
    ensures
        bit_indices(m).finite(),
        bit_indices(m).len() <= 128,
        bit_indices(m) <= Set::new(|i: int| 0 <= i < 128),
{
    let all = Set::new(|i: int| 0 <= i < 128);
    lemma_int_range(0, 128);
    assert(all =~= Set::<int>::new(|i: int| 0 <= i < 128));
    assert(vstd::set_lib::set_int_range(0, 128) =~= all);
    assert(bit_indices(m) <= all);
    lemma_len_subset(bit_indices(m), all);
}

/// The set of indices a mask has set.
pub open spec fn has_set(m: Bitmask) -> Set<int> {
    Set::new(|i: int| m.has(i))
}

/// A board state packed one bit per cell; a set bit marks a blocked cell.
#[derive(Clone, Copy, Debug)]
pub struct Bitmask {
    bits: u128,
}

impl Bitmask {
    /// Bit `i` of the mask is set.
    pub closed spec fn has(self, i: int) -> bool {
        bit(self.bits, i)
    }

    /// How many bits of the mask are set.
    pub closed spec fn card(self) -> nat {
        bit_indices(self.bits).len()
    }

    /// A mask's cardinality counts exactly its set of indices.
    pub proof fn lemma_card_has_set(self)
        ensures
            has_set(self).finite(),
            self.card() == has_set(self).len(),
    {
        lemma_bit_indices_card(self.bits);
        assert(has_set(self) =~= bit_indices(self.bits));
    }

    /// Masks that agree on every bit are equal.
    pub proof fn lemma_ext(a: Bitmask, b: Bitmask)
        requires
            forall|i: int| #[trigger] a.has(i) == b.has(i),
        ensures
            a == b,
    {
        assert forall|i: int| bit(a.bits, i) == bit(b.bits, i) by {
            assert(a.has(i) == b.has(i));
        }
        lemma_bit_ext(a.bits, b.bits);
    }

    /// Only indices below 128 can be set.
    pub proof fn lemma_has_range(self, i: int)
        ensures
            self.has(i) ==> 0 <= i < 128,
    {
    }

    pub proof fn lemma_card_le(self)
        ensures
            self.card() <= 128,
    {
        lemma_bit_indices_card(self.bits);
    }

    /// A mask with a set bit has positive cardinality.
    pub proof fn lemma_card_pos(self, i: int)
        requires
            self.has(i),
        ensures
            self.card() >= 1,
    {
        lemma_bit_indices_card(self.bits);
        assert(bit_indices(self.bits).contains(i));
        if bit_indices(self.bits).len() == 0 {
            assert(bit_indices(self.bits) =~= Set::empty()) by {
                vstd::set_lib::lemma_set_empty_equivalency_len(bit_indices(self.bits));
            }
        }
    }

    /// A union of disjoint masks has the sum of their cardinalities.
    pub proof fn lemma_card_disjoint_union(a: Bitmask, b: Bitmask, c: Bitmask)
        requires
            forall|i: int| !(#[trigger] a.has(i) && b.has(i)),
            forall|i: int| #[trigger] c.has(i) == (a.has(i) || b.has(i)),
        ensures
            c.card() == a.card() + b.card(),
    {
        lemma_bit_indices_card(a.bits);
        lemma_bit_indices_card(b.bits);
        assert forall|i: int| bit(c.bits, i) == (bit(a.bits, i) || bit(b.bits, i)) by {
            assert(c.has(i) == (a.has(i) || b.has(i)));
        }
        assert forall|i: int| !(bit(a.bits, i) && bit(b.bits, i)) by {
            assert(!(a.has(i) && b.has(i)));
        }
        assert(bit_indices(c.bits) =~= bit_indices(a.bits) + bit_indices(b.bits));
        assert(bit_indices(a.bits).disjoint(bit_indices(b.bits)));
        lemma_set_disjoint_lens(bit_indices(a.bits), bit_indices(b.bits));
    }

    /// The mask with no bit set.
    pub fn none() -> (r: Bitmask)
        ensures
            forall|i: int| !r.has(i),
    {
        let r = Bitmask { bits: 0 };
        proof {
            assert forall|i: int| !r.has(i) by {
                if 0 <= i < 128 {
                    let j = i as u128;
                    assert((0u128 >> j) & 1u128 == 0u128) by (bit_vector);
                }
            }
        }
        r
    }

    /// The mask whose bits `0 .. n` are all set.
    pub fn full_up_to(n: usize) -> (r: Bitmask)
        requires
            n <= 128,
        ensures
            forall|i: int| r.has(i) <==> 0 <= i < n,
    {
        if n == 128 {
            let r = Bitmask { bits: u128::MAX };
            proof {
                assert forall|i: int| r.has(i) <==> 0 <= i < 128 by {
                    if 0 <= i < 128 {
                        let j = i as u128;
                        assert((u128::MAX >> j) & 1u128 == 1u128) by (bit_vector)
                            requires
                                j < 128,
                        ;
                    }
                }
            }
            r
        } else {
            let m = n as u128;
            proof {
                assert(1u128 << m >= 1) by (bit_vector)
                    requires
                        m < 128,
                ;
            }
            let bits0 = (1u128 << m) - 1;
            let r = Bitmask { bits: bits0 };
            proof {
                assert forall|i: int| r.has(i) <==> 0 <= i < n by {
                    if 0 <= i < 128 {
                        let j = i as u128;
                        assert(((bits0 >> j) & 1u128 == 1u128) == (j < m)) by (bit_vector)
                            requires
                                m < 128 && j < 128 && bits0 == (1u128 << m) - 1,
                        ;
                    }
                }
            }
            r
        }
    }

    /// The mask with bit `i` set in addition.
    pub fn set(&self, i: usize) -> (r: Bitmask)
        requires
            i < 128,
        ensures
            forall|j: int| r.has(j) <==> (self.has(j) || j == i),
    {
        let r = Bitmask { bits: self.bits | (1u128 << (i as u128)) };
        proof {
            assert forall|j: int| r.has(j) <==> (self.has(j) || j == i) by {
                lemma_bit_or(self.bits, 1u128 << (i as u128), j);
                lemma_bit_single(i as u128, j);
            }
        }
        r
    }

    /// Whether bit `i` is set.
    pub fn test(&self, i: usize) -> (r: bool)
        requires
            i < 128,
        ensures
            r == self.has(i as int),
    {
        (self.bits >> (i as u128)) & 1u128 == 1u128
    }

    /// The union of the two masks.
    pub fn or(&self, other: &Bitmask) -> (r: Bitmask)
        ensures
            forall|i: int| r.has(i) <==> (self.has(i) || other.has(i)),
            r.card() == self.card() + other.card() || exists|i: int|
                #[trigger] self.has(i) && other.has(i),
    {
        let r = Bitmask { bits: self.bits | other.bits };
        proof {
            assert forall|i: int| r.has(i) <==> (self.has(i) || other.has(i)) by {
                lemma_bit_or(self.bits, other.bits, i);
            }
            if forall|i: int| !(#[trigger] self.has(i) && other.has(i)) {
                Bitmask::lemma_card_disjoint_union(*self, *other, r);
            }
        }
        r
    }

    /// Whether the two masks share a set bit.
    pub fn overlaps(&self, other: &Bitmask) -> (r: bool)
        ensures
            r <==> exists|i: int| #[trigger] self.has(i) && other.has(i),
    {
        let r = self.bits & other.bits != 0;
        proof {
            if r {
                lemma_nonzero_has_bit(self.bits & other.bits);
                let i = choose|i: int| bit(self.bits & other.bits, i);
                lemma_bit_and(self.bits, other.bits, i);
                assert(self.has(i) && other.has(i));
            } else {
                assert forall|i: int| !(#[trigger] self.has(i) && other.has(i)) by {
                    lemma_bit_and(self.bits, other.bits, i);
                    lemma_bit_zero(i);
                }
            }
        }
        r
    }

    /// Whether every set bit of `other` is set in this mask.
    pub fn covers(&self, other: &Bitmask) -> (r: bool)
        ensures
            r <==> forall|i: int| #[trigger] other.has(i) ==> self.has(i),
    {
        let r = self.bits & other.bits == other.bits;
        proof {
            if r {
                assert forall|i: int| #[trigger] other.has(i) implies self.has(i) by {
                    lemma_bit_and(self.bits, other.bits, i);
                    assert(bit(self.bits & other.bits, i) == bit(other.bits, i));
                }
            } else {
                if forall|i: int| #[trigger] other.has(i) ==> self.has(i) {
                    assert forall|i: int| bit(self.bits & other.bits, i) == bit(
                        other.bits,
                        i,
                    ) by {
                        lemma_bit_and(self.bits, other.bits, i);
                        if other.has(i) {
                            assert(self.has(i));
                        }
                    }
                    lemma_bit_ext(self.bits & other.bits, other.bits);
                }
            }
        }
        r
    }

    /// The number of set bits.
    pub fn count_ones(&self) -> (r: usize)
        ensures
            r == self.card(),
    {
        let ghost all = bit_indices(self.bits);
        proof {
            lemma_bit_indices_card(self.bits);
        }
        let mut count: usize = 0;
        let mut i: usize = 0;
        proof {
            assert(Set::new(|k: int| 0 <= k < 0 && self.has(k)) =~= Set::<int>::empty());
            vstd::set_lib::lemma_set_empty_equivalency_len(
                Set::new(|k: int| 0 <= k < 0 && self.has(k)),
            );
        }
        while i < 128
            invariant
                i <= 128,
                count <= i,
                all == bit_indices(self.bits),
                all.finite(),
                count == Set::new(|k: int| 0 <= k < i && self.has(k)).len(),
            decreases 128 - i,
        {
            let ghost prefix = Set::new(|k: int| 0 <= k < i && self.has(k));
            let ghost next = Set::new(|k: int| 0 <= k < i + 1 && self.has(k));
            proof {
                broadcast use vstd::set::group_set_axioms;

                assert(prefix <= all);
                vstd::set_lib::lemma_set_subset_finite(all, prefix);
                if self.has(i as int) {
                    assert(next =~= prefix.insert(i as int));
                    assert(!prefix.contains(i as int));
                } else {
                    assert(next =~= prefix);
                }
            }
            if self.test(i) {
                count = count + 1;
            }
            i = i + 1;
        }
        proof {
            assert(Set::new(|k: int| 0 <= k < 128 && self.has(k)) =~= all);
        }
        count
    }

    /// Whether the two masks are equal.
    pub fn equals(&self, other: &Bitmask) -> (r: bool)
        ensures
            r <==> forall|i: int| self.has(i) == other.has(i),
    {
        let r = self.bits == other.bits;
        proof {
            if !r {
                if forall|i: int| #[trigger] self.has(i) == other.has(i) {
                    assert forall|i: int| bit(self.bits, i) == bit(other.bits, i) by {
                        assert(self.has(i) == other.has(i));
                    }
                    lemma_bit_ext(self.bits, other.bits);
                }
            }
        }
        r
    }
}

} // verus!
