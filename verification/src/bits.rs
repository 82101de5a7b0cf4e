//! Bit helpers shared by the basis-index bookkeeping of the engines.

use vstd::prelude::*;

verus! {

/// True when bit `bit` of `index` is set.
pub open spec fn spec_bit(index: usize, bit: usize) -> bool {
    (index >> bit) & 1 == 1
}

/// Read bit `bit` of the basis index `index`.
pub fn get_bit(index: usize, bit: usize) -> (r: bool)
    requires
        bit < usize::BITS,
    ensures
        r == spec_bit(index, bit),
{
    (index >> bit) & 1 == 1
}

/// Flip bit `bit` of the basis index `index`.
pub fn flip_bit(index: usize, bit: usize) -> (r: usize)
    requires
        bit < usize::BITS,
    ensures
        r == index ^ ((1usize) << bit),
        spec_bit(r, bit) == !spec_bit(index, bit),
        forall|b: usize| b < usize::BITS && b != bit ==> spec_bit(r, b) == spec_bit(index, b),
{
    proof {
        assert forall|b: usize| b < usize::BITS && b != bit implies spec_bit(
            index ^ (1usize << bit),
            b,
        ) == spec_bit(index, b) by {
            assert((((index ^ (1usize << bit)) >> b) & 1) == ((index >> b) & 1)) by (bit_vector)
                requires
                    b < usize::BITS,
                    bit < usize::BITS,
                    b != bit,
            ;
        }
        assert(((((index ^ (1usize << bit)) >> bit) & 1 == 1) == !((index >> bit) & 1 == 1)))
            by (bit_vector)
            requires
                bit < usize::BITS,
        ;
    }
    index ^ ((1usize) << bit)
}

} // verus!
