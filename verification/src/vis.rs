//! The visibility bitsets: each decompressed potentially-visible set is
//! held in an outside bit-set collection, seen by the proofs through the
//! set of integers it contains.

use vstd::prelude::*;

verus! {

#[verifier::external_type_specification]
#[verifier::external_body]
#[verifier::reject_recursive_types(B)]
pub struct ExBitSet<B>(bit_set::BitSet<B>);

/// The set of integers an outside bit-set holds.
pub uninterp spec fn bit_set_contents(s: bit_set::BitSet) -> Set<usize>;

/// Relies on bit_set::BitSet::new: a fresh set holds no element.
#[verifier::external_body]
pub fn bit_set_new() -> (r: bit_set::BitSet)
    ensures
        bit_set_contents(r) == Set::<usize>::empty(),
{
    bit_set::BitSet::new()
}

/// Relies on bit_set::BitSet::insert: afterwards the set holds exactly
/// what it held before plus the value.
#[verifier::external_body]
pub fn bit_set_insert(s: &mut bit_set::BitSet, value: usize)
    ensures
        bit_set_contents(*final(s)) == bit_set_contents(*old(s)).insert(value),
{
    s.insert(value);
}

/// Relies on bit_set::BitSet::contains: whether the set holds the value.
#[verifier::external_body]
pub fn bit_set_contains(s: &bit_set::BitSet, value: usize) -> (r: bool)
    ensures
        r == bit_set_contents(*s).contains(value),
{
    s.contains(value)
}

} // verus!
