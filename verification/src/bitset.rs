//! Trusted interface to the `fixedbitset` crate.
//!
//! The caller hands the set of user-visible columns to `create` as a
//! `FixedBitSet`; the column deriver reads it through the one wrapper below.

use vstd::prelude::*;

use fixedbitset::FixedBitSet;

verus! {

#[verifier::external_type_specification]
#[verifier::external_body]
pub struct ExFixedBitSet(FixedBitSet);

/// The set of bit positions enabled in a `FixedBitSet`.
pub uninterp spec fn fixed_bits(b: FixedBitSet) -> Set<usize>;

/// Relies on fixedbitset's `FixedBitSet::contains`: returns whether the bit
/// is enabled; bits outside the capacity are always disabled, and the call
/// never panics.
#[verifier::external_body]
pub fn bit_contains(b: &FixedBitSet, bit: usize) -> (r: bool)
    ensures
        r == fixed_bits(*b).contains(bit),
{
    b.contains(bit)
}

} // verus!
