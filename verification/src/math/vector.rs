use super::rank::Rank;
use vstd::prelude::*;

verus! {

/// The rank of the length below which a component of a vector counts as nothing:
/// a hundred-millionth.
pub const NEAR_ZERO: Rank = 0x3E45_798E_E230_8C3A;

/// A vector with the components of the ranks `x`, `y` and `z` is too short in
/// every axis to give a direction: the magnitude of each component is below
/// `NEAR_ZERO`.
pub open spec fn spec_is_near_zero(x: int, y: int, z: int) -> bool {
    &&& -NEAR_ZERO < x < NEAR_ZERO
    &&& -NEAR_ZERO < y < NEAR_ZERO
    &&& -NEAR_ZERO < z < NEAR_ZERO
}

/// Whether a vector is too short in every axis to give a direction.
pub fn is_near_zero(x: Rank, y: Rank, z: Rank) -> (near: bool)
    ensures
        near == spec_is_near_zero(x as int, y as int, z as int),
{
    -NEAR_ZERO < x && x < NEAR_ZERO && -NEAR_ZERO < y && y < NEAR_ZERO && -NEAR_ZERO < z && z
        < NEAR_ZERO
}

/// The zero vector is near zero, and a vector with a component of one or more is
/// not.
pub proof fn lemma_near_zero(x: int, y: int, z: int)
    ensures
        spec_is_near_zero(0, 0, 0),
        spec_is_near_zero(x, y, z) ==> x < super::rank::ONE && y < super::rank::ONE && z
            < super::rank::ONE,
{
}

} // verus!
