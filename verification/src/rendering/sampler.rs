use crate::math::rank::Rank;
use crate::math::rank::ONE;
use vstd::prelude::*;

verus! {

/// The rank of the squared length at or below which a drawn vector is too short
/// to be brought to length one: ten to the power of minus one hundred and sixty.
pub const SHORTEST: Rank = 0x1EB6_7E9C_127B_6E74;

/// A vector drawn from the cube is taken for a direction: its squared length is
/// above `SHORTEST` and at most one, so that the vector lies in the unit ball and
/// is long enough to be brought to length one.
pub open spec fn spec_accepts(length_squared: int) -> bool {
    SHORTEST < length_squared <= ONE
}

/// Decides whether a vector drawn from the cube is taken for a direction or
/// thrown away, by the rank of its squared length.
///
/// Taking the vectors of the unit ball only, and bringing them to length one,
/// makes every direction as likely as any other.
pub fn accepts(length_squared: Rank) -> (taken: bool)
    ensures
        taken == spec_accepts(length_squared as int),
{
    SHORTEST < length_squared && length_squared <= ONE
}

/// What is taken for a direction is not the zero vector: its squared length is
/// above zero.
pub proof fn lemma_accepted_is_not_zero(length_squared: int)
    requires
        spec_accepts(length_squared),
    ensures
        0 < length_squared <= ONE,
{
}

} // verus!
