use vstd::arithmetic::power2::pow2;
use vstd::prelude::*;

verus! {

/// A real number as the library takes it: the rank of a double.
///
/// The rank of a double that is zero or above is its bit pattern read as a whole
/// number: the eleven bits of the exponent above the fifty-two bits of the
/// fraction. The rank of a double below zero is the rank of its magnitude with a
/// minus sign. So the ranks are in the order of the doubles, zero has rank 0, and
/// a rank has the sign of its double. The library computes nothing with reals; it
/// compares them, and for that a rank will do.
///
/// What is not a number has no place in that order. A caller that has to pass
/// one passes the lowest integer: it lies below the rank of every number and in
/// no range of them, and it counts as negative.
pub type Rank = i64;

/// The rank of one.
pub const ONE: Rank = 0x3FF0_0000_0000_0000;

/// The rank of infinity. The ranks of the numbers lie from its negative up to it.
pub const INFINITY: Rank = 0x7FF0_0000_0000_0000;

/// Two to the power of fifty-two: the ranks of the doubles with one exponent are
/// that many in a row.
pub const BINADE: Rank = 0x10_0000_0000_0000;

/// The exponent field of the rank of a magnitude.
pub open spec fn spec_exponent_field(r: int) -> int {
    r / (BINADE as int)
}

/// The fraction field of the rank of a magnitude.
pub open spec fn spec_fraction_field(r: int) -> int {
    r % (BINADE as int)
}

/// The significand of the magnitude with rank `r`: the magnitude is the
/// significand times two to the power of `spec_exponent(r)`.
pub open spec fn spec_significand(r: int) -> int {
    if spec_exponent_field(r) == 0 {
        spec_fraction_field(r)
    } else {
        BINADE + spec_fraction_field(r)
    }
}

/// The exponent of the magnitude with rank `r`: the magnitude is
/// `spec_significand(r)` times two to this power.
pub open spec fn spec_exponent(r: int) -> int {
    if spec_exponent_field(r) == 0 {
        -1074
    } else {
        spec_exponent_field(r) - 1075
    }
}

/// The whole part of two hundred and fifty-six times the magnitude with rank `r`,
/// for a magnitude up to one.
pub open spec fn spec_scaled(r: int) -> int
    recommends
        0 <= r <= ONE,
{
    spec_significand(r) / (pow2((-spec_exponent(r) - 8) as nat) as int)
}

} // verus!
