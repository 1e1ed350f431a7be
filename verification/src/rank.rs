//! Ranks of single-precision values.
//!
//! The rank of a value is the 32-bit integer that holds its magnitude bits,
//! negated where the value is negative. Ranks order as the values do, the
//! rank of `-x` is the negated rank of `x`, and both zeros have rank zero.

use vstd::prelude::*;

verus! {

/// The rank of positive infinity: no finite value ranks above it.
pub const RANK_INFINITY: i32 = 0x7f80_0000;

/// Whether a rank stands for a finite value greater than zero.
pub open spec fn is_positive_finite(r: i32) -> bool {
    0 < r < RANK_INFINITY
}

/// Whether a rank stands for a finite value greater than zero.
pub fn positive_finite(r: i32) -> (ok: bool)
    ensures
        ok == is_positive_finite(r),
{
    0 < r && r < RANK_INFINITY
}

} // verus!
