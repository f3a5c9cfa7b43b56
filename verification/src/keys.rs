//! Order keys: non-negative reals carried as integers that sort the same way.
//!
//! A key is the IEEE-754 binary64 bit pattern of a non-negative number. Zero is
//! key 0, and for two keys `a < b` holds exactly when it holds of the numbers.

use vstd::prelude::*;

verus! {

/// Key of positive infinity, the largest key.
pub const INFINITY_KEY: u64 = 0x7FF0_0000_0000_0000;

/// Key of the number one.
pub const ONE_KEY: u64 = 0x3FF0_0000_0000_0000;

/// Key of the largest number strictly below one.
pub const BELOW_ONE_KEY: u64 = 0x3FEF_FFFF_FFFF_FFFF;

/// One entry of a weighted vector: a coordinate id with the key of its weight.
/// A weighted vector lists its entries by strictly ascending id.
pub type Weighted = (u64, u64);

/// A dart, or what a bucket holds: an identity with the key of its rank. The
/// rank of a dart is finite; a bucket that holds no dart holds identity zero at
/// infinite rank.
pub type Dart = (u64, u64);

/// `b` is the key of a non-negative number or of positive infinity.
pub open spec fn is_key(b: u64) -> bool {
    b <= INFINITY_KEY
}

/// `b` is the key of a finite non-negative number.
pub open spec fn is_finite_key(b: u64) -> bool {
    b < INFINITY_KEY
}

/// The ids of `x` are strictly ascending.
pub open spec fn ascending_ids(x: Seq<Weighted>) -> bool {
    forall|i: int, j: int| 0 <= i < j < x.len() ==> (#[trigger] x[i]).0 < (#[trigger] x[j]).0
}

/// The uniform variate with key `u` moved inside `[0, 1)`: a key at or above
/// that of one stands for the largest number below one.
pub open spec fn below_one(u: u64) -> u64 {
    if u >= ONE_KEY {
        BELOW_ONE_KEY
    } else {
        u
    }
}

/// Moves the uniform variate with key `u` inside `[0, 1)`: a key at or above that
/// of one becomes the key of the largest number below one.
pub fn clamp_unit(u: u64) -> (v: u64)
    ensures
        v == below_one(u),
        v < ONE_KEY,
{
    if u >= ONE_KEY {
        BELOW_ONE_KEY
    } else {
        u
    }
}

} // verus!
