//! Integer helpers.
use vstd::prelude::*;

verus! {

/// The sum of two 32-bit signed integers; the sum must fit in an `i32`.
pub fn add(a: i32, b: i32) -> (r: i32)
    requires
        i32::MIN <= a + b <= i32::MAX,
    ensures
        r == a + b,
{
    a + b
}

} // verus!
