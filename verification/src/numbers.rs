//! Numbers that are given out one after the other.

use vstd::prelude::*;

verus! {

/// The number after a number, starting over after the largest.
pub open spec fn number_after(number: u64) -> u64 {
    if number == u64::MAX {
        0
    } else {
        (number + 1) as u64
    }
}

/// The number after a number, starting over after the largest.
pub fn following(number: u64) -> (r: u64)
    ensures
        r == number_after(number),
{
    if number == u64::MAX {
        0
    } else {
        number + 1
    }
}

} // verus!
