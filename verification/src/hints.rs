//! Branch hints.
use vstd::prelude::*;

verus! {

/// `likely_stable::likely` tells the compiler that a condition mostly
/// holds. Trusted: it gives back the condition it was given.
pub assume_specification[ likely_stable::likely ](b: bool) -> (r: bool)
    ensures
        r == b,
;

/// `likely_stable::unlikely` tells the compiler that a condition mostly
/// does not hold. Trusted: it gives back the condition it was given.
pub assume_specification[ likely_stable::unlikely ](b: bool) -> (r: bool)
    ensures
        r == b,
;

} // verus!
