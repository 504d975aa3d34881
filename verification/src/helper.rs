//! Small comparator helpers used by the event and segment orderings.

use vstd::prelude::*;
use core::cmp::Ordering;

verus! {

/// Turns a tie-break predicate into a three-way comparison: `Less` exactly
/// when the condition holds, `Greater` otherwise.
pub fn less_if(condition: bool) -> (r: Ordering)
    ensures
        r == (if condition {
            Ordering::Less
        } else {
            Ordering::Greater
        }),
{
    if condition {
        Ordering::Less
    } else {
        Ordering::Greater
    }
}

/// The inverted form of `less_if`: `Greater` exactly when the condition holds.
pub fn less_if_inversed(condition: bool) -> (r: Ordering)
    ensures
        r == (if condition {
            Ordering::Greater
        } else {
            Ordering::Less
        }),
{
    if condition {
        Ordering::Greater
    } else {
        Ordering::Less
    }
}

} // verus!
