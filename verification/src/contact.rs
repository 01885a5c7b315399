//! When contact between two bodies is resolved.
//!
//! The caller measures the pair and reports three comparisons: the distance
//! between the centres against zero, the same distance against the sum of the
//! radii, and the relative velocity along the line of centres against zero.
//! A comparison that has no outcome, because a value is not a number, is `None`
//! and rules nothing out.

use std::cmp::Ordering;
use vstd::prelude::*;

verus! {

/// The centres lie on one point, so the pair has no line of centres.
pub open spec fn coincident(gap_to_zero: Option<Ordering>) -> bool {
    gap_to_zero == Some(Ordering::Equal)
}

/// The centres are at least the sum of the radii apart.
pub open spec fn clear(gap_to_reach: Option<Ordering>) -> bool {
    gap_to_reach == Some(Ordering::Greater) || gap_to_reach == Some(Ordering::Equal)
}

/// The bodies are already moving apart along the line of centres.
pub open spec fn separating(approach_to_zero: Option<Ordering>) -> bool {
    approach_to_zero == Some(Ordering::Greater)
}

/// Decides from the distance alone whether a pair is looked at any further:
/// `false` for a pair whose centres coincide or that is clear.
pub fn overlapping(gap_to_zero: Option<Ordering>, gap_to_reach: Option<Ordering>) -> (go_on: bool)
    ensures
        go_on == (!coincident(gap_to_zero) && !clear(gap_to_reach)),
{
    let on_one_point = match gap_to_zero {
        Some(Ordering::Equal) => true,
        _ => false,
    };
    let apart = match gap_to_reach {
        Some(Ordering::Greater) => true,
        Some(Ordering::Equal) => true,
        _ => false,
    };
    !(on_one_point || apart)
}

/// Decides for an overlapping pair whether velocities are exchanged and the
/// overlap is pushed out: `false` for a pair that is separating.
pub fn closing(approach_to_zero: Option<Ordering>) -> (go_on: bool)
    ensures
        go_on == !separating(approach_to_zero),
{
    match approach_to_zero {
        Some(Ordering::Greater) => false,
        _ => true,
    }
}

} // verus!
