//! When a body is turned back by a wall.
//!
//! The walls stand at zero and at the limit of each axis. On each axis the
//! caller reports the body's near edge (centre less radius) against zero, and
//! then the far edge (centre plus radius) against the limit. A body that
//! crosses a wall is set back so that its edge touches the wall, and its
//! velocity on that axis changes sign. The far edge is measured after the near
//! wall has been answered.

use std::cmp::Ordering;
use vstd::prelude::*;

verus! {

/// The near edge lies below zero.
pub open spec fn below(edge_to_zero: Option<Ordering>) -> bool {
    edge_to_zero == Some(Ordering::Less)
}

/// The far edge lies beyond the limit.
pub open spec fn beyond(edge_to_limit: Option<Ordering>) -> bool {
    edge_to_limit == Some(Ordering::Greater)
}

/// Decides whether the wall at zero turns the body back.
pub fn crosses_low(edge_to_zero: Option<Ordering>) -> (hit: bool)
    ensures
        hit == below(edge_to_zero),
{
    match edge_to_zero {
        Some(Ordering::Less) => true,
        _ => false,
    }
}

/// Decides whether the wall at the limit turns the body back.
pub fn crosses_high(edge_to_limit: Option<Ordering>) -> (hit: bool)
    ensures
        hit == beyond(edge_to_limit),
{
    match edge_to_limit {
        Some(Ordering::Greater) => true,
        _ => false,
    }
}

} // verus!
