//! The discrete half of a two-dimensional particle simulation.
//!
//! A time step advances every body and then resolves contact between every
//! pair of bodies, one pair after the other. This crate fixes the order of
//! that work and the rules that decide whether a wall or a contact is
//! answered at all. Coordinates are floating point and stay with the caller,
//! who reports each comparison it makes as an `Option<Ordering>`, the value
//! `partial_cmp` returns.

pub mod contact;
pub mod plan;
pub mod wall;
