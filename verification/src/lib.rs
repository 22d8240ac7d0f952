//! A 2D particle-physics kernel: velocity-free Verlet integration, N-body and
//! parametric gravity, boundary confinement, distance constraints and
//! brute-force pairwise collision resolution, all over exact integer
//! coordinates.
//!
//! Coordinates are `i64` values; a coordinate counts as *finite* while it lies
//! inside the world range.  A value that leaves that range plays the role a
//! non-finite float plays in a floating-point kernel: arithmetic on it is
//! skipped, integration recovers the particle from its previous position, and
//! the step reports it for discarding.

use vstd::prelude::*;

pub mod bounds;
pub mod collision;
pub mod constraints;
pub mod for_pairs;
pub mod gravity;
pub mod math;
pub mod object;
pub mod step;
pub mod vec2;

verus! {

/// Largest magnitude a coordinate may have while still counting as finite.
pub const MAX_COORD: i64 = 0x4000_0000;

/// Largest mass a well-formed particle may have (masses are at least 1).
pub const MAX_MASS: i64 = 0x10_0000;

/// Largest magnitude allowed for the gravitational constant and for the
/// strength of a point-source gravity field.
pub const MAX_GRAV: i64 = 0x100_0000_0000;

/// Largest time step a substep may be given.
pub const MAX_DT: i64 = 0x10_0000;

/// A coordinate is finite when it lies inside the simulation world.
pub open spec fn coord_finite(c: i64) -> bool {
    -MAX_COORD <= c <= MAX_COORD
}

/// String-slice equality, decided through owned strings.
pub fn str_eq(a: &str, b: &str) -> (r: bool)
    ensures
        r == (a@ == b@),
{
    let sa = a.to_owned();
    let sb = b.to_owned();
    sa == sb
}

} // verus!
