//! A dense 2-D grid of destructible material cells, the core of a
//! falling-sand style world.
//!
//! The grid ([`volume::MaterialVolume`]) stores an optional [`material::Material`]
//! per cell at double resolution: each logical unit cell holds a 2x2 sub-grid,
//! and continuous positions are mapped onto it under a diamond subdivision
//! scheme ([`mapper`]). Every mutation is bounds-checked and reported to a
//! size-adaptive dirty-region tracker ([`tracker::UpdateHandler`]), which a
//! periodic synchronization step consults to push only the changed part of the
//! backing pixel image to an external presentation buffer.

use vstd::prelude::*;

pub mod collider;
pub mod mapper;
pub mod material;
pub mod tracker;
pub mod volume;

verus! {

/// The two failure kinds of this library.
///
/// `OutOfBounds` stands for an index or mapped position outside the grid; it
/// is always recoverable and is signalled through a failing return value.
/// `InvariantViolation` stands for an attempt to construct a value that would
/// break a type invariant, such as a material with a zero integrity ceiling.
#[derive(Clone, Copy, Debug, PartialEq, Eq, Structural)]
pub enum VolumeError {
    OutOfBounds,
    InvariantViolation,
}

} // verus!
