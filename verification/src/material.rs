//! The per-cell payload: an immutable material value.
//!
//! A `Material` is stored by value into an occupied grid cell. Its one
//! invariant is a non-zero integrity ceiling: "no material" is represented by
//! the absence of a value, never by a zero ceiling, so construction rejects
//! `max_integrity == 0` instead of storing it.

use vstd::prelude::*;
use crate::VolumeError;

verus! {

/// One RGBA pixel, four unsigned 8-bit channels.
#[derive(Clone, Copy, Debug, PartialEq, Eq, Structural)]
pub struct Rgba {
    pub r: u8,
    pub g: u8,
    pub b: u8,
    pub a: u8,
}

/// The payload of an occupied cell. A copyable value type with no identity.
///
/// Fields are private so that the construction invariant (a non-zero
/// `max_integrity`) cannot be bypassed; every accessor is mirrored by a spec
/// function that contracts speak of.
#[derive(Clone, Copy, Debug, PartialEq, Eq, Structural)]
pub struct Material {
    base_color: Rgba,
    integrity: u16,
    max_integrity: u16,
    collision_layers: u8,
    temperature: i8,
}

impl Material {
    /// The color this material contributes to the backing image.
    pub closed spec fn spec_base_color(self) -> Rgba {
        self.base_color
    }

    /// Current durability.
    pub closed spec fn spec_integrity(self) -> u16 {
        self.integrity
    }

    /// Durability ceiling; well-formed materials keep it non-zero.
    pub closed spec fn spec_max_integrity(self) -> u16 {
        self.max_integrity
    }

    /// Bitmask of the collision layers this material participates in.
    pub closed spec fn spec_collision_layers(self) -> u8 {
        self.collision_layers
    }

    /// Signed thermal scalar, a placeholder for future simulation.
    pub closed spec fn spec_temperature(self) -> i8 {
        self.temperature
    }

    /// The construction invariant: a cell with a zero integrity ceiling
    /// cannot exist.
    pub open spec fn wf(self) -> bool {
        self.spec_max_integrity() != 0
    }

    /// Builds a material, rejecting a zero integrity ceiling.
    pub fn new(
        base_color: Rgba,
        integrity: u16,
        max_integrity: u16,
        collision_layers: u8,
        temperature: i8,
    ) -> (r: Result<Material, VolumeError>)
        ensures
            r is Ok <==> max_integrity != 0,
            r matches Ok(m) ==> {
                &&& m.wf()
                &&& m.spec_base_color() == base_color
                &&& m.spec_integrity() == integrity
                &&& m.spec_max_integrity() == max_integrity
                &&& m.spec_collision_layers() == collision_layers
                &&& m.spec_temperature() == temperature
            },
            r matches Err(e) ==> e == VolumeError::InvariantViolation,
    {
        if max_integrity == 0 {
            Err(VolumeError::InvariantViolation)
        } else {
            Ok(Material { base_color, integrity, max_integrity, collision_layers, temperature })
        }
    }

    /// The same material with another base color; every other field is kept.
    pub closed spec fn spec_with_base_color(self, c: Rgba) -> Material {
        Material { base_color: c, ..self }
    }

    /// Replaces the base color, keeping all other fields and well-formedness.
    pub fn with_base_color(&self, c: Rgba) -> (m: Material)
        ensures
            m == self.spec_with_base_color(c),
            m.spec_base_color() == c,
            m.spec_integrity() == self.spec_integrity(),
            m.spec_max_integrity() == self.spec_max_integrity(),
            m.spec_collision_layers() == self.spec_collision_layers(),
            m.spec_temperature() == self.spec_temperature(),
            m.wf() == self.wf(),
    {
        Material { base_color: c, ..*self }
    }

    /// Reads the base color.
    pub fn base_color(&self) -> (c: Rgba)
        ensures
            c == self.spec_base_color(),
    {
        self.base_color
    }

    /// Reads the current durability.
    pub fn integrity(&self) -> (v: u16)
        ensures
            v == self.spec_integrity(),
    {
        self.integrity
    }

    /// Reads the durability ceiling.
    pub fn max_integrity(&self) -> (v: u16)
        ensures
            v == self.spec_max_integrity(),
    {
        self.max_integrity
    }

    /// Reads the collision layer bitmask.
    pub fn collision_layers(&self) -> (v: u8)
        ensures
            v == self.spec_collision_layers(),
    {
        self.collision_layers
    }

    /// Reads the thermal scalar.
    pub fn temperature(&self) -> (v: i8)
        ensures
            v == self.spec_temperature(),
    {
        self.temperature
    }
}

} // verus!
