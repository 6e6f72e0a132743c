//! The materials a tile can hold, and their derived properties.

use vstd::prelude::*;

verus! {

/// The substance occupying one tile of the terrain grid.
#[derive(PartialEq, Eq, Clone, Copy, Debug, Structural)]
pub enum Material {
    Air,
    Bedrock,
    Granite,
    Rock,
    Ore,
    Crystal,
    Debris,
    Platform,
    Machine,
}

impl Material {
    /// Solid materials block movement and stop the visibility flood.
    pub open spec fn is_solid_spec(self) -> bool {
        !(self == Material::Air || self == Material::Platform || self == Material::Debris)
    }

    pub fn is_solid(self) -> (r: bool)
        ensures
            r == self.is_solid_spec(),
    {
        !matches!(self, Material::Air | Material::Platform | Material::Debris)
    }

    /// Cost of walking over a tile of this material; `None` means impassable.
    pub open spec fn walk_cost_spec(self) -> Option<usize> {
        match self {
            Material::Air => Some(2usize),
            Material::Platform => Some(1usize),
            Material::Debris => Some(4usize),
            _ => None,
        }
    }

    pub fn walk_cost(self) -> (r: Option<usize>)
        ensures
            r == self.walk_cost_spec(),
    {
        match self {
            Material::Air => Some(2),
            Material::Platform => Some(1),
            Material::Debris => Some(4),
            _ => None,
        }
    }
}

/// A material a worker can stockpile.
#[derive(PartialEq, Eq, Clone, Copy, Debug, Structural)]
pub enum Mineral {
    Ore,
    Crystal,
}

impl Mineral {
    /// How many kinds of mineral exist.
    pub fn count() -> (r: usize)
        ensures
            r == 2,
    {
        2
    }

    pub open spec fn num_spec(self) -> int {
        match self {
            Mineral::Ore => 0,
            Mineral::Crystal => 1,
        }
    }

    /// The index of this mineral, usable as a stockpile slot.
    pub fn num(self) -> (r: usize)
        ensures
            r == self.num_spec(),
    {
        match self {
            Mineral::Ore => 0,
            Mineral::Crystal => 1,
        }
    }
}

} // verus!
