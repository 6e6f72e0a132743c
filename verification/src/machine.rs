//! Machines: the powered structures that occupy tiles.

use vstd::prelude::*;

use crate::dir::Dir;
use crate::pos::TilePos;

verus! {

/// What a machine is. A construction site remembers the machine type being
/// built on it.
#[derive(Debug, PartialEq, Eq)]
pub enum MachineType {
    Spawn,
    Lab,
    ConstructionSite(Box<MachineType>),
    Platform,
}

impl MachineType {
    pub open spec fn num_spec(self) -> int {
        match self {
            MachineType::Spawn => 0,
            MachineType::Lab => 1,
            MachineType::ConstructionSite(_) => 2,
            MachineType::Platform => 3,
        }
    }

    /// The sprite index of this machine type. Platforms are drawn as tiles,
    /// not as machine sprites, so they have no index.
    pub fn num(&self) -> (r: usize)
        requires
            !(*self is Platform),
        ensures
            r == self.num_spec(),
    {
        match self {
            MachineType::Spawn => 0,
            MachineType::Lab => 1,
            MachineType::ConstructionSite(_) => 2,
            MachineType::Platform => 3,
        }
    }
}

/// A machine on the grid: its position, its type, the direction toward the
/// machine currently supplying it with power (if any), the derived power
/// flag, and an optional cooldown counter.
pub struct Machine {
    pub pos: TilePos,
    pub machine_type: MachineType,
    pub power_source: Option<Dir>,
    pub power: bool,
    pub cooldown: Option<usize>,
}

impl Machine {
    pub open spec fn is_spawn_spec(self) -> bool {
        self.machine_type is Spawn
    }

    pub open spec fn is_construction_spec(self) -> bool {
        self.machine_type is ConstructionSite
    }

    pub open spec fn power_source_spec(self) -> Option<Dir> {
        self.power_source
    }

    pub open spec fn powered_spec(self) -> bool {
        self.power
    }

    pub open spec fn cooldown_spec(self) -> Option<usize> {
        self.cooldown
    }

    /// A machine starts with no power supplier and unpowered.
    pub fn new(pos: TilePos, machine_type: MachineType) -> (r: Machine)
        ensures
            r.pos == pos,
            r.machine_type == machine_type,
            r.power_source_spec() is None,
            !r.powered_spec(),
            r.cooldown_spec() is None,
    {
        Machine { pos, machine_type, power_source: None, power: false, cooldown: None }
    }

    pub fn is_spawn(&self) -> (r: bool)
        ensures
            r == self.is_spawn_spec(),
    {
        matches!(self.machine_type, MachineType::Spawn)
    }

    /// Whether the machine is a power root or has a stored supplier link.
    pub fn has_power_source(&self) -> (r: bool)
        ensures
            r == (self.is_spawn_spec() || self.power_source_spec() is Some),
    {
        self.is_spawn() || self.power_source.is_some()
    }

    /// The stored direction toward this machine's power supplier.
    pub fn power_source(&self) -> (r: Option<Dir>)
        ensures
            r == self.power_source_spec(),
    {
        self.power_source
    }

    pub fn set_power_source(&mut self, source: Option<Dir>)
        ensures
            final(self).pos == old(self).pos,
            final(self).machine_type == old(self).machine_type,
            final(self).power_source_spec() == source,
            final(self).powered_spec() == old(self).powered_spec(),
            final(self).cooldown_spec() == old(self).cooldown_spec(),
    {
        self.power_source = source;
    }

    /// Whether the machine counts as powered now.
    pub fn powered(&self) -> (r: bool)
        ensures
            r == self.powered_spec(),
    {
        self.power
    }

    /// What the power flag becomes when it is rederived: a Spawn is always
    /// powered, a construction site is always powered, and anything else is
    /// powered exactly when it has a supplier link and the external resource
    /// gate is satisfied.
    pub open spec fn derived_power(self, spawn_has_power: bool) -> bool {
        self.is_spawn_spec() || self.is_construction_spec() || (self.power_source_spec() is Some
            && spawn_has_power)
    }

    /// Rederives the power flag from the machine's type, its supplier link,
    /// and the external resource gate.
    pub fn update(&mut self, spawn_has_power: bool)
        ensures
            final(self).pos == old(self).pos,
            final(self).machine_type == old(self).machine_type,
            final(self).power_source_spec() == old(self).power_source_spec(),
            final(self).cooldown_spec() == old(self).cooldown_spec(),
            final(self).powered_spec() == old(self).derived_power(spawn_has_power),
    {
        self.power = self.is_spawn() || matches!(self.machine_type, MachineType::ConstructionSite(_))
            || (self.power_source.is_some() && spawn_has_power);
    }

    /// Detaches the machine from the world when its tile is overwritten; it
    /// holds no other resources, so nothing is left to release.
    pub fn remove(&mut self)
        ensures
            *final(self) == *old(self),
    {
    }
}

} // verus!
