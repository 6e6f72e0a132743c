//! The world: terrain grid, machine registry, changed-tile set and
//! pathfinding index, kept in lock-step. The grid holds Machine or Platform
//! material at a tile exactly when the registry holds a machine there, and
//! every tile whose walking cost changed stays in the changed-tile set until
//! the next tick drains it into the pathfinding index.

use vstd::prelude::*;

use crate::dir::Dir;
use crate::grid::Grid;
use crate::machine::{Machine, MachineType};
use crate::material::Material;
use crate::pathing;
use crate::pathing::{Path, PathIndex};
use crate::pos::TilePos;
use crate::power;

verus! {

broadcast use vstd::seq_lib::group_seq_properties;

/// Milliseconds of simulated time between two simulation steps.
pub const TICK_INTERVAL_MS: u64 = 200;

/// Whether this material means a machine entry must exist on the tile.
pub open spec fn machine_material(m: Material) -> bool {
    m == Material::Machine || m == Material::Platform
}

/// Whether some tile of `ts` has coordinates (x, y).
pub open spec fn pos_in(ts: Seq<TilePos>, x: int, y: int) -> bool {
    exists|i: int| 0 <= i < ts.len() && (#[trigger] ts[i]).x == x && ts[i].y == y
}

pub struct World {
    pub(crate) grid: Grid,
    pub(crate) index: PathIndex,
    pub(crate) dirty: bool,
    pub(crate) debug_mode: bool,
    pub(crate) changes: Vec<TilePos>,
    pub(crate) machines: Vec<Machine>,
    pub(crate) spawns: Vec<TilePos>,
    pub(crate) carry: u64,
}

impl World {
    pub open(crate) spec fn grid_spec(self) -> Grid {
        self.grid
    }

    pub open(crate) spec fn machines_spec(self) -> Seq<Machine> {
        self.machines@
    }

    pub open(crate) spec fn changes_spec(self) -> Seq<TilePos> {
        self.changes@
    }

    pub open(crate) spec fn spawns_spec(self) -> Seq<TilePos> {
        self.spawns@
    }

    pub open(crate) spec fn dirty_spec(self) -> bool {
        self.dirty
    }

    pub open(crate) spec fn debug_mode_spec(self) -> bool {
        self.debug_mode
    }

    pub open(crate) spec fn carry_spec(self) -> int {
        self.carry as int
    }

    pub open(crate) spec fn index_spec(self) -> PathIndex {
        self.index
    }

    /// The two worlds differ at most in the redraw and debug flags.
    pub open(crate) spec fn same_but_flags(self, other: World) -> bool {
        &&& other.grid == self.grid
        &&& other.index == self.index
        &&& other.changes == self.changes
        &&& other.machines == self.machines
        &&& other.spawns == self.spawns
        &&& other.carry == self.carry
    }

    pub open(crate) spec fn width_spec(self) -> int {
        self.grid.width_spec()
    }

    pub open(crate) spec fn height_spec(self) -> int {
        self.grid.height_spec()
    }

    /// The standing invariant: the grid is well formed; machine positions
    /// are distinct, in range, and in lock-step with the Machine/Platform
    /// materials of the grid; changed tiles are in range; the pathfinding
    /// index has the grid's dimensions and reflects its costs everywhere
    /// outside the changed-tile set; and the tick accumulator holds less
    /// than one interval.
    pub open(crate) spec fn wf(self) -> bool {
        &&& self.grid.wf()
        &&& power::positions_distinct(self.machines@)
        &&& forall|i: int|
            0 <= i < self.machines@.len() ==> self.grid.in_bounds_p(
                (#[trigger] self.machines@[i]).pos,
            )
        &&& forall|i: int|
            0 <= i < self.machines@.len() ==> machine_material(
                self.grid.mat_p((#[trigger] self.machines@[i]).pos),
            )
        &&& forall|x: int, y: int|
            self.grid.in_bounds(x, y) && machine_material(self.grid.mat(x, y))
                ==> power::has_machine(
                self.machines@,
                (TilePos { x: x as usize, y: y as usize }),
            )
        &&& forall|i: int|
            0 <= i < self.changes@.len() ==> self.grid.in_bounds_p(#[trigger] self.changes@[i])
        &&& pathing::index_size(self.index) == (self.grid.width_spec(), self.grid.height_spec())
        &&& forall|x: int, y: int|
            pathing::index_costs(self.index)[(x, y)] == self.grid.cost_spec(x, y) || pos_in(
                self.changes@,
                x,
                y,
            )
        &&& self.carry < TICK_INTERVAL_MS
    }

    /// A world with freshly generated terrain, a pathfinding index built
    /// over it, and no machines yet.
    pub fn new(width: usize, height: usize) -> (r: World)
        requires
            4 <= width,
            4 <= height,
            width * height <= usize::MAX,
        ensures
            r.wf(),
            r.width_spec() == width,
            r.height_spec() == height,
            forall|x: int, y: int|
                r.grid_spec().in_bounds(x, y) ==> crate::gen::gen_material(r.grid_spec().mat(x, y)),
            forall|x: int, y: int|
                r.grid_spec().in_bounds(x, y) && (x == 0 || x == width - 1 || y == 0 || y == height
                    - 1) ==> r.grid_spec().mat(x, y) == Material::Bedrock,
            r.grid_spec().centre_air(),
            forall|q: TilePos|
                r.grid_spec().in_bounds_p(q) ==> r.grid_spec().vis_p(q) == (q
                    == r.grid_spec().mid_spec() || r.grid_spec().open_reaches(
                    r.grid_spec().mid_spec(),
                    q,
                )),
            r.machines_spec().len() == 0,
            r.changes_spec().len() == 0,
            r.spawns_spec().len() == 0,
            r.dirty_spec(),
            r.carry_spec() == 0,
    {
        let grid = Grid::new(width, height);
        let index = pathing::cache_new(width, height, &grid);
        World {
            grid,
            index,
            dirty: true,
            debug_mode: false,
            changes: Vec::new(),
            machines: Vec::new(),
            spawns: Vec::new(),
            carry: 0,
        }
    }

    pub fn width(&self) -> (r: usize)
        ensures
            r == self.width_spec(),
    {
        self.grid.size().x
    }

    pub fn height(&self) -> (r: usize)
        ensures
            r == self.height_spec(),
    {
        self.grid.size().y
    }

    /// The terrain grid, for read-only queries.
    pub fn grid(&self) -> (r: &Grid)
        ensures
            *r == self.grid_spec(),
    {
        &self.grid
    }

    /// The material at `pos`, or `None` out of range.
    pub fn get(&self, pos: TilePos) -> (r: Option<Material>)
        requires
            self.wf(),
        ensures
            r == (if self.grid_spec().in_bounds_p(pos) {
                Option::<Material>::Some(self.grid_spec().mat_p(pos))
            } else {
                Option::<Material>::None
            }),
    {
        self.grid.get(pos)
    }

    /// Whether `pos` blocks movement; out-of-range tiles count as solid.
    pub fn is_solid(&self, pos: TilePos) -> (r: bool)
        requires
            self.wf(),
        ensures
            r == (!self.grid_spec().in_bounds_p(pos) || self.grid_spec().mat_p(
                pos,
            ).is_solid_spec()),
    {
        self.grid.is_solid(pos)
    }

    /// The walking cost of `pos`, or `None` if solid or out of range.
    pub fn walk_cost(&self, pos: TilePos) -> (r: Option<usize>)
        requires
            self.wf(),
        ensures
            r == (if self.grid_spec().in_bounds_p(pos) {
                self.grid_spec().mat_p(pos).walk_cost_spec()
            } else {
                Option::<usize>::None
            }),
    {
        self.grid.walk_cost(pos)
    }

    /// Whether `pos` has been revealed.
    pub fn is_visible(&self, pos: TilePos) -> (r: bool)
        requires
            self.wf(),
        ensures
            r == (self.grid_spec().in_bounds_p(pos) && self.grid_spec().vis_p(pos)),
    {
        self.grid.is_visible(pos)
    }

    /// Marks the redraw flag: the cached background must be rebuilt.
    pub fn set_dirty(&mut self)
        requires
            old(self).wf(),
        ensures
            final(self).wf(),
            final(self).dirty_spec(),
            final(self).debug_mode_spec() == old(self).debug_mode_spec(),
            old(self).same_but_flags(*final(self)),
    {
        self.dirty = true;
    }

    /// Whether the cached background must be rebuilt.
    pub fn is_dirty(&self) -> (r: bool)
        ensures
            r == self.dirty_spec(),
    {
        self.dirty
    }

    /// Clears the redraw flag once the cached background has been rebuilt.
    pub fn clear_dirty(&mut self)
        requires
            old(self).wf(),
        ensures
            final(self).wf(),
            !final(self).dirty_spec(),
            final(self).debug_mode_spec() == old(self).debug_mode_spec(),
            old(self).same_but_flags(*final(self)),
    {
        self.dirty = false;
    }

    pub fn debug_mode(&self) -> (r: bool)
        ensures
            r == self.debug_mode_spec(),
    {
        self.debug_mode
    }

    /// Flips the debug overlay and marks the world for redraw.
    pub fn toggle_debug_mode(&mut self)
        requires
            old(self).wf(),
        ensures
            final(self).wf(),
            final(self).dirty_spec(),
            final(self).debug_mode_spec() == !old(self).debug_mode_spec(),
            old(self).same_but_flags(*final(self)),
    {
        self.debug_mode = !self.debug_mode;
        self.set_dirty();
    }

    /// Reveals `pos` and floods visibility outward, marking the world for
    /// redraw; see `Grid::set_visible` for the flood's exact effect.
    pub fn set_visible_p(&mut self, pos: TilePos)
        requires
            old(self).wf(),
            old(self).grid_spec().in_bounds_p(pos),
        ensures
            final(self).wf(),
            final(self).dirty_spec(),
            final(self).machines_spec() == old(self).machines_spec(),
            final(self).changes_spec() == old(self).changes_spec(),
            final(self).grid_spec().width_spec() == old(self).grid_spec().width_spec(),
            final(self).grid_spec().height_spec() == old(self).grid_spec().height_spec(),
            forall|x: int, y: int|
                old(self).grid_spec().in_bounds(x, y) ==> final(self).grid_spec().mat(x, y) == old(self).grid_spec().mat(x, y),
            forall|q: TilePos|
                old(self).grid_spec().in_bounds_p(q) ==> final(self).grid_spec().vis_p(q) == (old(self).grid_spec().vis_p(q) || q == pos || old(self).grid_spec().floods_to(pos, q)),
    {
        self.dirty = true;
        self.grid.set_visible(pos);
        proof {
            let g0 = old(self).grid;
            assert forall|i: int|
                0 <= i < self.machines@.len() implies machine_material(
                self.grid.mat_p((#[trigger] self.machines@[i]).pos),
            ) by {
                assert(machine_material(g0.mat_p(self.machines@[i].pos)));
            }
            assert forall|x: int, y: int|
                self.grid.in_bounds(x, y) && machine_material(self.grid.mat(x, y))
                    implies power::has_machine(
                self.machines@,
                (TilePos { x: x as usize, y: y as usize }),
            ) by {
                assert(machine_material(g0.mat(x, y)));
            }
            assert forall|x: int, y: int|
                pathing::index_costs(self.index)[(x, y)] == self.grid.cost_spec(x, y) || pos_in(
                    self.changes@,
                    x,
                    y,
                ) by {
                assert(self.grid.cost_spec(x, y) == g0.cost_spec(x, y));
            }
        }
    }

    /// The machine at `pos`, if any.
    pub fn machine_at(&self, pos: TilePos) -> (r: Option<&Machine>)
        requires
            self.wf(),
        ensures
            match r {
                Some(m) => power::has_machine(self.machines_spec(), pos) && *m == power::machine_at(
                    self.machines_spec(),
                    pos,
                ),
                None => !power::has_machine(self.machines_spec(), pos),
            },
    {
        match power::find_machine(&self.machines, pos) {
            Some(i) => Some(&self.machines[i]),
            None => None,
        }
    }

    /// How many machines the registry holds.
    pub fn machine_count(&self) -> (r: usize)
        ensures
            r == self.machines_spec().len(),
    {
        self.machines.len()
    }

    /// How many changed tiles wait for the next tick's drain; a path query
    /// is admitted only once this is zero.
    pub fn pending_changes(&self) -> (r: usize)
        ensures
            r == self.changes_spec().len(),
    {
        self.changes.len()
    }

    /// The machine registry, for read-only iteration.
    pub fn machines(&self) -> (r: &Vec<Machine>)
        ensures
            r@ == self.machines_spec(),
    {
        &self.machines
    }

    /// Clears the tile for a new material: marks redraw, records the tile
    /// in the changed-tile set, discards the machine entry the tile held,
    /// and writes the material. Establishes everything of the invariant
    /// except the machine entry the caller may still owe the tile.
    fn replace_tile(&mut self, pos: TilePos, mat: Material)
        requires
            old(self).wf(),
            old(self).grid.in_bounds_p(pos),
        ensures
            final(self).grid.wf(),
            final(self).grid.width_spec() == old(self).grid.width_spec(),
            final(self).grid.height_spec() == old(self).grid.height_spec(),
            final(self).grid.mat_p(pos) == mat,
            forall|x: int, y: int|
                old(self).grid.in_bounds(x, y) && !(x == pos.x && y == pos.y) ==> final(self).grid.mat(x, y) == old(self).grid.mat(x, y),
            forall|x: int, y: int|
                old(self).grid.in_bounds(x, y) ==> final(self).grid.vis(x, y) == old(self).grid.vis(x, y),
            power::positions_distinct(final(self).machines@),
            !power::has_machine(final(self).machines@, pos),
            forall|q: TilePos|
                q != pos ==> power::has_machine(final(self).machines@, q) == power::has_machine(
                    old(self).machines@,
                    q,
                ),
            forall|q: TilePos|
                q != pos && power::has_machine(old(self).machines@, q) ==> power::machine_at(
                    final(self).machines@,
                    q,
                ) == power::machine_at(old(self).machines@, q),
            forall|i: int|
                0 <= i < final(self).machines@.len() ==> {
                    let mp = (#[trigger] final(self).machines@[i]).pos;
                    mp != pos && final(self).grid.in_bounds_p(mp) && machine_material(
                        final(self).grid.mat_p(mp),
                    )
                },
            forall|x: int, y: int|
                pos_in(final(self).changes@, x, y) == (pos_in(old(self).changes@, x, y) || (x
                    == pos.x && y == pos.y)),
            forall|i: int|
                0 <= i < final(self).changes@.len() ==> final(self).grid.in_bounds_p(
                    #[trigger] final(self).changes@[i],
                ),
            final(self).index == old(self).index,
            final(self).spawns == old(self).spawns,
            final(self).carry == old(self).carry,
            final(self).dirty,
            final(self).debug_mode == old(self).debug_mode,
            forall|x: int, y: int|
                pathing::index_costs(final(self).index)[(x, y)] == final(self).grid.cost_spec(x, y)
                    || pos_in(final(self).changes@, x, y),
    {
        let ghost w0 = *old(self);
        self.dirty = true;
        if !power::contains_pos(&self.changes, pos) {
            self.changes.push(pos);
        }
        proof {
            assert forall|x: int, y: int|
                pos_in(self.changes@, x, y) == (pos_in(w0.changes@, x, y) || (x == pos.x && y
                    == pos.y)) by {
                if pos_in(w0.changes@, x, y) {
                    let i = choose|i: int|
                        0 <= i < w0.changes@.len() && (#[trigger] w0.changes@[i]).x == x
                            && w0.changes@[i].y == y;
                    assert(self.changes@[i] == w0.changes@[i]);
                }
                if pos_in(self.changes@, x, y) {
                    let i = choose|i: int|
                        0 <= i < self.changes@.len() && (#[trigger] self.changes@[i]).x == x
                            && self.changes@[i].y == y;
                    if i < w0.changes@.len() {
                        assert(w0.changes@[i] == self.changes@[i]);
                    } else {
                        assert(self.changes@[i] == pos);
                    }
                }
                if x == pos.x && y == pos.y {
                    if w0.changes@.contains(pos) {
                        let i = choose|i: int|
                            0 <= i < w0.changes@.len() && w0.changes@[i] == pos;
                        assert((#[trigger] self.changes@[i]).x == x && self.changes@[i].y == y);
                    } else {
                        assert(self.changes@.last() == pos);
                    }
                }
            }
        }
        let old_mat = match self.grid.get(pos) {
            Some(m) => m,
            None => mat,  // unreachable: pos is in bounds
        };
        match old_mat {
            Material::Machine | Material::Platform => {
                match power::find_machine(&self.machines, pos) {
                    Some(i) => {
                        proof {
                            power::lemma_registry_remove(self.machines@, i as int);
                        }
                        self.machines.remove(i);
                    },
                    None => {
                        proof {
                            assert(machine_material(w0.grid.mat_p(pos)));
                            assert(power::has_machine(w0.machines@, pos));
                        }
                    },
                }
            },
            _ => {
                proof {
                    if power::has_machine(self.machines@, pos) {
                        let i = power::machine_idx(self.machines@, pos);
                        assert(machine_material(w0.grid.mat_p(self.machines@[i].pos)));
                    }
                }
            },
        }
        self.grid.set_material(pos, mat);
        proof {
            assert forall|i: int|
                0 <= i < self.machines@.len() implies {
                let mp = (#[trigger] self.machines@[i]).pos;
                mp != pos && self.grid.in_bounds_p(mp) && machine_material(self.grid.mat_p(mp))
            } by {
                let mp = self.machines@[i].pos;
                if mp == pos {
                    assert(power::has_machine(self.machines@, pos));
                }
                assert(power::has_machine(w0.machines@, mp));
                let j = power::machine_idx(w0.machines@, mp);
                assert(machine_material(w0.grid.mat_p(w0.machines@[j].pos)));
            }
            assert forall|x: int, y: int|
                pathing::index_costs(self.index)[(x, y)] == self.grid.cost_spec(x, y) || pos_in(
                    self.changes@,
                    x,
                    y,
                ) by {
                if !(x == pos.x && y == pos.y) {
                    assert(self.grid.cost_spec(x, y) == w0.grid.cost_spec(x, y));
                }
            }
        }
    }

    /// Overwrites the material at `pos`: the machine entry the tile held is
    /// discarded, the tile is marked changed and the world marked for
    /// redraw, and placing Platform material creates a Platform machine on
    /// the tile. Machine material is only ever placed through
    /// `add_machine`, which brings the machine entry the invariant owes the
    /// tile.
    pub fn set(&mut self, pos: TilePos, mat: Material)
        requires
            old(self).wf(),
            old(self).grid_spec().in_bounds_p(pos),
            mat != Material::Machine,
        ensures
            final(self).wf(),
            final(self).grid_spec().width_spec() == old(self).grid_spec().width_spec(),
            final(self).grid_spec().height_spec() == old(self).grid_spec().height_spec(),
            final(self).grid_spec().mat_p(pos) == mat,
            forall|x: int, y: int|
                old(self).grid_spec().in_bounds(x, y) && !(x == pos.x && y == pos.y) ==> final(self).grid_spec().mat(x, y) == old(self).grid_spec().mat(x, y),
            forall|x: int, y: int|
                old(self).grid_spec().in_bounds(x, y) ==> final(self).grid_spec().vis(x, y) == old(self).grid_spec().vis(x, y),
            (if mat == Material::Platform {
                power::has_machine(final(self).machines_spec(), pos) && power::machine_at(
                    final(self).machines_spec(),
                    pos,
                ) == (Machine {
                    pos,
                    machine_type: MachineType::Platform,
                    power_source: None,
                    power: false,
                    cooldown: None,
                })
            } else {
                !power::has_machine(final(self).machines_spec(), pos)
            }),
            forall|q: TilePos|
                q != pos ==> power::has_machine(final(self).machines_spec(), q)
                    == power::has_machine(old(self).machines_spec(), q),
            forall|q: TilePos|
                q != pos && power::has_machine(old(self).machines_spec(), q)
                    ==> power::machine_at(final(self).machines_spec(), q) == power::machine_at(
                    old(self).machines_spec(),
                    q,
                ),
            forall|x: int, y: int|
                pos_in(final(self).changes_spec(), x, y) == (pos_in(old(self).changes_spec(), x, y)
                    || (x == pos.x && y == pos.y)),
            final(self).dirty_spec(),
            final(self).debug_mode_spec() == old(self).debug_mode_spec(),
            final(self).index_spec() == old(self).index_spec(),
            final(self).spawns_spec() == old(self).spawns_spec(),
            final(self).carry_spec() == old(self).carry_spec(),
    {
        self.replace_tile(pos, mat);
        if matches!(mat, Material::Platform) {
            let m = Machine::new(pos, MachineType::Platform);
            proof {
                power::lemma_registry_push(self.machines@, m);
            }
            self.machines.push(m);
        }
        proof {
            assert forall|x: int, y: int|
                self.grid.in_bounds(x, y) && machine_material(self.grid.mat(x, y))
                    implies power::has_machine(
                self.machines@,
                (TilePos { x: x as usize, y: y as usize }),
            ) by {
                let q = TilePos { x: x as usize, y: y as usize };
                if q == pos {
                    assert(mat == Material::Platform);
                } else {
                    assert(old(self).grid.in_bounds(x, y));
                    assert(machine_material(old(self).grid.mat(x, y)));
                    assert(power::has_machine(
                        old(self).machines@,
                        (TilePos { x: x as usize, y: y as usize }),
                    ));
                    assert(power::has_machine(self.machines@, q) == power::has_machine(
                        old(self).machines@,
                        q,
                    ));
                }
            }
        }
    }

    /// Places a machine of the given type at `pos`: the tile takes Machine
    /// material and the registry an entry for it, with no observable state
    /// in between. A Spawn is also recorded in the spawn list.
    pub fn add_machine(&mut self, pos: TilePos, machine: MachineType)
        requires
            old(self).wf(),
            old(self).grid_spec().in_bounds_p(pos),
        ensures
            final(self).wf(),
            final(self).grid_spec().width_spec() == old(self).grid_spec().width_spec(),
            final(self).grid_spec().height_spec() == old(self).grid_spec().height_spec(),
            final(self).grid_spec().mat_p(pos) == Material::Machine,
            forall|x: int, y: int|
                old(self).grid_spec().in_bounds(x, y) && !(x == pos.x && y == pos.y) ==> final(self).grid_spec().mat(x, y) == old(self).grid_spec().mat(x, y),
            forall|x: int, y: int|
                old(self).grid_spec().in_bounds(x, y) ==> final(self).grid_spec().vis(x, y) == old(self).grid_spec().vis(x, y),
            power::has_machine(final(self).machines_spec(), pos),
            power::machine_at(final(self).machines_spec(), pos) == (Machine {
                pos,
                machine_type: machine,
                power_source: None,
                power: false,
                cooldown: None,
            }),
            forall|q: TilePos|
                q != pos ==> power::has_machine(final(self).machines_spec(), q)
                    == power::has_machine(old(self).machines_spec(), q),
            forall|q: TilePos|
                q != pos && power::has_machine(old(self).machines_spec(), q)
                    ==> power::machine_at(final(self).machines_spec(), q) == power::machine_at(
                    old(self).machines_spec(),
                    q,
                ),
            forall|x: int, y: int|
                pos_in(final(self).changes_spec(), x, y) == (pos_in(old(self).changes_spec(), x, y)
                    || (x == pos.x && y == pos.y)),
            final(self).dirty_spec(),
            final(self).debug_mode_spec() == old(self).debug_mode_spec(),
            final(self).index_spec() == old(self).index_spec(),
            final(self).carry_spec() == old(self).carry_spec(),
            forall|p: TilePos|
                final(self).spawns_spec().contains(p) == (old(self).spawns_spec().contains(p) || (
                machine is Spawn && p == pos)),
    {
        let ghost spawns0 = self.spawns@;
        if matches!(machine, MachineType::Spawn) {
            if !power::contains_pos(&self.spawns, pos) {
                self.spawns.push(pos);
            }
        }
        proof {
            assert forall|p: TilePos|
                self.spawns@.contains(p) == (spawns0.contains(p) || (machine is Spawn && p
                    == pos)) by {
                if spawns0.contains(p) {
                    let i = choose|i: int| 0 <= i < spawns0.len() && spawns0[i] == p;
                    assert(self.spawns@[i] == p);
                }
                if self.spawns@.contains(p) {
                    let i = choose|i: int| 0 <= i < self.spawns@.len() && self.spawns@[i] == p;
                    if i < spawns0.len() {
                        assert(spawns0[i] == p);
                    } else {
                        assert(p == pos);
                    }
                }
                if machine is Spawn && p == pos {
                    if !spawns0.contains(pos) {
                        assert(self.spawns@.last() == pos);
                    }
                }
            }
        }
        self.replace_tile(pos, Material::Machine);
        let m = Machine::new(pos, machine);
        proof {
            power::lemma_registry_push(self.machines@, m);
        }
        self.machines.push(m);
        proof {
            assert forall|x: int, y: int|
                self.grid.in_bounds(x, y) && machine_material(self.grid.mat(x, y))
                    implies power::has_machine(
                self.machines@,
                (TilePos { x: x as usize, y: y as usize }),
            ) by {
                let q = TilePos { x: x as usize, y: y as usize };
                if q != pos {
                    assert(old(self).grid.in_bounds(x, y));
                    assert(machine_material(old(self).grid.mat(x, y)));
                    assert(power::has_machine(
                        old(self).machines@,
                        (TilePos { x: x as usize, y: y as usize }),
                    ));
                    assert(power::has_machine(self.machines@, q) == power::has_machine(
                        old(self).machines@,
                        q,
                    ));
                }
            }
        }
    }

    /// Overwrites the stored supplier link of the machine at `pos`, if one
    /// is there, and reports whether it was.
    pub fn set_machine_power_source(&mut self, pos: TilePos, source: Option<Dir>) -> (r: bool)
        requires
            old(self).wf(),
        ensures
            final(self).wf(),
            r == power::has_machine(old(self).machines_spec(), pos),
            final(self).grid_spec() == old(self).grid_spec(),
            final(self).changes_spec() == old(self).changes_spec(),
            final(self).index_spec() == old(self).index_spec(),
            final(self).spawns_spec() == old(self).spawns_spec(),
            final(self).dirty_spec() == old(self).dirty_spec(),
            final(self).debug_mode_spec() == old(self).debug_mode_spec(),
            final(self).carry_spec() == old(self).carry_spec(),
            forall|q: TilePos|
                power::has_machine(final(self).machines_spec(), q) == power::has_machine(
                    old(self).machines_spec(),
                    q,
                ),
            (if power::has_machine(old(self).machines_spec(), pos) {
                power::machine_at(final(self).machines_spec(), pos) == (Machine {
                    power_source: source,
                    ..power::machine_at(old(self).machines_spec(), pos)
                }) && forall|q: TilePos|
                    q != pos && power::has_machine(old(self).machines_spec(), q)
                        ==> power::machine_at(final(self).machines_spec(), q) == power::machine_at(
                        old(self).machines_spec(),
                        q,
                    )
            } else {
                final(self).machines_spec() == old(self).machines_spec()
            }),
    {
        match power::find_machine(&self.machines, pos) {
            None => false,
            Some(i) => {
                let ghost ms0 = self.machines@;
                let m = vstd::std_specs::vec::vec_index_mut(&mut self.machines, i);
                m.set_power_source(source);
                proof {
                    power::lemma_registry_update(ms0, i as int, self.machines@[i as int]);
                    assert(self.machines@ =~= ms0.update(i as int, self.machines@[i as int]));
                }
                true
            },
        }
    }

    /// One simulation step: power resolution over the whole registry, then
    /// the changed-tile set is drained into the pathfinding index and
    /// cleared, so path queries issued after the step reflect every
    /// material change made before it.
    pub fn update(&mut self, spawn_has_power: bool)
        requires
            old(self).wf(),
        ensures
            final(self).wf(),
            final(self).grid_spec() == old(self).grid_spec(),
            final(self).machines_spec() == power::resolve_power(
                old(self).machines_spec(),
                old(self).width_spec(),
                old(self).height_spec(),
                spawn_has_power,
            ),
            final(self).changes_spec().len() == 0,
            final(self).dirty_spec() == old(self).dirty_spec(),
            final(self).debug_mode_spec() == old(self).debug_mode_spec(),
            final(self).spawns_spec() == old(self).spawns_spec(),
            final(self).carry_spec() == old(self).carry_spec(),
    {
        let ghost w0 = *old(self);
        let width = self.grid.size().x;
        let height = self.grid.size().y;
        power::update_power(&mut self.machines, width, height, spawn_has_power);
        proof {
            power::lemma_resolve_preserves_registry(
                w0.machines@,
                width as int,
                height as int,
                spawn_has_power,
            );
        }
        if self.changes.len() > 0 {
            pathing::cache_tiles_changed(&mut self.index, &self.changes, &self.grid);
            self.changes.clear();
        } else {
            proof {
                assert forall|x: int, y: int|
                    pathing::index_costs(self.index)[(x, y)] == self.grid.cost_spec(x, y) by {
                    assert(!pos_in(self.changes@, x, y));
                }
            }
        }
        proof {
            assert forall|i: int|
                0 <= i < self.machines@.len() implies self.grid.in_bounds_p(
                (#[trigger] self.machines@[i]).pos,
            ) && machine_material(self.grid.mat_p(self.machines@[i].pos)) by {
                assert(self.machines@[i].pos == w0.machines@[i].pos);
            }
        }
    }

    /// The registry after `k` consecutive resolution steps.
    pub open spec fn run_steps(ms: Seq<Machine>, w: int, h: int, gate: bool, k: nat) -> Seq<
        Machine,
    >
        decreases k,
    {
        if k == 0 {
            ms
        } else {
            power::resolve_power(Self::run_steps(ms, w, h, gate, (k - 1) as nat), w, h, gate)
        }
    }

    /// Advances simulated time by `dt_ms` milliseconds: the accumulator
    /// grows by `dt_ms`, and for every full interval it now holds, one
    /// simulation step runs (power resolution, then the changed-tile
    /// drain); the remainder is carried forward.
    pub fn tick(&mut self, dt_ms: u64, spawn_has_power: bool)
        requires
            old(self).wf(),
            dt_ms <= u64::MAX - TICK_INTERVAL_MS,
        ensures
            final(self).wf(),
            final(self).grid_spec() == old(self).grid_spec(),
            final(self).carry_spec() == (old(self).carry_spec() + dt_ms) % (
            TICK_INTERVAL_MS as int),
            final(self).machines_spec() == Self::run_steps(
                old(self).machines_spec(),
                old(self).width_spec(),
                old(self).height_spec(),
                spawn_has_power,
                ((old(self).carry_spec() + dt_ms) / (TICK_INTERVAL_MS as int)) as nat,
            ),
            (old(self).carry_spec() + dt_ms) / (TICK_INTERVAL_MS as int) > 0 ==> final(self).changes_spec().len() == 0,
            (old(self).carry_spec() + dt_ms) / (TICK_INTERVAL_MS as int) == 0 ==> final(self).changes_spec() == old(self).changes_spec(),
            final(self).dirty_spec() == old(self).dirty_spec(),
            final(self).debug_mode_spec() == old(self).debug_mode_spec(),
            final(self).spawns_spec() == old(self).spawns_spec(),
    {
        let ghost w0 = *old(self);
        let ghost gw = old(self).width_spec();
        let ghost gh = old(self).height_spec();
        let total = self.carry + dt_ms;
        let steps = total / TICK_INTERVAL_MS;
        self.carry = total % TICK_INTERVAL_MS;
        for i in 0..steps
            invariant
                self.wf(),
                self.grid == w0.grid,
                gw == self.grid.width_spec(),
                gh == self.grid.height_spec(),
                self.carry as int == (w0.carry_spec() + dt_ms) % (TICK_INTERVAL_MS as int),
                steps as int == (w0.carry_spec() + dt_ms) / (TICK_INTERVAL_MS as int),
                self.machines@ == Self::run_steps(
                    w0.machines@,
                    gw,
                    gh,
                    spawn_has_power,
                    i as nat,
                ),
                i > 0 ==> self.changes@.len() == 0,
                i == 0 ==> self.changes@ == w0.changes@,
                self.dirty == w0.dirty,
                self.debug_mode == w0.debug_mode,
                self.spawns@ == w0.spawns@,
        {
            self.update(spawn_has_power);
        }
    }

    /// A route from `start` to `end`, stepped by the caller, or `None` when
    /// no route exists. The changed-tile set must be drained (one tick is
    /// enough) before a query: only then does the index reflect the grid,
    /// and only a query against a reflecting index is trusted. A returned
    /// route crosses no solid tile, though it may end on one; for a
    /// walkable goal, `None` means no route exists at all.
    pub fn path(&mut self, start: TilePos, end: TilePos) -> (r: Option<Path>)
        requires
            old(self).wf(),
            old(self).grid_spec().in_bounds_p(start),
            old(self).grid_spec().in_bounds_p(end),
            old(self).changes_spec().len() == 0,
        ensures
            *final(self) == *old(self),
            r is Some ==> !old(self).grid_spec().mat_p(start).is_solid_spec(),
            match r {
                Some(p) => p.wf() && p.at_spec() == 0 && pathing::route_shape_ok(
                    old(self).grid_spec(),
                    start,
                    end,
                    p.steps_spec(),
                ),
                None => !old(self).grid_spec().mat_p(end).is_solid_spec()
                    ==> !pathing::route_exists(old(self).grid_spec(), start, end),
            },
    {
        proof {
            assert forall|x: int, y: int|
                pathing::index_costs(self.index)[(x, y)] == self.grid.cost_spec(x, y) by {
                assert(!pos_in(self.changes@, x, y));
            }
        }
        match pathing::cache_find_path(&self.index, &self.grid, start, end) {
            Some(steps) => Some(Path::from_steps(steps)),
            None => None,
        }
    }
}

/// The material/machine co-invariant: in a well-formed world, a tile holds
/// Machine or Platform material exactly when the machine registry holds an
/// entry at it. Every public operation of `World` requires and ensures
/// well-formedness, so this holds at every externally observable point.
pub proof fn lemma_material_machine_lockstep(w: World, x: int, y: int)
    requires
        w.wf(),
        w.grid_spec().in_bounds(x, y),
    ensures
        machine_material(w.grid_spec().mat(x, y)) == power::has_machine(
            w.machines_spec(),
            (TilePos { x: x as usize, y: y as usize }),
        ),
{
    let q = TilePos { x: x as usize, y: y as usize };
    if power::has_machine(w.machines_spec(), q) {
        let i = choose|i: int| 0 <= i < w.machines_spec().len() && w.machines_spec()[i].pos == q;
        assert(machine_material(w.grid_spec().mat_p(w.machines_spec()[i].pos)));
    }
}

impl Machine {
    /// Scans the four directions from this machine, in the fixed order
    /// `Up, Right, Down, Left`, for the first neighbour whose own supplier
    /// chain reaches a Spawn.
    pub fn find_power_source(&self, world: &World) -> (r: Option<Dir>)
        requires
            world.wf(),
        ensures
            r == power::first_source(
                world.machines_spec(),
                world.width_spec(),
                world.height_spec(),
                self.pos,
            ),
    {
        let width = world.width();
        let height = world.height();
        power::find_power_source_at(&world.machines, width, height, self.pos)
    }

    /// What the validate-then-search pass would store for this machine:
    /// `None` when nothing changes, `Some(new_link)` when the stored
    /// supplier link must be rewritten. A Spawn never changes.
    pub fn power_source_changed(&self, world: &World) -> (r: Option<Option<Dir>>)
        requires
            world.wf(),
        ensures
            ({
                let resolved = power::resolved_source(
                    world.machines_spec(),
                    world.width_spec(),
                    world.height_spec(),
                    *self,
                );
                r == (if resolved == self.power_source_spec() {
                    Option::<Option<Dir>>::None
                } else {
                    Option::<Option<Dir>>::Some(resolved)
                })
            }),
    {
        if self.is_spawn() {
            return None;
        }
        let width = world.width();
        let height = world.height();
        let source = if power::chain_reaches_spawn(&world.machines, width, height, self.pos) {
            self.power_source()
        } else {
            power::find_power_source_at(&world.machines, width, height, self.pos)
        };
        let same = match (source, self.power_source()) {
            (None, None) => true,
            (Some(a), Some(b)) => a == b,
            _ => false,
        };
        if same {
            None
        } else {
            Some(source)
        }
    }
}

} // verus!
