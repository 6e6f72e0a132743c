//! The hierarchical pathfinding index over the terrain grid. The chunk and
//! portal bookkeeping lives in the `hierarchical_pathfinding` crate; this
//! module declares that crate's types to the verifier, names what the index
//! reflects, and wraps the three calls the world makes. A route query is
//! trusted only as far as the index reflects the grid's current costs; the
//! world keeps that in step through its changed-tile set.

use vstd::prelude::*;

use hierarchical_pathfinding::prelude::ManhattanNeighborhood;
use hierarchical_pathfinding::{PathCache, PathCacheConfig};

use crate::grid::Grid;
use crate::pos::TilePos;

verus! {

/// Holds the outside crate's chunk-and-portal index. The verifier does not
/// look inside this struct; the trusted wrappers below carry its contract,
/// stated over the two names that follow.
#[verifier::external_body]
pub struct PathIndex {
    cache: PathCache<ManhattanNeighborhood>,
}

/// The cost landscape the index currently reflects: what the cost function
/// answered, per tile, when each part of the index was last computed.
pub uninterp spec fn index_costs(index: PathIndex) -> Map<(int, int), int>;

/// The grid dimensions the index was built for.
pub uninterp spec fn index_size(index: PathIndex) -> (int, int);

/// Whether the index reflects the grid's current walking costs everywhere.
pub open(crate) spec fn index_synced(index: PathIndex, g: Grid) -> bool {
    forall|x: int, y: int| index_costs(index)[(x, y)] == g.cost_spec(x, y)
}

/// The shape of a returned route: it ends at the goal, its tiles are
/// in range and consecutive tiles 4-adjacent, it starts beside (or at) the
/// start tile, and no tile before the last is solid. The goal itself may be
/// solid: a route may lead to a wall without crossing it.
pub open(crate) spec fn route_shape_ok(g: Grid, start: TilePos, goal: TilePos, ts: Seq<TilePos>) -> bool {
    &&& ts.len() >= 1
    &&& ts.last() == goal
    &&& (ts[0] == start || Grid::adjacent(start, ts[0]))
    &&& forall|i: int| 0 <= i < ts.len() ==> g.in_bounds_p(#[trigger] ts[i])
    &&& forall|i: int| 0 <= i < ts.len() - 1 ==> Grid::adjacent(#[trigger] ts[i], ts[i + 1])
    &&& forall|i: int| 0 <= i < ts.len() - 1 ==> !g.mat_p(#[trigger] ts[i]).is_solid_spec()
    &&& !g.mat_p(start).is_solid_spec()
}

/// Whether a route from `start` to `goal` exists at all: the start is
/// walkable and open terrain connects the two (the goal may be a wall that
/// the route merely reaches).
pub open(crate) spec fn route_exists(g: Grid, start: TilePos, goal: TilePos) -> bool {
    &&& g.in_bounds_p(start)
    &&& !g.mat_p(start).is_solid_spec()
    &&& g.open_reaches(start, goal)
}

/// Relies on PathCache::new of hierarchical_pathfinding: it computes the
/// chunk and portal index from exactly the cost function it is given, here
/// the grid's walking costs under the 4-neighbourhood and the crate's
/// default configuration.
#[verifier::external_body]
pub(crate) fn cache_new(width: usize, height: usize, grid: &Grid) -> (r: PathIndex)
    requires
        grid.wf(),
        width as int == grid.width_spec(),
        height as int == grid.height_spec(),
    ensures
        index_size(r) == (grid.width_spec(), grid.height_spec()),
        forall|x: int, y: int| index_costs(r)[(x, y)] == grid.cost_spec(x, y),
{
    PathIndex {
        cache: PathCache::new(
            (width, height),
            |p: (usize, usize)| grid.cost_at(p.0, p.1),
            ManhattanNeighborhood::new(width, height),
            PathCacheConfig::default(),
        ),
    }
}

/// Relies on PathCache::tiles_changed of hierarchical_pathfinding: every
/// chunk touching one of the given tiles is recomputed from the current
/// cost function, so an index that was stale at those tiles alone reflects
/// the grid again everywhere.
#[verifier::external_body]
pub(crate) fn cache_tiles_changed(cache: &mut PathIndex, tiles: &Vec<TilePos>, grid: &Grid)
    requires
        grid.wf(),
        index_size(*old(cache)) == (grid.width_spec(), grid.height_spec()),
        forall|i: int| 0 <= i < tiles@.len() ==> grid.in_bounds_p(#[trigger] tiles@[i]),
        forall|x: int, y: int|
            index_costs(*old(cache))[(x, y)] == grid.cost_spec(x, y) || exists|i: int|
                0 <= i < tiles@.len() && (#[trigger] tiles@[i]).x == x && tiles@[i].y == y,
    ensures
        index_size(*final(cache)) == index_size(*old(cache)),
        forall|x: int, y: int| index_costs(*final(cache))[(x, y)] == grid.cost_spec(x, y),
{
    let pts: Vec<(usize, usize)> = tiles.iter().map(|t| (t.x, t.y)).collect();
    cache.cache.tiles_changed(&pts, |p: (usize, usize)| grid.cost_at(p.0, p.1));
}

/// Relies on PathCache::find_path and AbstractPath::resolve of
/// hierarchical_pathfinding. The index must reflect the grid's current
/// costs: the crate resolves a route against its cached chunk data and
/// documents that querying after the grid changed leads to panics and
/// wrong results, so a stale index is excluded up front. A returned route
/// runs through walkable tiles only, its final tile excepted; a query from
/// a solid start tile always answers `None`; and for a walkable goal,
/// `None` means no route exists at all. A solid goal is reached only
/// through an approach within its own chunk, so for solid goals no
/// completeness is claimed.
#[verifier::external_body]
pub(crate) fn cache_find_path(cache: &PathIndex, grid: &Grid, start: TilePos, goal: TilePos) -> (r:
    Option<Vec<TilePos>>)
    requires
        grid.wf(),
        grid.in_bounds_p(start),
        grid.in_bounds_p(goal),
        index_size(*cache) == (grid.width_spec(), grid.height_spec()),
        index_synced(*cache, *grid),
    ensures
        r is Some ==> !grid.mat_p(start).is_solid_spec(),
        match r {
            Some(ts) => route_shape_ok(*grid, start, goal, ts@),
            None => !grid.mat_p(goal).is_solid_spec() ==> !route_exists(*grid, start, goal),
        },
{
    let cost = |p: (usize, usize)| grid.cost_at(p.0, p.1);
    cache.cache.find_path((start.x, start.y), (goal.x, goal.y), cost).map(
        |path| path.resolve(cost).into_iter().map(|p| TilePos { x: p.0, y: p.1 }).collect(),
    )
}

/// A route produced by a path query: stepped tile by tile, consumed once. A
/// fresh query must be issued to walk the route again.
pub struct Path {
    steps: Vec<TilePos>,
    at: usize,
}

impl Path {
    /// The tiles of the route, in walking order.
    pub closed spec fn steps_spec(self) -> Seq<TilePos> {
        self.steps@
    }

    /// How many tiles have been consumed.
    pub closed spec fn at_spec(self) -> int {
        self.at as int
    }

    pub closed spec fn wf(self) -> bool {
        self.at <= self.steps@.len()
    }

    pub(crate) fn from_steps(steps: Vec<TilePos>) -> (r: Path)
        ensures
            r.wf(),
            r.steps_spec() == steps@,
            r.at_spec() == 0,
    {
        Path { steps, at: 0 }
    }

    /// The next tile of the route, or `None` once it is used up.
    pub fn next(&mut self) -> (r: Option<TilePos>)
        requires
            old(self).wf(),
        ensures
            final(self).wf(),
            final(self).steps_spec() == old(self).steps_spec(),
            (if old(self).at_spec() < old(self).steps_spec().len() {
                r == Some(old(self).steps_spec()[old(self).at_spec()]) && final(self).at_spec()
                    == old(self).at_spec() + 1
            } else {
                r is None && final(self).at_spec() == old(self).at_spec()
            }),
    {
        if self.at < self.steps.len() {
            let t = self.steps[self.at];
            self.at = self.at + 1;
            Some(t)
        } else {
            None
        }
    }

    /// How many tiles of the route are left to walk.
    pub fn remaining(&self) -> (r: usize)
        requires
            self.wf(),
        ensures
            r == self.steps_spec().len() - self.at_spec(),
    {
        self.steps.len() - self.at
    }

    /// The tile at `i` of the whole route, regardless of how far it has
    /// been walked.
    pub fn tile_at(&self, i: usize) -> (r: Option<TilePos>)
        ensures
            r == (if i < self.steps_spec().len() {
                Some(self.steps_spec()[i as int])
            } else {
                Option::<TilePos>::None
            }),
    {
        if i < self.steps.len() {
            Some(self.steps[i])
        } else {
            None
        }
    }

    /// The number of tiles of the whole route.
    pub fn length(&self) -> (r: usize)
        ensures
            r == self.steps_spec().len(),
    {
        self.steps.len()
    }
}

} // verus!
