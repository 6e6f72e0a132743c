//! The terrain grid: per-tile material and the monotonic visibility bitmap.

use vstd::prelude::*;

use crate::dir::Dir;
use crate::material::Material;
use crate::pos::TilePos;

verus! {

broadcast use vstd::seq_lib::group_seq_properties;

/// A 2D field of materials with a parallel fog-of-war bitmap. Indexed
/// column-first: `material[x][y]`.
pub struct Grid {
    pub(crate) width: usize,
    pub(crate) height: usize,
    pub(crate) grid: Vec<Vec<Material>>,
    pub(crate) visible: Vec<Vec<bool>>,
}

impl Grid {
    /// Both arrays span exactly `width` x `height`; the dimensions are large
    /// enough that generation's radius-2 centre clearing fits, and small
    /// enough that coordinate arithmetic cannot overflow.
    pub open(crate) spec fn wf(self) -> bool {
        &&& self.grid@.len() == self.width
        &&& forall|i: int|
            0 <= i < self.width ==> (#[trigger] self.grid@[i])@.len() == self.height
        &&& self.visible@.len() == self.width
        &&& forall|i: int|
            0 <= i < self.width ==> (#[trigger] self.visible@[i])@.len() == self.height
        &&& 4 <= self.width
        &&& 4 <= self.height
        &&& self.width * self.height <= usize::MAX
    }

    pub open(crate) spec fn width_spec(self) -> int {
        self.width as int
    }

    pub open(crate) spec fn height_spec(self) -> int {
        self.height as int
    }

    pub open(crate) spec fn in_bounds(self, x: int, y: int) -> bool {
        0 <= x < self.width && 0 <= y < self.height
    }

    pub open(crate) spec fn in_bounds_p(self, p: TilePos) -> bool {
        self.in_bounds(p.x as int, p.y as int)
    }

    /// The material at (x, y); meaningful only in bounds.
    pub open(crate) spec fn mat(self, x: int, y: int) -> Material {
        self.grid@[x]@[y]
    }

    pub open(crate) spec fn mat_p(self, p: TilePos) -> Material {
        self.mat(p.x as int, p.y as int)
    }

    /// The visibility flag at (x, y); meaningful only in bounds.
    pub open(crate) spec fn vis(self, x: int, y: int) -> bool {
        self.visible@[x]@[y]
    }

    pub open(crate) spec fn vis_p(self, p: TilePos) -> bool {
        self.vis(p.x as int, p.y as int)
    }

    /// The cost the pathfinding index sees for (x, y): the walk cost of the
    /// material, or -1 for solid or out-of-range tiles.
    pub open(crate) spec fn cost_spec(self, x: int, y: int) -> int {
        if self.in_bounds(x, y) && self.mat(x, y).walk_cost_spec() is Some {
            self.mat(x, y).walk_cost_spec().unwrap() as int
        } else {
            -1
        }
    }

    /// A blank grid of the given size, all Bedrock and all unseen. Terrain is
    /// put in by `generate`.
    pub fn new_blank(width: usize, height: usize) -> (r: Grid)
        requires
            4 <= width,
            4 <= height,
            width * height <= usize::MAX,
        ensures
            r.wf(),
            r.width_spec() == width,
            r.height_spec() == height,
            forall|x: int, y: int| r.in_bounds(x, y) ==> r.mat(x, y) == Material::Bedrock,
            forall|x: int, y: int| r.in_bounds(x, y) ==> !r.vis(x, y),
    {
        let mut grid: Vec<Vec<Material>> = Vec::new();
        let mut visible: Vec<Vec<bool>> = Vec::new();
        for i in 0..width
            invariant
                grid@.len() == i,
                visible@.len() == i,
                forall|k: int| 0 <= k < i ==> (#[trigger] grid@[k])@.len() == height,
                forall|k: int| 0 <= k < i ==> (#[trigger] visible@[k])@.len() == height,
                forall|k: int, l: int|
                    0 <= k < i && 0 <= l < height ==> grid@[k]@[l] == Material::Bedrock,
                forall|k: int, l: int| 0 <= k < i && 0 <= l < height ==> !visible@[k]@[l],
        {
            let col = vec![Material::Bedrock; height];
            let vcol = vec![false; height];
            grid.push(col);
            visible.push(vcol);
        }
        Grid { width, height, grid, visible }
    }

    /// Width and height as a tile position.
    pub fn size(&self) -> (r: TilePos)
        ensures
            r.x == self.width_spec(),
            r.y == self.height_spec(),
    {
        TilePos { x: self.width, y: self.height }
    }

    /// The material at `pos`, or `None` if `pos` is out of range.
    pub fn get(&self, pos: TilePos) -> (r: Option<Material>)
        requires
            self.wf(),
        ensures
            r == (if self.in_bounds_p(pos) {
                Option::<Material>::Some(self.mat_p(pos))
            } else {
                Option::<Material>::None
            }),
    {
        if pos.x < self.width && pos.y < self.height {
            Some(self.grid[pos.x][pos.y])
        } else {
            None
        }
    }

    /// Whether `pos` blocks movement; out-of-range tiles count as solid.
    pub fn is_solid(&self, pos: TilePos) -> (r: bool)
        requires
            self.wf(),
        ensures
            r == (!self.in_bounds_p(pos) || self.mat_p(pos).is_solid_spec()),
    {
        match self.get(pos) {
            Some(m) => m.is_solid(),
            None => true,
        }
    }

    /// The walking cost of `pos`, or `None` if solid or out of range.
    pub fn walk_cost(&self, pos: TilePos) -> (r: Option<usize>)
        requires
            self.wf(),
        ensures
            r == (if self.in_bounds_p(pos) {
                self.mat_p(pos).walk_cost_spec()
            } else {
                Option::<usize>::None
            }),
    {
        match self.get(pos) {
            Some(m) => m.walk_cost(),
            None => None,
        }
    }

    /// The cost function handed to the pathfinding index.
    pub fn cost_at(&self, x: usize, y: usize) -> (r: isize)
        requires
            self.wf(),
        ensures
            r as int == self.cost_spec(x as int, y as int),
    {
        match self.walk_cost(TilePos { x, y }) {
            Some(c) => c as isize,
            None => -1,
        }
    }

    /// Whether `pos` has been revealed; out-of-range tiles are unseen.
    pub fn is_visible(&self, pos: TilePos) -> (r: bool)
        requires
            self.wf(),
        ensures
            r == (self.in_bounds_p(pos) && self.vis_p(pos)),
    {
        if pos.x < self.width && pos.y < self.height {
            self.visible[pos.x][pos.y]
        } else {
            false
        }
    }

    /// Overwrites the material at `pos`; visibility is untouched.
    pub fn set_material(&mut self, pos: TilePos, mat: Material)
        requires
            old(self).wf(),
            old(self).in_bounds_p(pos),
        ensures
            final(self).wf(),
            final(self).width_spec() == old(self).width_spec(),
            final(self).height_spec() == old(self).height_spec(),
            final(self).mat_p(pos) == mat,
            forall|x: int, y: int|
                old(self).in_bounds(x, y) && !(x == pos.x && y == pos.y) ==> final(self).mat(x, y)
                    == old(self).mat(x, y),
            forall|x: int, y: int|
                old(self).in_bounds(x, y) ==> final(self).vis(x, y) == old(self).vis(x, y),
    {
        let col = vstd::std_specs::vec::vec_index_mut(&mut self.grid, pos.x);
        let slot = vstd::std_specs::vec::vec_index_mut(col, pos.y);
        *slot = mat;
    }

    /// Marks the visibility flag at `pos`; used only by the flood fill.
    pub(crate) fn mark_visible(&mut self, pos: TilePos)
        requires
            old(self).wf(),
            old(self).in_bounds_p(pos),
        ensures
            final(self).wf(),
            final(self).width_spec() == old(self).width_spec(),
            final(self).height_spec() == old(self).height_spec(),
            final(self).vis_p(pos),
            forall|x: int, y: int|
                old(self).in_bounds(x, y) && !(x == pos.x && y == pos.y) ==> final(self).vis(x, y)
                    == old(self).vis(x, y),
            forall|x: int, y: int|
                old(self).in_bounds(x, y) ==> final(self).mat(x, y) == old(self).mat(x, y),
            final(self).visible@.len() == old(self).visible@.len(),
            forall|k: int|
                0 <= k < old(self).visible@.len() && k != pos.x ==> (#[trigger] final(self).visible@[k])@
                    == old(self).visible@[k]@,
            final(self).visible@[pos.x as int]@ == old(self).visible@[pos.x as int]@.update(
                pos.y as int,
                true,
            ),
    {
        let col = vstd::std_specs::vec::vec_index_mut(&mut self.visible, pos.x);
        let slot = vstd::std_specs::vec::vec_index_mut(col, pos.y);
        *slot = true;
    }

    /// The tile `dist` steps from `pos` in direction `dir`, or `None` if that
    /// would leave the grid.
    pub open(crate) spec fn tile_jump_spec(self, pos: TilePos, dir: Dir, dist: int) -> Option<TilePos> {
        let nx = pos.x + dir.delta_spec().0 * dist;
        let ny = pos.y + dir.delta_spec().1 * dist;
        if 0 <= nx < self.width && 0 <= ny < self.height {
            Some(TilePos { x: nx as usize, y: ny as usize })
        } else {
            None
        }
    }

    pub open(crate) spec fn tile_in_dir_spec(self, pos: TilePos, dir: Dir) -> Option<TilePos> {
        self.tile_jump_spec(pos, dir, 1)
    }

    /// The neighbouring tile in direction `dir`, or `None` at the grid edge.
    pub fn tile_in_dir(&self, pos: TilePos, dir: Dir) -> (r: Option<TilePos>)
        requires
            self.wf(),
        ensures
            r == self.tile_in_dir_spec(pos, dir),
    {
        self.tile_jump_in_dir(pos, dir, 1)
    }

    /// The tile `dist` steps from `pos` in direction `dir`, or `None` if that
    /// would leave the grid.
    pub fn tile_jump_in_dir(&self, pos: TilePos, dir: Dir, dist: usize) -> (r: Option<TilePos>)
        requires
            self.wf(),
        ensures
            r == self.tile_jump_spec(pos, dir, dist as int),
    {
        match dir {
            Dir::Up => {
                if pos.x < self.width && dist <= pos.y && pos.y - dist < self.height {
                    Some(TilePos { x: pos.x, y: pos.y - dist })
                } else {
                    None
                }
            },
            Dir::Right => {
                if pos.y < self.height && pos.x < self.width && dist < self.width - pos.x {
                    Some(TilePos { x: pos.x + dist, y: pos.y })
                } else {
                    None
                }
            },
            Dir::Down => {
                if pos.x < self.width && pos.y < self.height && dist < self.height - pos.y {
                    Some(TilePos { x: pos.x, y: pos.y + dist })
                } else {
                    None
                }
            },
            Dir::Left => {
                if pos.y < self.height && dist <= pos.x && pos.x - dist < self.width {
                    Some(TilePos { x: pos.x - dist, y: pos.y })
                } else {
                    None
                }
            },
        }
    }

    /// Whether two tiles are 4-adjacent.
    pub open(crate) spec fn adjacent(p: TilePos, q: TilePos) -> bool {
        ||| (p.x == q.x && (p.y + 1 == q.y || q.y + 1 == p.y))
        ||| (p.y == q.y && (p.x + 1 == q.x || q.x + 1 == p.x))
    }

    /// The in-range 4-neighbours of `pos`, scanned in the order
    /// `Up, Right, Down, Left`.
    pub fn neighbors_of(&self, pos: TilePos) -> (r: Vec<TilePos>)
        requires
            self.wf(),
            self.in_bounds_p(pos),
        ensures
            forall|i: int|
                0 <= i < r@.len() ==> self.in_bounds_p(#[trigger] r@[i]) && Self::adjacent(
                    pos,
                    r@[i],
                ),
            forall|q: TilePos|
                self.in_bounds_p(q) && Self::adjacent(pos, q) ==> r@.contains(q),
            forall|i: int, j: int| 0 <= i < j < r@.len() ==> r@[i] != r@[j],
            r@.len() <= 4,
    {
        let mut r: Vec<TilePos> = Vec::new();
        if pos.y >= 1 {
            r.push(TilePos { x: pos.x, y: pos.y - 1 });
        }
        let ghost s1 = r@;
        if pos.x + 1 < self.width {
            r.push(TilePos { x: pos.x + 1, y: pos.y });
        }
        let ghost s2 = r@;
        if pos.y + 1 < self.height {
            r.push(TilePos { x: pos.x, y: pos.y + 1 });
        }
        let ghost s3 = r@;
        if pos.x >= 1 {
            r.push(TilePos { x: pos.x - 1, y: pos.y });
        }
        proof {
            assert forall|q: TilePos| self.in_bounds_p(q) && Self::adjacent(pos, q) implies r@
                .contains(q) by {
                if q.x == pos.x && q.y + 1 == pos.y {
                    assert(r@[0] == q);
                } else if q.y == pos.y && q.x == pos.x + 1 {
                    assert(r@[s1.len() as int] == q);
                } else if q.x == pos.x && q.y == pos.y + 1 {
                    assert(r@[s2.len() as int] == q);
                } else {
                    assert(q.y == pos.y && q.x + 1 == pos.x);
                    assert(r@[s3.len() as int] == q);
                }
            }
        }
        r
    }

    /// A path along which the visibility flood starting at `from` can reach
    /// `to`: every tile before the last is open and still unseen, so the
    /// flood walks through it; the last tile may be anything, since the flood
    /// marks walls it touches without crossing them.
    pub open(crate) spec fn flood_path_ok(self, path: Seq<TilePos>, from: TilePos, to: TilePos) -> bool {
        &&& path.len() >= 1
        &&& path[0] == from
        &&& path.last() == to
        &&& forall|i: int| 0 <= i < path.len() ==> self.in_bounds_p(#[trigger] path[i])
        &&& forall|i: int| 0 <= i < path.len() - 1 ==> Self::adjacent(#[trigger] path[i], path[i + 1])
        &&& forall|i: int|
            0 <= i < path.len() - 1 ==> !self.mat_p(#[trigger] path[i]).is_solid_spec()
                && !self.vis_p(path[i])
    }

    /// Whether revealing `from` floods visibility to `to`.
    pub open(crate) spec fn floods_to(self, from: TilePos, to: TilePos) -> bool {
        exists|path: Seq<TilePos>| self.flood_path_ok(path, from, to)
    }

    /// How many tiles of a column are still unseen.
    spec fn count_false(s: Seq<bool>) -> nat
        decreases s.len(),
    {
        if s.len() == 0 {
            0
        } else {
            Self::count_false(s.drop_last()) + if s.last() {
                0nat
            } else {
                1nat
            }
        }
    }

    /// How many tiles of the whole bitmap are still unseen.
    spec fn count_unseen_cols(cols: Seq<Vec<bool>>) -> nat
        decreases cols.len(),
    {
        if cols.len() == 0 {
            0
        } else {
            Self::count_unseen_cols(cols.drop_last()) + Self::count_false(cols.last()@)
        }
    }

    spec fn count_unseen(self) -> nat {
        Self::count_unseen_cols(self.visible@)
    }

    proof fn lemma_count_false_update(s: Seq<bool>, y: int)
        requires
            0 <= y < s.len(),
            !s[y],
        ensures
            Self::count_false(s.update(y, true)) + 1 == Self::count_false(s),
        decreases s.len(),
    {
        if y == s.len() - 1 {
            assert(s.update(y, true).drop_last() =~= s.drop_last());
        } else {
            Self::lemma_count_false_update(s.drop_last(), y);
            assert(s.update(y, true).drop_last() =~= s.drop_last().update(y, true));
            assert(s.update(y, true).last() == s.last());
        }
    }

    proof fn lemma_count_cols_congruent(a: Seq<Vec<bool>>, b: Seq<Vec<bool>>)
        requires
            a.len() == b.len(),
            forall|k: int| 0 <= k < a.len() ==> (#[trigger] a[k])@ == b[k]@,
        ensures
            Self::count_unseen_cols(a) == Self::count_unseen_cols(b),
        decreases a.len(),
    {
        if a.len() > 0 {
            Self::lemma_count_cols_congruent(a.drop_last(), b.drop_last());
        }
    }

    proof fn lemma_count_cols_update(a: Seq<Vec<bool>>, b: Seq<Vec<bool>>, x: int)
        requires
            a.len() == b.len(),
            0 <= x < a.len(),
            forall|k: int| 0 <= k < a.len() && k != x ==> (#[trigger] a[k])@ == b[k]@,
            Self::count_false(b[x]@) + 1 == Self::count_false(a[x]@),
        ensures
            Self::count_unseen_cols(b) + 1 == Self::count_unseen_cols(a),
        decreases a.len(),
    {
        if x == a.len() - 1 {
            Self::lemma_count_cols_congruent(a.drop_last(), b.drop_last());
        } else {
            Self::lemma_count_cols_update(a.drop_last(), b.drop_last(), x);
        }
    }

    /// Marking one unseen tile lowers the number of unseen tiles by one.
    proof fn lemma_mark_lowers_count(g1: Grid, g2: Grid, pos: TilePos)
        requires
            g1.wf(),
            g1.in_bounds_p(pos),
            !g1.vis_p(pos),
            g2.visible@.len() == g1.visible@.len(),
            forall|k: int|
                0 <= k < g1.visible@.len() && k != pos.x ==> (#[trigger] g2.visible@[k])@
                    == g1.visible@[k]@,
            g2.visible@[pos.x as int]@ == g1.visible@[pos.x as int]@.update(pos.y as int, true),
        ensures
            g2.count_unseen() + 1 == g1.count_unseen(),
    {
        Self::lemma_count_false_update(g1.visible@[pos.x as int]@, pos.y as int);
        Self::lemma_count_cols_update(g1.visible@, g2.visible@, pos.x as int);
    }

    /// A flood path can be extended by one open, unseen tile to any of its
    /// neighbours.
    proof fn lemma_flood_extend(self, pos: TilePos, p: TilePos, n: TilePos)
        requires
            self.floods_to(pos, p),
            self.in_bounds_p(p),
            !self.mat_p(p).is_solid_spec(),
            !self.vis_p(p),
            self.in_bounds_p(n),
            Self::adjacent(p, n),
        ensures
            self.floods_to(pos, n),
    {
        let path = choose|path: Seq<TilePos>| self.flood_path_ok(path, pos, p);
        let path2 = path.push(n);
        assert(path2.last() == n);
        assert(forall|i: int| 0 <= i < path.len() ==> path2[i] == path[i]);
        assert(self.flood_path_ok(path2, pos, n));
    }

    /// Every tile a flood path leads to is visible in a state where the
    /// flood has run to completion: the start is marked, and every open,
    /// newly seen tile has all its neighbours marked.
    proof fn lemma_flood_covered(g0: Grid, g1: Grid, pos: TilePos, path: Seq<TilePos>, q: TilePos)
        requires
            g0.wf(),
            g1.width == g0.width,
            g1.height == g0.height,
            forall|x: int, y: int| g0.in_bounds(x, y) ==> g1.mat(x, y) == g0.mat(x, y),
            g0.flood_path_ok(path, pos, q),
            g1.vis_p(pos),
            forall|t: TilePos|
                g0.in_bounds_p(t) && g1.vis_p(t) && !g0.mat_p(t).is_solid_spec() && !g0.vis_p(t)
                    ==> forall|n: TilePos|
                    g0.in_bounds_p(n) && Self::adjacent(t, n) ==> g1.vis_p(n),
        ensures
            g1.vis_p(q),
        decreases path.len(),
    {
        if path.len() > 1 {
            let prefix = path.drop_last();
            let t = path[path.len() - 2];
            assert(prefix.last() == t);
            assert(g0.flood_path_ok(prefix, pos, t));
            Self::lemma_flood_covered(g0, g1, pos, prefix, t);
            assert(Self::adjacent(t, q));
        }
    }

    /// Reveals `pos` and floods visibility outward: the flood stops at solid
    /// tiles but marks them, so the walls bounding a revealed cavern are
    /// seen; tiles that were already visible are never traversed again.
    /// Visibility only ever grows.
    pub fn set_visible(&mut self, pos: TilePos)
        requires
            old(self).wf(),
            old(self).in_bounds_p(pos),
        ensures
            final(self).wf(),
            final(self).width_spec() == old(self).width_spec(),
            final(self).height_spec() == old(self).height_spec(),
            forall|x: int, y: int|
                old(self).in_bounds(x, y) ==> final(self).mat(x, y) == old(self).mat(x, y),
            forall|q: TilePos|
                old(self).in_bounds_p(q) ==> final(self).vis_p(q) == (old(self).vis_p(q) || q
                    == pos || old(self).floods_to(pos, q)),
    {
        let ghost g0 = *old(self);
        if self.is_visible(pos) {
            proof {
                assert forall|q: TilePos|
                    g0.in_bounds_p(q) && (q == pos || g0.floods_to(pos, q)) implies g0.vis_p(
                    q,
                ) by {
                    if q != pos {
                        let path = choose|path: Seq<TilePos>| g0.flood_path_ok(path, pos, q);
                        if path.len() == 1 {
                            assert(q == pos);
                        } else {
                            assert(!g0.vis_p(path[0]));
                        }
                    }
                }
            }
            return ;
        }
        self.mark_visible(pos);
        if self.is_solid(pos) {
            proof {
                assert forall|q: TilePos|
                    g0.in_bounds_p(q) && q != pos && g0.floods_to(pos, q) implies false by {
                    let path = choose|path: Seq<TilePos>| g0.flood_path_ok(path, pos, q);
                    if path.len() == 1 {
                        assert(q == pos);
                    } else {
                        assert(g0.mat_p(path[0]).is_solid_spec());
                        assert(!g0.mat_p(path[0]).is_solid_spec());
                    }
                }
            }
            return ;
        }
        let mut next: Vec<TilePos> = Vec::new();
        next.push(pos);
        proof {
            let path0 = seq![pos];
            assert(path0.last() == pos);
            assert(g0.flood_path_ok(path0, pos, pos));
        }
        loop
            invariant_except_break
                self.wf(),
                self.width == g0.width,
                self.height == g0.height,
                forall|x: int, y: int| g0.in_bounds(x, y) ==> self.mat(x, y) == g0.mat(x, y),
                self.vis_p(pos),
                forall|q: TilePos| g0.in_bounds_p(q) && g0.vis_p(q) ==> self.vis_p(q),
                forall|q: TilePos|
                    g0.in_bounds_p(q) && self.vis_p(q) ==> g0.vis_p(q) || g0.floods_to(pos, q),
                forall|j: int|
                    0 <= j < next@.len() ==> {
                        let t = #[trigger] next@[j];
                        g0.in_bounds_p(t) && self.vis_p(t) && !g0.mat_p(t).is_solid_spec()
                            && !g0.vis_p(t) && g0.floods_to(pos, t)
                    },
                forall|q: TilePos|
                    g0.in_bounds_p(q) && self.vis_p(q) && !g0.mat_p(q).is_solid_spec()
                        && !g0.vis_p(q) ==> next@.contains(q) || (forall|n: TilePos|
                        g0.in_bounds_p(n) && Self::adjacent(q, n) ==> self.vis_p(n)),
            ensures
                self.wf(),
                self.width == g0.width,
                self.height == g0.height,
                forall|x: int, y: int| g0.in_bounds(x, y) ==> self.mat(x, y) == g0.mat(x, y),
                self.vis_p(pos),
                forall|q: TilePos| g0.in_bounds_p(q) && g0.vis_p(q) ==> self.vis_p(q),
                forall|q: TilePos|
                    g0.in_bounds_p(q) && self.vis_p(q) ==> g0.vis_p(q) || g0.floods_to(pos, q),
                forall|q: TilePos|
                    g0.in_bounds_p(q) && self.vis_p(q) && !g0.mat_p(q).is_solid_spec()
                        && !g0.vis_p(q) ==> forall|n: TilePos|
                        g0.in_bounds_p(n) && Self::adjacent(q, n) ==> self.vis_p(n),
            decreases self.count_unseen() * 5 + next@.len(),
        {
            if next.len() == 0 {
                break ;
            }
            let ghost c0 = self.count_unseen();
            let ghost n0 = next@.len();
            let p = match next.pop() {
                Some(p) => p,
                None => {
                    return ;  // unreachable: the stack is non-empty
                },
            };
            let ns = self.neighbors_of(p);
            for k in 0..ns.len()
                invariant
                    self.wf(),
                    self.width == g0.width,
                    self.height == g0.height,
                    forall|x: int, y: int| g0.in_bounds(x, y) ==> self.mat(x, y) == g0.mat(x, y),
                    self.vis_p(pos),
                    forall|q: TilePos| g0.in_bounds_p(q) && g0.vis_p(q) ==> self.vis_p(q),
                    forall|q: TilePos|
                        g0.in_bounds_p(q) && self.vis_p(q) ==> g0.vis_p(q) || g0.floods_to(pos, q),
                    forall|j: int|
                        0 <= j < next@.len() ==> {
                            let t = #[trigger] next@[j];
                            g0.in_bounds_p(t) && self.vis_p(t) && !g0.mat_p(t).is_solid_spec()
                                && !g0.vis_p(t) && g0.floods_to(pos, t)
                        },
                    g0.in_bounds_p(p) && !g0.mat_p(p).is_solid_spec() && !g0.vis_p(p)
                        && g0.floods_to(pos, p) && self.vis_p(p),
                    forall|i: int|
                        0 <= i < ns@.len() ==> g0.in_bounds_p(#[trigger] ns@[i]) && Self::adjacent(
                            p,
                            ns@[i],
                        ),
                    forall|q: TilePos|
                        g0.in_bounds_p(q) && Self::adjacent(p, q) ==> ns@.contains(q),
                    forall|i: int| 0 <= i < k ==> self.vis_p(#[trigger] ns@[i]),
                    forall|q: TilePos|
                        g0.in_bounds_p(q) && self.vis_p(q) && !g0.mat_p(q).is_solid_spec()
                            && !g0.vis_p(q) && q != p ==> next@.contains(q) || (forall|n: TilePos|
                            g0.in_bounds_p(n) && Self::adjacent(q, n) ==> self.vis_p(n)),
                    self.count_unseen() * 5 + next@.len() <= c0 * 5 + n0 - 1,
            {
                let n = ns[k];
                if !self.is_visible(n) {
                    let ghost before = *self;
                    self.mark_visible(n);
                    proof {
                        Grid::lemma_mark_lowers_count(before, *self, n);
                        g0.lemma_flood_extend(pos, p, n);
                    }
                    if !self.is_solid(n) {
                        next.push(n);
                    }
                }
            }
            proof {
                assert forall|q: TilePos|
                    g0.in_bounds_p(q) && self.vis_p(q) && !g0.mat_p(q).is_solid_spec()
                        && !g0.vis_p(q) implies next@.contains(q) || (forall|n: TilePos|
                    g0.in_bounds_p(n) && Self::adjacent(q, n) ==> self.vis_p(n)) by {
                    if q == p {
                        assert forall|n: TilePos|
                            g0.in_bounds_p(n) && Self::adjacent(q, n) implies self.vis_p(n) by {
                            assert(ns@.contains(n));
                            let i = choose|i: int| 0 <= i < ns@.len() && ns@[i] == n;
                            assert(self.vis_p(ns@[i]));
                        }
                    }
                }
            }
        }
        proof {
            assert forall|q: TilePos|
                g0.in_bounds_p(q) implies self.vis_p(q) == (g0.vis_p(q) || q == pos
                || g0.floods_to(pos, q)) by {
                if g0.floods_to(pos, q) && !self.vis_p(q) {
                    let path = choose|path: Seq<TilePos>| g0.flood_path_ok(path, pos, q);
                    Grid::lemma_flood_covered(g0, *self, pos, path, q);
                }
            }
        }
    }

    /// The grid with its own terrain but the visibility bitmap of `other`.
    pub open(crate) spec fn with_visibility(self, other: Grid) -> Grid {
        Grid { visible: other.visible, ..self }
    }

    /// A path from `from` to `to` through open terrain: every tile before
    /// the last is walkable; the last may be a wall, which such a path
    /// reaches but does not cross.
    pub open(crate) spec fn open_path_ok(self, path: Seq<TilePos>, from: TilePos, to: TilePos) -> bool {
        &&& path.len() >= 1
        &&& path[0] == from
        &&& path.last() == to
        &&& forall|i: int| 0 <= i < path.len() ==> self.in_bounds_p(#[trigger] path[i])
        &&& forall|i: int| 0 <= i < path.len() - 1 ==> Self::adjacent(#[trigger] path[i], path[i + 1])
        &&& forall|i: int|
            0 <= i < path.len() - 1 ==> !self.mat_p(#[trigger] path[i]).is_solid_spec()
    }

    /// Whether open terrain connects `from` to `to`.
    pub open(crate) spec fn open_reaches(self, from: TilePos, to: TilePos) -> bool {
        exists|path: Seq<TilePos>| self.open_path_ok(path, from, to)
    }

    /// Flooding depends only on dimensions, terrain and prior visibility,
    /// all read pointwise, so it transfers between grids that agree on them.
    pub proof fn lemma_flood_congruent(a: Grid, b: Grid, from: TilePos, to: TilePos)
        requires
            b.width_spec() == a.width_spec(),
            b.height_spec() == a.height_spec(),
            forall|x: int, y: int| a.in_bounds(x, y) ==> b.mat(x, y) == a.mat(x, y),
            forall|x: int, y: int| a.in_bounds(x, y) ==> b.vis(x, y) == a.vis(x, y),
            a.floods_to(from, to),
        ensures
            b.floods_to(from, to),
    {
        let path = choose|path: Seq<TilePos>| a.flood_path_ok(path, from, to);
        assert(b.flood_path_ok(path, from, to));
    }

    /// Open reachability likewise transfers between grids with the same
    /// dimensions and terrain.
    pub proof fn lemma_open_congruent(a: Grid, b: Grid, from: TilePos, to: TilePos)
        requires
            b.width_spec() == a.width_spec(),
            b.height_spec() == a.height_spec(),
            forall|x: int, y: int| a.in_bounds(x, y) ==> b.mat(x, y) == a.mat(x, y),
            a.open_reaches(from, to),
        ensures
            b.open_reaches(from, to),
    {
        let path = choose|path: Seq<TilePos>| a.open_path_ok(path, from, to);
        assert(b.open_path_ok(path, from, to));
    }

    /// On a grid where nothing is visible yet, the flood reaches exactly
    /// what open terrain connects.
    pub proof fn lemma_flood_eq_open_unseen(self, from: TilePos, to: TilePos)
        requires
            forall|x: int, y: int| self.in_bounds(x, y) ==> !self.vis(x, y),
        ensures
            self.floods_to(from, to) == self.open_reaches(from, to),
    {
        if self.floods_to(from, to) {
            let path = choose|path: Seq<TilePos>| self.flood_path_ok(path, from, to);
            assert(self.open_path_ok(path, from, to));
        }
        if self.open_reaches(from, to) {
            let path = choose|path: Seq<TilePos>| self.open_path_ok(path, from, to);
            assert forall|i: int| 0 <= i < path.len() - 1 implies !self.vis_p(#[trigger] path[i]) by {
                assert(self.in_bounds_p(path[i]));
            }
            assert(self.flood_path_ok(path, from, to));
        }
    }

    /// Visibility is monotone: a reveal, whose exact effect `set_visible`
    /// ensures, never clears a visibility bit. Every other operation of the
    /// library states in its contract that it leaves visibility bits
    /// unchanged, so along any sequence of operations a tile that is
    /// visible stays visible.
    pub proof fn lemma_reveal_monotone(pre: Grid, post: Grid, from: TilePos)
        requires
            forall|q: TilePos|
                pre.in_bounds_p(q) ==> post.vis_p(q) == (pre.vis_p(q) || q == from
                    || pre.floods_to(from, q)),
        ensures
            forall|q: TilePos| pre.in_bounds_p(q) && pre.vis_p(q) ==> post.vis_p(q),
    {
    }

    /// The tile at the centre of the grid, where generation guarantees a
    /// clearing and the first reveal happens.
    pub open(crate) spec fn mid_spec(self) -> TilePos {
        TilePos { x: (self.width / 2) as usize, y: (self.height / 2) as usize }
    }
}

} // verus!
