//! Procedural terrain generation: random cave seeding, staged growth passes,
//! resource scattering, the sealed Bedrock border, and the initial reveal of
//! the map centre.

use vstd::prelude::*;

use crate::dir::Dir;
use crate::grid::Grid;
use crate::material::Material;
use crate::pos::TilePos;
use crate::world::pos_in;

verus! {

/// Relies on rand::random_range: a uniform draw from `lo..hi`; the range
/// must not be empty.
#[verifier::external_body]
fn rand_below(lo: usize, hi: usize) -> (r: usize)
    requires
        lo < hi,
    ensures
        lo <= r < hi,
{
    rand::random_range(lo..hi)
}

/// The materials that terrain generation is allowed to write.
pub open spec fn gen_material(m: Material) -> bool {
    ||| m == Material::Air
    ||| m == Material::Bedrock
    ||| m == Material::Rock
    ||| m == Material::Granite
    ||| m == Material::Ore
    ||| m == Material::Crystal
}

impl Grid {
    /// Whether the neighbour of `p` in direction `d` exists and holds `m`.
    pub open(crate) spec fn matching_neighbor(self, p: TilePos, d: Dir, m: Material) -> bool {
        match self.tile_in_dir_spec(p, d) {
            Some(q) => self.mat_p(q) == m,
            None => false,
        }
    }

    /// How many of the four neighbours of `p` hold `m`.
    pub open(crate) spec fn neighbor_count(self, p: TilePos, m: Material) -> int {
        (if self.matching_neighbor(p, Dir::Up, m) {
            1int
        } else {
            0int
        }) + (if self.matching_neighbor(p, Dir::Right, m) {
            1int
        } else {
            0int
        }) + (if self.matching_neighbor(p, Dir::Down, m) {
            1int
        } else {
            0int
        }) + (if self.matching_neighbor(p, Dir::Left, m) {
            1int
        } else {
            0int
        })
    }

    /// Whether the neighbour of `p` in direction `d` exists and holds `m`.
    fn has_matching_neighbor(&self, p: TilePos, d: Dir, m: Material) -> (r: bool)
        requires
            self.wf(),
        ensures
            r == self.matching_neighbor(p, d, m),
    {
        match self.tile_in_dir(p, d) {
            Some(q) => match self.get(q) {
                Some(n) => n == m,
                None => false,
            },
            None => false,
        }
    }

    /// Counts the 4-neighbours of `p` holding `m`.
    fn count_matching_neighbors(&self, p: TilePos, m: Material) -> (r: usize)
        requires
            self.wf(),
        ensures
            r == self.neighbor_count(p, m),
            r <= 4,
    {
        let mut cnt: usize = 0;
        if self.has_matching_neighbor(p, Dir::Up, m) {
            cnt = cnt + 1;
        }
        if self.has_matching_neighbor(p, Dir::Right, m) {
            cnt = cnt + 1;
        }
        if self.has_matching_neighbor(p, Dir::Down, m) {
            cnt = cnt + 1;
        }
        if self.has_matching_neighbor(p, Dir::Left, m) {
            cnt = cnt + 1;
        }
        cnt
    }

    /// One growth pass: every tile holding `src` converts to `material` with
    /// odds rising in the count of 4-neighbours holding `neighbor`
    /// (`odds_permille` thousandths of certainty per neighbour). All
    /// conversions are decided against a read-only snapshot and applied
    /// afterwards. Two outcomes are certain whatever the draws: a tile whose
    /// score reaches a full thousand always converts, and a tile with no
    /// matching neighbour never does.
    pub fn grow(&mut self, material: Material, src: Material, neighbor: Material, odds_permille: usize)
        requires
            old(self).wf(),
            odds_permille <= 1000,
        ensures
            final(self).wf(),
            final(self).width_spec() == old(self).width_spec(),
            final(self).height_spec() == old(self).height_spec(),
            forall|x: int, y: int|
                old(self).in_bounds(x, y) ==> final(self).vis(x, y) == old(self).vis(x, y),
            forall|x: int, y: int|
                old(self).in_bounds(x, y) ==> final(self).mat(x, y) == old(self).mat(x, y) || (
                old(self).mat(x, y) == src && final(self).mat(x, y) == material),
            forall|x: int, y: int|
                old(self).in_bounds(x, y) && old(self).mat(x, y) == src && #[trigger] old(
                    self,
                ).neighbor_count((TilePos { x: x as usize, y: y as usize }), neighbor)
                    * odds_permille >= 1000 ==> final(self).mat(x, y) == material,
            forall|x: int, y: int|
                old(self).in_bounds(x, y) && old(self).mat(x, y) == src && #[trigger] old(
                    self,
                ).neighbor_count((TilePos { x: x as usize, y: y as usize }), neighbor) == 0
                    ==> final(self).mat(x, y) == old(self).mat(x, y),
    {
        let ghost g0 = *old(self);
        let w = self.size().x;
        let h = self.size().y;
        let mut changes: Vec<TilePos> = Vec::new();
        for x in 0..w
            invariant
                *self == g0,
                odds_permille <= 1000,
                self.wf(),
                w == self.width_spec(),
                h == self.height_spec(),
                forall|j: int|
                    0 <= j < changes@.len() ==> {
                        let c = #[trigger] changes@[j];
                        self.in_bounds_p(c) && self.mat_p(c) == src && self.neighbor_count(
                            c,
                            neighbor,
                        ) >= 1
                    },
                forall|a: int, b: int|
                    0 <= a < x && 0 <= b < h && self.mat(a, b) == src && #[trigger] self.neighbor_count(
                        (TilePos { x: a as usize, y: b as usize }),
                        neighbor,
                    ) * odds_permille >= 1000 ==> pos_in(changes@, a, b),
        {
            for y in 0..h
                invariant
                    *self == g0,
                    odds_permille <= 1000,
                    self.wf(),
                    w == self.width_spec(),
                    h == self.height_spec(),
                    x < w,
                    forall|j: int|
                        0 <= j < changes@.len() ==> {
                            let c = #[trigger] changes@[j];
                            self.in_bounds_p(c) && self.mat_p(c) == src && self.neighbor_count(
                                c,
                                neighbor,
                            ) >= 1
                        },
                    forall|a: int, b: int|
                        0 <= a < x && 0 <= b < h && self.mat(a, b) == src
                            && #[trigger] self.neighbor_count(
                            (TilePos { x: a as usize, y: b as usize }),
                            neighbor,
                        ) * odds_permille >= 1000 ==> pos_in(changes@, a, b),
                    forall|b: int|
                        0 <= b < y && self.mat(x as int, b) == src && #[trigger] self.neighbor_count(
                            (TilePos { x: x, y: b as usize }),
                            neighbor,
                        ) * odds_permille >= 1000 ==> pos_in(changes@, x as int, b),
            {
                let pos = TilePos { x, y };
                let here = match self.get(pos) {
                    Some(m) => m,
                    None => src,  // unreachable: pos is in bounds
                };
                if here == src {
                    let cnt = self.count_matching_neighbors(pos, neighbor);
                    proof {
                        assert(cnt * odds_permille <= 4000) by (nonlinear_arith)
                            requires
                                cnt <= 4,
                                odds_permille <= 1000,
                        ;
                    }
                    let draw = rand_below(0, 1000);
                    if draw < cnt * odds_permille {
                        proof {
                            assert(cnt >= 1) by (nonlinear_arith)
                                requires
                                    cnt * odds_permille > 0,
                            ;
                        }
                        let ghost ch0 = changes@;
                        changes.push(pos);
                        proof {
                            assert forall|a: int, b: int| pos_in(ch0, a, b) implies pos_in(
                                changes@,
                                a,
                                b,
                            ) by {
                                let j = choose|j: int|
                                    0 <= j < ch0.len() && (#[trigger] ch0[j]).x == a && ch0[j].y
                                        == b;
                                assert(changes@[j] == ch0[j]);
                            }
                            assert(changes@.last() == pos);
                            assert(pos_in(changes@, x as int, y as int));
                        }
                    }
                }
            }
        }
        let ghost collected = changes@;
        for k in 0..changes.len()
            invariant
                self.wf(),
                self.width_spec() == g0.width_spec(),
                self.height_spec() == g0.height_spec(),
                changes@ == collected,
                forall|x: int, y: int| g0.in_bounds(x, y) ==> self.vis(x, y) == g0.vis(x, y),
                forall|x: int, y: int|
                    g0.in_bounds(x, y) ==> self.mat(x, y) == g0.mat(x, y) || (g0.mat(x, y) == src
                        && self.mat(x, y) == material),
                forall|x: int, y: int|
                    g0.in_bounds(x, y) && !pos_in(changes@, x, y) ==> self.mat(x, y) == g0.mat(
                        x,
                        y,
                    ),
                forall|x: int, y: int|
                    pos_in(changes@.subrange(0, k as int), x, y) ==> self.mat(x, y) == material,
                forall|j: int|
                    0 <= j < changes@.len() ==> {
                        let c = #[trigger] changes@[j];
                        g0.in_bounds_p(c) && g0.mat_p(c) == src && g0.neighbor_count(c, neighbor)
                            >= 1
                    },
        {
            let c = changes[k];
            self.set_material(c, material);
            proof {
                assert(changes@.subrange(0, k as int + 1) =~= changes@.subrange(
                    0,
                    k as int,
                ).push(c));
                assert forall|x: int, y: int|
                    pos_in(changes@.subrange(0, k as int + 1), x, y) implies self.mat(x, y)
                        == material by {
                    let sub = changes@.subrange(0, k as int + 1);
                    let j = choose|j: int|
                        0 <= j < sub.len() && (#[trigger] sub[j]).x == x && sub[j].y == y;
                    if j < k {
                        assert(pos_in(changes@.subrange(0, k as int), x, y));
                        if !(x == c.x && y == c.y) {
                            assert(self.mat(x, y) == material);
                        }
                    } else {
                        assert(sub[j] == c);
                    }
                }
                assert(pos_in(changes@, c.x as int, c.y as int)) by {
                    assert((#[trigger] changes@[k as int]).x == c.x && changes@[k as int].y
                        == c.y);
                }
            }
        }
        proof {
            assert(changes@.subrange(0, changes@.len() as int) =~= changes@);
            assert forall|x: int, y: int|
                g0.in_bounds(x, y) && g0.mat(x, y) == src && #[trigger] g0.neighbor_count(
                    (TilePos { x: x as usize, y: y as usize }),
                    neighbor,
                ) == 0 implies self.mat(x, y) == g0.mat(x, y) by {
                if pos_in(changes@, x, y) {
                    let j = choose|j: int|
                        0 <= j < changes@.len() && (#[trigger] changes@[j]).x == x && changes@[j].y
                            == y;
                    assert(changes@[j] == (TilePos { x: x as usize, y: y as usize }));
                }
            }
        }
    }

    /// What every generation stage preserves: shape, visibility, and the
    /// rule that a tile either keeps its starting material or holds one of
    /// the materials generation writes.
    pub open(crate) spec fn gen_stage_ok(self, g0: Grid) -> bool {
        &&& self.wf()
        &&& self.width_spec() == g0.width_spec()
        &&& self.height_spec() == g0.height_spec()
        &&& forall|x: int, y: int| g0.in_bounds(x, y) ==> self.vis(x, y) == g0.vis(x, y)
        &&& forall|x: int, y: int|
            g0.in_bounds(x, y) ==> self.mat(x, y) == g0.mat(x, y) || gen_material(
                self.mat(x, y),
            )
    }

    /// The guaranteed clearing: the centre tile and its four neighbours are
    /// all Air.
    pub open(crate) spec fn centre_open(self) -> bool {
        let mx = self.mid_spec().x as int;
        let my = self.mid_spec().y as int;
        &&& self.mat(mx, my) == Material::Air
        &&& self.mat(mx - 1, my) == Material::Air
        &&& self.mat(mx + 1, my) == Material::Air
        &&& self.mat(mx, my - 1) == Material::Air
        &&& self.mat(mx, my + 1) == Material::Air
    }

    /// The centre tile is Air.
    pub open(crate) spec fn centre_air(self) -> bool {
        self.mat(self.mid_spec().x as int, self.mid_spec().y as int) == Material::Air
    }

    /// Seeds sparse Air pockets: a random count in a density band
    /// proportional to the tile count, each seed turning one random tile to
    /// Air.
    fn seed_air_pockets(&mut self)
        requires
            old(self).wf(),
        ensures
            final(self).gen_stage_ok(*old(self)),
    {
        let ghost g0 = *old(self);
        let w = self.size().x;
        let h = self.size().y;
        let num_tiles = w * h;
        let cave_lo = num_tiles / 256;
        let cave_hi = num_tiles / 200 + 1;
        proof {
            vstd::arithmetic::div_mod::lemma_div_is_ordered_by_denominator(
                num_tiles as int,
                200,
                256,
            );
        }
        let cave_count = rand_below(cave_lo, cave_hi);
        for i in 0..cave_count
            invariant
                self.gen_stage_ok(g0),
                w == self.width_spec(),
                h == self.height_spec(),
        {
            let x = rand_below(0, w);
            let y = rand_below(0, h);
            self.set_material(TilePos { x, y }, Material::Air);
        }
    }

    /// Forces the circular clearing of radius 2 at the grid centre to Air:
    /// the one part of generation that is guaranteed whatever the draws.
    fn clear_centre(&mut self)
        requires
            old(self).wf(),
        ensures
            final(self).gen_stage_ok(*old(self)),
            final(self).centre_open(),
    {
        let ghost g0 = *old(self);
        let w = self.size().x;
        let h = self.size().y;
        let radius: usize = 2;
        let mid = TilePos { x: w / 2, y: h / 2 };
        let mut x = mid.x - radius;
        while x < mid.x + radius
            invariant
                self.gen_stage_ok(g0),
                w == self.width_spec(),
                h == self.height_spec(),
                mid.x == w / 2,
                mid.y == h / 2,
                radius == 2,
                4 <= w,
                4 <= h,
                mid.x - radius <= x,
                forall|a: int, b: int|
                    mid.x - radius <= a < x && mid.y - radius <= b < mid.y + radius && {
                        let da = if mid.x >= a {
                            mid.x - a
                        } else {
                            a - mid.x
                        };
                        let db = if mid.y >= b {
                            mid.y - b
                        } else {
                            b - mid.y
                        };
                        da * da + db * db < 4
                    } ==> #[trigger] self.mat(a, b) == Material::Air,
            decreases mid.x + radius - x,
        {
            let mut y = mid.y - radius;
            while y < mid.y + radius
                invariant
                    self.gen_stage_ok(g0),
                    w == self.width_spec(),
                    h == self.height_spec(),
                    mid.x == w / 2,
                    mid.y == h / 2,
                    radius == 2,
                    4 <= w,
                    4 <= h,
                    mid.x - radius <= x < mid.x + radius,
                    mid.y - radius <= y,
                    forall|a: int, b: int|
                        mid.x - radius <= a < x && mid.y - radius <= b < mid.y + radius && {
                            let da = if mid.x >= a {
                                mid.x - a
                            } else {
                                a - mid.x
                            };
                            let db = if mid.y >= b {
                                mid.y - b
                            } else {
                                b - mid.y
                            };
                            da * da + db * db < 4
                        } ==> #[trigger] self.mat(a, b) == Material::Air,
                    forall|b: int|
                        mid.y - radius <= b < y && {
                            let da = if mid.x >= x {
                                mid.x - x
                            } else {
                                x - mid.x
                            };
                            let db = if mid.y >= b {
                                mid.y - b
                            } else {
                                b - mid.y
                            };
                            da * da + db * db < 4
                        } ==> #[trigger] self.mat(x as int, b) == Material::Air,
                decreases mid.y + radius - y,
            {
                let dx = if mid.x >= x {
                    mid.x - x
                } else {
                    x - mid.x
                };
                let dy = if mid.y >= y {
                    mid.y - y
                } else {
                    y - mid.y
                };
                proof {
                    assert(dx * dx <= 4 && dy * dy <= 4) by (nonlinear_arith)
                        requires
                            dx <= 2,
                            dy <= 2,
                    ;
                }
                if dx * dx + dy * dy < radius * radius {
                    self.set_material(TilePos { x, y }, Material::Air);
                }
                y = y + 1;
            }
            x = x + 1;
        }
        proof {
            assert(self.mat(mid.x as int, mid.y as int) == Material::Air);
            assert(self.mat(mid.x - 1, mid.y as int) == Material::Air);
            assert(self.mat(mid.x + 1, mid.y as int) == Material::Air);
            assert(self.mat(mid.x as int, mid.y - 1) == Material::Air);
            assert(self.mat(mid.x as int, mid.y + 1) == Material::Air);
        }
    }

    /// The cavern erosion and rock-mass passes. They convert Bedrock only,
    /// so the centre clearing survives them.
    fn grow_caverns_and_rock(&mut self)
        requires
            old(self).wf(),
        ensures
            final(self).gen_stage_ok(*old(self)),
            old(self).centre_open() ==> final(self).centre_open(),
    {
        self.grow(Material::Air, Material::Bedrock, Material::Air, 1000);
        proof {
            assert(old(self).centre_open() ==> self.centre_open());
        }
        self.grow(Material::Air, Material::Bedrock, Material::Air, 1000);
        proof {
            assert(old(self).centre_open() ==> self.centre_open());
        }
        self.grow(Material::Air, Material::Bedrock, Material::Air, 800);
        proof {
            assert(old(self).centre_open() ==> self.centre_open());
        }
        self.grow(Material::Air, Material::Bedrock, Material::Air, 600);
        proof {
            assert(old(self).centre_open() ==> self.centre_open());
        }
        self.grow(Material::Air, Material::Bedrock, Material::Air, 400);
        proof {
            assert(old(self).centre_open() ==> self.centre_open());
        }
        self.grow(Material::Air, Material::Bedrock, Material::Air, 400);
        proof {
            assert(old(self).centre_open() ==> self.centre_open());
        }
        self.grow(Material::Rock, Material::Bedrock, Material::Air, 1000);
        proof {
            assert(old(self).centre_open() ==> self.centre_open());
        }
        self.grow(Material::Rock, Material::Bedrock, Material::Rock, 600);
        proof {
            assert(old(self).centre_open() ==> self.centre_open());
        }
        self.grow(Material::Rock, Material::Bedrock, Material::Rock, 500);
        proof {
            assert(old(self).centre_open() ==> self.centre_open());
        }
        self.grow(Material::Rock, Material::Bedrock, Material::Rock, 300);
        proof {
            assert(old(self).centre_open() ==> self.centre_open());
        }
        self.grow(Material::Rock, Material::Bedrock, Material::Rock, 300);
        proof {
            assert(old(self).centre_open() ==> self.centre_open());
        }
    }

    /// The reverse thinning pass, Air back to Rock. The centre tile has no
    /// Rock among its neighbours when the clearing stands, so it can never
    /// convert: the clearing's middle is deterministic.
    fn thin_caverns(&mut self)
        requires
            old(self).wf(),
        ensures
            final(self).gen_stage_ok(*old(self)),
            old(self).centre_open() ==> final(self).centre_air(),
    {
        let ghost g0 = *old(self);
        self.grow(Material::Rock, Material::Air, Material::Rock, 200);
        proof {
            if g0.centre_open() {
                let mid = g0.mid_spec();
                assert(!g0.matching_neighbor(mid, Dir::Up, Material::Rock));
                assert(!g0.matching_neighbor(mid, Dir::Right, Material::Rock));
                assert(!g0.matching_neighbor(mid, Dir::Down, Material::Rock));
                assert(!g0.matching_neighbor(mid, Dir::Left, Material::Rock));
                assert(g0.neighbor_count(
                    (TilePos { x: mid.x as int as usize, y: mid.y as int as usize }),
                    Material::Rock,
                ) == 0);
                assert(self.mat(mid.x as int, mid.y as int) == Material::Air);
            }
        }
    }

    /// The Granite vein passes; they convert Bedrock and Rock only, leaving
    /// the Air centre alone.
    fn grow_granite(&mut self)
        requires
            old(self).wf(),
        ensures
            final(self).gen_stage_ok(*old(self)),
            old(self).centre_air() ==> final(self).centre_air(),
    {
        self.grow(Material::Granite, Material::Bedrock, Material::Rock, 800);
        proof {
            assert(old(self).centre_air() ==> self.centre_air());
        }
        self.grow(Material::Granite, Material::Bedrock, Material::Granite, 400);
        proof {
            assert(old(self).centre_air() ==> self.centre_air());
        }
        self.grow(Material::Granite, Material::Bedrock, Material::Granite, 400);
        proof {
            assert(old(self).centre_air() ==> self.centre_air());
        }
        self.grow(Material::Granite, Material::Rock, Material::Rock, 30);
        proof {
            assert(old(self).centre_air() ==> self.centre_air());
        }
        self.grow(Material::Granite, Material::Rock, Material::Granite, 100);
        proof {
            assert(old(self).centre_air() ==> self.centre_air());
        }
    }

    /// Scatters seeds of one mineral onto existing Rock at the given
    /// density band, then clusters them with two growth passes. Only Rock
    /// converts, so the Air centre survives.
    fn scatter_mineral(&mut self, mineral: Material, div_lo: usize, div_hi: usize, odds: usize)
        requires
            old(self).wf(),
            gen_material(mineral),
            2 <= div_hi <= div_lo,
            odds <= 1000,
        ensures
            final(self).gen_stage_ok(*old(self)),
            old(self).centre_air() ==> final(self).centre_air(),
    {
        let ghost g0 = *old(self);
        let w = self.size().x;
        let h = self.size().y;
        let num_tiles = w * h;
        proof {
            vstd::arithmetic::div_mod::lemma_div_is_ordered_by_denominator(
                num_tiles as int,
                div_hi as int,
                div_lo as int,
            );
            vstd::arithmetic::div_mod::lemma_div_is_ordered_by_denominator(
                num_tiles as int,
                2,
                div_hi as int,
            );
        }
        let count = rand_below(num_tiles / div_lo, num_tiles / div_hi + 1);
        for i in 0..count
            invariant
                self.gen_stage_ok(g0),
                w == self.width_spec(),
                h == self.height_spec(),
                gen_material(mineral),
                g0.centre_air() ==> self.centre_air(),
        {
            let x = rand_below(0, w);
            let y = rand_below(0, h);
            let pos = TilePos { x, y };
            if let Some(m) = self.get(pos) {
                if m == Material::Rock {
                    self.set_material(pos, mineral);
                }
            }
        }
        let ghost pre = *self;
        self.grow(mineral, Material::Rock, mineral, odds);
        proof {
            assert(pre.centre_air() ==> self.centre_air());
        }
        let ghost pre2 = *self;
        self.grow(mineral, Material::Rock, mineral, odds);
        proof {
            assert(pre2.centre_air() ==> self.centre_air());
        }
    }

    /// Forces every border tile to Bedrock, sealing the map.
    fn seal_border(&mut self)
        requires
            old(self).wf(),
        ensures
            final(self).gen_stage_ok(*old(self)),
            old(self).centre_air() ==> final(self).centre_air(),
            forall|x: int, y: int|
                final(self).in_bounds(x, y) && (x == 0 || x == final(self).width_spec() - 1 || y
                    == 0 || y == final(self).height_spec() - 1) ==> final(self).mat(x, y)
                    == Material::Bedrock,
    {
        let ghost g0 = *old(self);
        let w = self.size().x;
        let h = self.size().y;
        for x in 0..w
            invariant
                self.gen_stage_ok(g0),
                w == self.width_spec(),
                h == self.height_spec(),
                g0.centre_air() ==> self.centre_air(),
                forall|k: int|
                    0 <= k < x ==> self.mat(k, 0) == Material::Bedrock && self.mat(
                        k,
                        self.height_spec() - 1,
                    ) == Material::Bedrock,
        {
            self.set_material(TilePos { x, y: 0 }, Material::Bedrock);
            self.set_material(TilePos { x, y: h - 1 }, Material::Bedrock);
        }
        for y in 0..h
            invariant
                self.gen_stage_ok(g0),
                w == self.width_spec(),
                h == self.height_spec(),
                g0.centre_air() ==> self.centre_air(),
                forall|k: int|
                    0 <= k < w ==> self.mat(k, 0) == Material::Bedrock && self.mat(
                        k,
                        self.height_spec() - 1,
                    ) == Material::Bedrock,
                forall|l: int|
                    0 <= l < y ==> self.mat(0, l) == Material::Bedrock && self.mat(
                        self.width_spec() - 1,
                        l,
                    ) == Material::Bedrock,
        {
            self.set_material(TilePos { x: 0, y }, Material::Bedrock);
            self.set_material(TilePos { x: w - 1, y }, Material::Bedrock);
        }
        proof {
            assert forall|x: int, y: int|
                self.in_bounds(x, y) && (x == 0 || x == self.width_spec() - 1 || y == 0 || y
                    == self.height_spec() - 1) implies self.mat(x, y) == Material::Bedrock by {
                if y == 0 {
                    assert(self.mat(x, 0) == Material::Bedrock);
                } else if y == h as int - 1 {
                    assert(self.mat(x, h as int - 1) == Material::Bedrock);
                } else if x == 0 {
                    assert(self.mat(0, y) == Material::Bedrock);
                } else {
                    assert(self.mat(w as int - 1, y) == Material::Bedrock);
                }
            }
        }
    }

    /// Generates terrain in ordered stages: random Air pockets, a guaranteed
    /// clearing at the centre, cavern erosion, rock mass, a thinning pass,
    /// Granite veins, Ore and Crystal clusters, a sealed Bedrock border, and
    /// finally a visibility flood from the centre. Whatever the random
    /// draws, the border is sealed and the centre tile ends open.
    pub fn generate(&mut self)
        requires
            old(self).wf(),
        ensures
            final(self).wf(),
            final(self).width_spec() == old(self).width_spec(),
            final(self).height_spec() == old(self).height_spec(),
            forall|x: int, y: int|
                old(self).in_bounds(x, y) ==> final(self).mat(x, y) == old(self).mat(x, y)
                    || gen_material(final(self).mat(x, y)),
            forall|x: int, y: int|
                final(self).in_bounds(x, y) && (x == 0 || x == final(self).width_spec() - 1 || y
                    == 0 || y == final(self).height_spec() - 1) ==> final(self).mat(x, y)
                    == Material::Bedrock,
            final(self).centre_air(),
            forall|q: TilePos|
                old(self).in_bounds_p(q) ==> final(self).vis_p(q) == (old(self).vis_p(q) || q
                    == old(self).mid_spec() || final(self).with_visibility(*old(self)).floods_to(
                    old(self).mid_spec(),
                    q,
                )),
    {
        let ghost g0 = *old(self);
        let mid = TilePos { x: self.size().x / 2, y: self.size().y / 2 };
        self.seed_air_pockets();
        self.clear_centre();
        self.grow_caverns_and_rock();
        self.thin_caverns();
        self.grow_granite();
        self.scatter_mineral(Material::Ore, 64, 48, 230);
        self.scatter_mineral(Material::Crystal, 80, 64, 140);
        self.seal_border();
        let ghost pre_flood = *self;
        self.set_visible(mid);
        proof {
            let target = final(self).with_visibility(g0);
            assert forall|q: TilePos|
                g0.in_bounds_p(q) implies self.vis_p(q) == (g0.vis_p(q) || q == g0.mid_spec()
                || target.floods_to(g0.mid_spec(), q)) by {
                if pre_flood.floods_to(mid, q) {
                    Grid::lemma_flood_congruent(pre_flood, target, mid, q);
                }
                if target.floods_to(mid, q) {
                    Grid::lemma_flood_congruent(target, pre_flood, mid, q);
                }
            }
        }
    }

    /// A freshly generated grid of the given dimensions. The border is
    /// sealed Bedrock, only terrain materials occur, the centre tile is
    /// guaranteed open, and exactly the centre clearing together with its
    /// bounding walls is visible.
    pub fn new(width: usize, height: usize) -> (r: Grid)
        requires
            4 <= width,
            4 <= height,
            width * height <= usize::MAX,
        ensures
            r.wf(),
            r.width_spec() == width,
            r.height_spec() == height,
            forall|x: int, y: int| r.in_bounds(x, y) ==> gen_material(r.mat(x, y)),
            r.centre_air(),
            forall|x: int, y: int|
                r.in_bounds(x, y) && (x == 0 || x == width - 1 || y == 0 || y == height - 1)
                    ==> r.mat(x, y) == Material::Bedrock,
            forall|q: TilePos|
                r.in_bounds_p(q) ==> r.vis_p(q) == (q == r.mid_spec() || r.open_reaches(
                    r.mid_spec(),
                    q,
                )),
    {
        let mut r = Grid::new_blank(width, height);
        let ghost blank = r;
        r.generate();
        proof {
            let target = r.with_visibility(blank);
            assert forall|q: TilePos|
                r.in_bounds_p(q) implies r.vis_p(q) == (q == r.mid_spec() || r.open_reaches(
                r.mid_spec(),
                q,
            )) by {
                assert forall|x: int, y: int| target.in_bounds(x, y) implies !target.vis(
                    x,
                    y,
                ) by {
                    assert(!blank.vis(x, y));
                }
                target.lemma_flood_eq_open_unseen(blank.mid_spec(), q);
                if target.open_reaches(r.mid_spec(), q) {
                    Grid::lemma_open_congruent(target, r, r.mid_spec(), q);
                }
                if r.open_reaches(r.mid_spec(), q) {
                    Grid::lemma_open_congruent(r, target, r.mid_spec(), q);
                }
            }
        }
        r
    }
}

} // verus!
