//! Per-tick power resolution: every non-Spawn machine keeps a directional
//! link toward its supplier; a machine is supplied when following its links
//! reaches a Spawn. Resolution walks each stored chain with a visited set,
//! so loops of links always terminate and count as unsupplied; machines with
//! a broken chain search their four neighbours, in the fixed order
//! `Up, Right, Down, Left`, for a new supplier.

use vstd::prelude::*;

use crate::dir::Dir;
use crate::machine::Machine;
use crate::pos::TilePos;

verus! {

broadcast use vstd::seq_lib::group_seq_properties;

/// No two registry entries share a tile.
pub open spec fn positions_distinct(ms: Seq<Machine>) -> bool {
    forall|i: int, j: int| 0 <= i < j < ms.len() ==> ms[i].pos != ms[j].pos
}

/// Whether some registry entry sits at `p`.
pub open spec fn has_machine(ms: Seq<Machine>, p: TilePos) -> bool {
    exists|i: int| 0 <= i < ms.len() && ms[i].pos == p
}

/// The index of the registry entry at `p`; meaningful when `has_machine`
/// holds and positions are distinct.
pub open spec fn machine_idx(ms: Seq<Machine>, p: TilePos) -> int {
    choose|i: int| 0 <= i < ms.len() && ms[i].pos == p
}

/// The registry entry at `p`.
pub open spec fn machine_at(ms: Seq<Machine>, p: TilePos) -> Machine {
    ms[machine_idx(ms, p)]
}

/// One step from `p` in direction `d` on a `w` x `h` grid, or `None` at the
/// edge.
pub open spec fn tile_step(w: int, h: int, p: TilePos, d: Dir) -> Option<TilePos> {
    let nx = p.x + d.delta_spec().0;
    let ny = p.y + d.delta_spec().1;
    if 0 <= nx < w && 0 <= ny < h {
        Some(TilePos { x: nx as usize, y: ny as usize })
    } else {
        None
    }
}

/// Where the supplier link of the machine at `p` points, or `None` if there
/// is no machine, no link, or the link leaves the grid.
pub open spec fn chain_step(ms: Seq<Machine>, w: int, h: int, p: TilePos) -> Option<TilePos> {
    if has_machine(ms, p) {
        match machine_at(ms, p).power_source_spec() {
            Some(d) => tile_step(w, h, p, d),
            None => None,
        }
    } else {
        None
    }
}

/// Whether the supplier chain starting at `p` reaches a Spawn within `fuel`
/// steps.
pub open spec fn chain_ok(ms: Seq<Machine>, w: int, h: int, p: TilePos, fuel: nat) -> bool
    decreases fuel,
{
    &&& has_machine(ms, p)
    &&& (machine_at(ms, p).is_spawn_spec() || {
        &&& fuel > 0
        &&& chain_step(ms, w, h, p) is Some
        &&& chain_ok(ms, w, h, chain_step(ms, w, h, p).unwrap(), (fuel - 1) as nat)
    })
}

/// Whether the supplier chain starting at `p` reaches a Spawn at all.
pub open spec fn has_chain(ms: Seq<Machine>, w: int, h: int, p: TilePos) -> bool {
    exists|fuel: nat| chain_ok(ms, w, h, p, fuel)
}

/// Stepping along a link of a non-Spawn machine neither creates nor
/// destroys a chain: the chain from `p` reaches a Spawn exactly when the
/// chain from the linked tile `q` does.
proof fn lemma_chain_step_iff(ms: Seq<Machine>, w: int, h: int, p: TilePos, q: TilePos)
    requires
        has_machine(ms, p),
        !machine_at(ms, p).is_spawn_spec(),
        chain_step(ms, w, h, p) == Some(q),
    ensures
        has_chain(ms, w, h, p) == has_chain(ms, w, h, q),
{
    if has_chain(ms, w, h, p) {
        let fuel = choose|fuel: nat| chain_ok(ms, w, h, p, fuel);
        assert(chain_ok(ms, w, h, q, (fuel - 1) as nat));
    }
    if has_chain(ms, w, h, q) {
        let fuel = choose|fuel: nat| chain_ok(ms, w, h, q, fuel);
        assert(chain_ok(ms, w, h, p, fuel + 1));
    }
}

/// Links that run in a loop of non-Spawn machines support no chain: no
/// amount of fuel lets any loop member reach a Spawn.
pub proof fn lemma_cycle_no_chain(
    ms: Seq<Machine>,
    w: int,
    h: int,
    cyc: Seq<TilePos>,
    i: int,
    fuel: nat,
)
    requires
        cyc.len() >= 1,
        0 <= i < cyc.len(),
        forall|k: int|
            0 <= k < cyc.len() ==> has_machine(ms, #[trigger] cyc[k]) && !machine_at(
                ms,
                cyc[k],
            ).is_spawn_spec(),
        forall|k: int|
            0 <= k < cyc.len() ==> chain_step(ms, w, h, #[trigger] cyc[k]) == Some(
                cyc[(k + 1) % (cyc.len() as int)],
            ),
    ensures
        !chain_ok(ms, w, h, cyc[i], fuel),
    decreases fuel,
{
    if chain_ok(ms, w, h, cyc[i], fuel) {
        let n = cyc.len() as int;
        let j = (i + 1) % n;
        assert(chain_step(ms, w, h, cyc[i]) == Some(cyc[j]));
        assert(fuel > 0);
        assert(chain_ok(ms, w, h, cyc[j], (fuel - 1) as nat));
        lemma_cycle_no_chain(ms, w, h, cyc, j, (fuel - 1) as nat);
    }
}

/// A duplicate-free sequence of tiles that all hold machines cannot be
/// longer than the registry.
proof fn lemma_seen_bounded(ms: Seq<Machine>, seen: Seq<TilePos>)
    requires
        seen.no_duplicates(),
        forall|k: int| 0 <= k < seen.len() ==> has_machine(ms, #[trigger] seen[k]),
    ensures
        seen.len() <= ms.len(),
{
    broadcast use vstd::seq_lib::seq_to_set_is_finite;

    let pos_seq = ms.map_values(|m: Machine| m.pos);
    seen.unique_seq_to_set();
    pos_seq.lemma_cardinality_of_set();
    assert forall|p: TilePos| seen.to_set().contains(p) implies pos_seq.to_set().contains(p) by {
        let i = choose|i: int| 0 <= i < ms.len() && ms[i].pos == p;
        assert(pos_seq[i] == p);
        assert(pos_seq.contains(p));
    }
    vstd::set_lib::lemma_len_subset(seen.to_set(), pos_seq.to_set());
}

/// Finds the registry entry at `p` by linear scan.
pub fn find_machine(ms: &Vec<Machine>, p: TilePos) -> (r: Option<usize>)
    requires
        positions_distinct(ms@),
    ensures
        match r {
            Some(i) => i < ms@.len() && ms@[i as int].pos == p && has_machine(ms@, p)
                && machine_at(ms@, p) == ms@[i as int],
            None => !has_machine(ms@, p),
        },
{
    for i in 0..ms.len()
        invariant
            positions_distinct(ms@),
            forall|j: int| 0 <= j < i ==> (#[trigger] ms@[j]).pos != p,
    {
        if ms[i].pos == p {
            proof {
                let j = machine_idx(ms@, p);
                assert(0 <= j < ms@.len() && ms@[j].pos == p);
            }
            return Some(i);
        }
    }
    None
}

/// One step from `p` in direction `d`, or `None` at the grid edge.
pub fn step_in_dir(width: usize, height: usize, p: TilePos, d: Dir) -> (r: Option<TilePos>)
    ensures
        r == tile_step(width as int, height as int, p, d),
{
    match d {
        Dir::Up => {
            if p.x < width && p.y >= 1 && p.y - 1 < height {
                Some(TilePos { x: p.x, y: p.y - 1 })
            } else {
                None
            }
        },
        Dir::Right => {
            if p.y < height && p.x < width && p.x + 1 < width {
                Some(TilePos { x: p.x + 1, y: p.y })
            } else {
                None
            }
        },
        Dir::Down => {
            if p.x < width && p.y < height && p.y + 1 < height {
                Some(TilePos { x: p.x, y: p.y + 1 })
            } else {
                None
            }
        },
        Dir::Left => {
            if p.y < height && p.x >= 1 && p.x - 1 < width {
                Some(TilePos { x: p.x - 1, y: p.y })
            } else {
                None
            }
        },
    }
}

/// Whether `v` holds `p`.
pub(crate) fn contains_pos(v: &Vec<TilePos>, p: TilePos) -> (r: bool)
    ensures
        r == v@.contains(p),
{
    for i in 0..v.len()
        invariant
            forall|j: int| 0 <= j < i ==> v@[j] != p,
    {
        if v[i] == p {
            return true;
        }
    }
    false
}

/// Nothing in the tail of a walk that loops back on itself has a chain:
/// every link from a tail tile leads to another tail tile, and none of them
/// is a Spawn.
#[verifier::spinoff_prover]
proof fn lemma_tail_no_chain(
    ms: Seq<Machine>,
    w: int,
    h: int,
    seen: Seq<TilePos>,
    j: int,
    pos: TilePos,
    fuel: nat,
)
    requires
        0 <= j < seen.len(),
        seen[j] == pos,
        forall|k: int|
            0 <= k < seen.len() ==> has_machine(ms, #[trigger] seen[k]) && !machine_at(
                ms,
                seen[k],
            ).is_spawn_spec(),
        forall|k: int|
            0 <= k < seen.len() - 1 ==> chain_step(ms, w, h, #[trigger] seen[k]) == Some(
                seen[k + 1],
            ),
        chain_step(ms, w, h, seen.last()) == Some(pos),
    ensures
        forall|k: int| j <= k < seen.len() ==> !chain_ok(ms, w, h, #[trigger] seen[k], fuel),
    decreases fuel,
{
    if fuel > 0 {
        lemma_tail_no_chain(ms, w, h, seen, j, pos, (fuel - 1) as nat);
    }
    assert forall|k: int| j <= k < seen.len() implies !chain_ok(ms, w, h, #[trigger] seen[k], fuel) by {
        if chain_ok(ms, w, h, seen[k], fuel) {
            if k < seen.len() - 1 {
                assert(chain_ok(ms, w, h, seen[k + 1], (fuel - 1) as nat));
            } else {
                assert(seen[k] == seen.last());
                assert(chain_ok(ms, w, h, seen[j], (fuel - 1) as nat));
            }
        }
    }
}

/// Returning to an already visited tile of the walk means the links loop,
/// so no chain from that tile reaches a Spawn.
#[verifier::spinoff_prover]
proof fn lemma_revisit_no_chain(ms: Seq<Machine>, w: int, h: int, seen: Seq<TilePos>, pos: TilePos)
    requires
        seen.contains(pos),
        forall|k: int|
            0 <= k < seen.len() ==> has_machine(ms, #[trigger] seen[k]) && !machine_at(
                ms,
                seen[k],
            ).is_spawn_spec(),
        forall|k: int|
            0 <= k < seen.len() - 1 ==> chain_step(ms, w, h, #[trigger] seen[k]) == Some(
                seen[k + 1],
            ),
        seen.len() > 0 ==> chain_step(ms, w, h, seen.last()) == Some(pos),
    ensures
        !has_chain(ms, w, h, pos),
{
    let j = choose|j: int| 0 <= j < seen.len() && seen[j] == pos;
    if has_chain(ms, w, h, pos) {
        let fuel = choose|fuel: nat| chain_ok(ms, w, h, pos, fuel);
        lemma_tail_no_chain(ms, w, h, seen, j, pos, fuel);
    }
}

/// Walks the stored supplier links from `start` and reports whether they
/// reach a Spawn. A visited set bounds the walk by the number of machines,
/// so a loop of links always terminates and counts as no chain.
#[verifier::rlimit(60)]
pub fn chain_reaches_spawn(ms: &Vec<Machine>, width: usize, height: usize, start: TilePos) -> (r:
    bool)
    requires
        positions_distinct(ms@),
    ensures
        r == has_chain(ms@, width as int, height as int, start),
{
    let ghost w = width as int;
    let ghost h = height as int;
    let mut seen: Vec<TilePos> = Vec::new();
    let mut pos = start;
    loop
        invariant
            positions_distinct(ms@),
            w == width as int,
            h == height as int,
            seen@.no_duplicates(),
            forall|k: int|
                0 <= k < seen@.len() ==> has_machine(ms@, #[trigger] seen@[k]) && !machine_at(
                    ms@,
                    seen@[k],
                ).is_spawn_spec(),
            forall|k: int|
                0 <= k < seen@.len() - 1 ==> chain_step(ms@, w, h, #[trigger] seen@[k]) == Some(
                    seen@[k + 1],
                ),
            seen@.len() > 0 ==> chain_step(ms@, w, h, seen@.last()) == Some(pos),
            has_chain(ms@, w, h, start) == has_chain(ms@, w, h, pos),
        decreases ms@.len() - seen@.len(),
    {
        proof {
            lemma_seen_bounded(ms@, seen@);
        }
        if contains_pos(&seen, pos) {
            proof {
                lemma_revisit_no_chain(ms@, w, h, seen@, pos);
            }
            return false;
        }
        match find_machine(ms, pos) {
            None => {
                proof {
                    if has_chain(ms@, w, h, pos) {
                        let fuel = choose|fuel: nat| chain_ok(ms@, w, h, pos, fuel);
                        assert(has_machine(ms@, pos));
                    }
                }
                return false;
            },
            Some(i) => {
                let is_spawn = ms[i].is_spawn();
                if is_spawn {
                    proof {
                        assert(chain_ok(ms@, w, h, pos, 0));
                    }
                    return true;
                }
                let src = ms[i].power_source();
                match src {
                    None => {
                        proof {
                            if has_chain(ms@, w, h, pos) {
                                let fuel = choose|fuel: nat| chain_ok(ms@, w, h, pos, fuel);
                                assert(chain_step(ms@, w, h, pos) is Some);
                            }
                        }
                        return false;
                    },
                    Some(d) => {
                        match step_in_dir(width, height, pos, d) {
                            None => {
                                proof {
                                    if has_chain(ms@, w, h, pos) {
                                        let fuel = choose|fuel: nat|
                                            chain_ok(ms@, w, h, pos, fuel);
                                        assert(chain_step(ms@, w, h, pos) is Some);
                                    }
                                }
                                return false;
                            },
                            Some(q) => {
                                proof {
                                    assert(chain_step(ms@, w, h, pos) == Some(q));
                                    lemma_chain_step_iff(ms@, w, h, pos, q);
                                    assert(seen@.push(pos).no_duplicates());
                                    lemma_seen_bounded(ms@, seen@.push(pos));
                                }
                                seen.push(pos);
                                pos = q;
                            },
                        }
                    },
                }
            },
        }
    }
}


/// Whether the neighbour one step in direction `d` offers power: it exists
/// and its own chain reaches a Spawn (a Spawn neighbour trivially does).
pub open spec fn dir_ok(ms: Seq<Machine>, w: int, h: int, p: TilePos, d: Dir) -> bool {
    tile_step(w, h, p, d) is Some && has_chain(ms, w, h, tile_step(w, h, p, d).unwrap())
}

/// The first direction, scanning `Up, Right, Down, Left`, whose neighbour
/// offers power; `None` if none qualifies.
pub open spec fn first_source(ms: Seq<Machine>, w: int, h: int, p: TilePos) -> Option<Dir> {
    if dir_ok(ms, w, h, p, Dir::Up) {
        Some(Dir::Up)
    } else if dir_ok(ms, w, h, p, Dir::Right) {
        Some(Dir::Right)
    } else if dir_ok(ms, w, h, p, Dir::Down) {
        Some(Dir::Down)
    } else if dir_ok(ms, w, h, p, Dir::Left) {
        Some(Dir::Left)
    } else {
        None
    }
}

/// Whether the neighbour in direction `d` offers power, executably.
fn dir_has_chain(ms: &Vec<Machine>, width: usize, height: usize, p: TilePos, d: Dir) -> (r: bool)
    requires
        positions_distinct(ms@),
    ensures
        r == dir_ok(ms@, width as int, height as int, p, d),
{
    match step_in_dir(width, height, p, d) {
        Some(q) => chain_reaches_spawn(ms, width, height, q),
        None => false,
    }
}

/// The search pass for one machine: scans the four directions in the fixed
/// order `Up, Right, Down, Left` and picks the first neighbour whose own
/// chain reaches a Spawn.
pub fn find_power_source_at(ms: &Vec<Machine>, width: usize, height: usize, p: TilePos) -> (r:
    Option<Dir>)
    requires
        positions_distinct(ms@),
    ensures
        r == first_source(ms@, width as int, height as int, p),
{
    if dir_has_chain(ms, width, height, p, Dir::Up) {
        Some(Dir::Up)
    } else if dir_has_chain(ms, width, height, p, Dir::Right) {
        Some(Dir::Right)
    } else if dir_has_chain(ms, width, height, p, Dir::Down) {
        Some(Dir::Down)
    } else if dir_has_chain(ms, width, height, p, Dir::Left) {
        Some(Dir::Left)
    } else {
        None
    }
}

/// What resolution stores as the supplier link of machine `m`: a Spawn
/// keeps its link untouched; a machine whose stored chain still reaches a
/// Spawn keeps it; any other machine gets the first direction offering
/// power, or `None`.
pub open spec fn resolved_source(ms: Seq<Machine>, w: int, h: int, m: Machine) -> Option<Dir> {
    if m.is_spawn_spec() {
        m.power_source_spec()
    } else if has_chain(ms, w, h, m.pos) {
        m.power_source_spec()
    } else {
        first_source(ms, w, h, m.pos)
    }
}

/// One machine after resolution: the resolved supplier link, and the power
/// flag rederived as "Spawn, or construction site, or supplied and the
/// external resource gate is satisfied".
pub open spec fn resolved_machine(ms: Seq<Machine>, w: int, h: int, gate: bool, m: Machine) -> Machine {
    let src = resolved_source(ms, w, h, m);
    Machine {
        pos: m.pos,
        machine_type: m.machine_type,
        power_source: src,
        power: m.is_spawn_spec() || m.is_construction_spec() || (src is Some && gate),
        cooldown: m.cooldown,
    }
}

/// The whole registry after one resolution pass, every entry resolved
/// against the registry as it stood before the pass.
pub open spec fn resolve_power(ms: Seq<Machine>, w: int, h: int, gate: bool) -> Seq<Machine> {
    Seq::new(ms.len(), |i: int| resolved_machine(ms, w, h, gate, ms[i]))
}

/// Runs power resolution over the registry: a read-only pass computes every
/// machine's new supplier link against a consistent snapshot, an apply pass
/// writes the links, and the power flags are rederived.
pub fn update_power(ms: &mut Vec<Machine>, width: usize, height: usize, spawn_has_power: bool)
    requires
        positions_distinct(old(ms)@),
    ensures
        final(ms)@ == resolve_power(old(ms)@, width as int, height as int, spawn_has_power),
{
    let ghost ms0 = ms@;
    let ghost w = width as int;
    let ghost h = height as int;
    let mut sources: Vec<Option<Dir>> = Vec::new();
    let n = ms.len();
    for i in 0..n
        invariant
            ms@ == ms0,
            positions_distinct(ms@),
            n == ms@.len(),
            w == width as int,
            h == height as int,
            sources@.len() == i,
            forall|j: int|
                0 <= j < i ==> sources@[j] == resolved_source(ms0, w, h, ms0[j]),
    {
        let m = vstd::std_specs::vec::vec_index(ms, i);
        if m.is_spawn() {
            sources.push(m.power_source());
        } else {
            let valid = chain_reaches_spawn(ms, width, height, m.pos);
            if valid {
                sources.push(m.power_source());
            } else {
                sources.push(find_power_source_at(ms, width, height, m.pos));
            }
        }
    }
    for i in 0..n
        invariant
            n == ms@.len(),
            ms0.len() == n,
            w == width as int,
            h == height as int,
            sources@.len() == n,
            forall|j: int|
                0 <= j < n ==> sources@[j] == resolved_source(ms0, w, h, ms0[j]),
            forall|j: int|
                0 <= j < i ==> ms@[j] == resolved_machine(ms0, w, h, spawn_has_power, ms0[j]),
            forall|j: int| i <= j < n ==> ms@[j] == ms0[j],
    {
        let src = sources[i];
        let m = vstd::std_specs::vec::vec_index_mut(ms, i);
        m.set_power_source(src);
        m.update(spawn_has_power);
    }
    proof {
        assert(ms@ =~= resolve_power(ms0, w, h, spawn_has_power));
    }
}

/// Supplier links that form a loop never power their machines: when the
/// stored links of a set of non-Spawn, non-construction machines chase each
/// other in a circle that no Spawn interrupts, and no tile beside the loop
/// holds a machine outside it, resolution strips every member's link and
/// leaves every member unpowered. The walk itself is bounded by the visited
/// set, so resolving such a loop always terminates.
#[verifier::spinoff_prover]
#[verifier::rlimit(100)]
pub proof fn lemma_power_cycle_unpowered(
    ms: Seq<Machine>,
    w: int,
    h: int,
    gate: bool,
    cyc: Seq<TilePos>,
)
    requires
        positions_distinct(ms),
        cyc.len() >= 1,
        forall|k: int|
            0 <= k < cyc.len() ==> has_machine(ms, #[trigger] cyc[k]) && !machine_at(
                ms,
                cyc[k],
            ).is_spawn_spec() && !machine_at(ms, cyc[k]).is_construction_spec(),
        forall|k: int|
            0 <= k < cyc.len() ==> chain_step(ms, w, h, #[trigger] cyc[k]) == Some(
                cyc[(k + 1) % (cyc.len() as int)],
            ),
        forall|k: int, d: Dir|
            0 <= k < cyc.len() && #[trigger] tile_step(w, h, cyc[k], d) is Some && has_machine(
                ms,
                tile_step(w, h, cyc[k], d).unwrap(),
            ) ==> cyc.contains(tile_step(w, h, cyc[k], d).unwrap()),
    ensures
        forall|k: int|
            0 <= k < cyc.len() ==> {
                let rm = resolved_machine(ms, w, h, gate, machine_at(ms, #[trigger] cyc[k]));
                rm.power_source_spec() is None && !rm.powered_spec()
            },
{
    assert forall|k: int| 0 <= k < cyc.len() implies !has_chain(ms, w, h, #[trigger] cyc[k]) by {
        if has_chain(ms, w, h, cyc[k]) {
            let fuel = choose|fuel: nat| chain_ok(ms, w, h, cyc[k], fuel);
            lemma_cycle_no_chain(ms, w, h, cyc, k, fuel);
        }
    }
    assert forall|k: int, d: Dir| 0 <= k < cyc.len() implies !(#[trigger] dir_ok(ms, w, h, cyc[k], d)) by {
        if dir_ok(ms, w, h, cyc[k], d) {
            let q = tile_step(w, h, cyc[k], d).unwrap();
            let fuel = choose|fuel: nat| chain_ok(ms, w, h, q, fuel);
            assert(has_machine(ms, q));
            assert(cyc.contains(q));
            let j = choose|j: int| 0 <= j < cyc.len() && cyc[j] == q;
            assert(!has_chain(ms, w, h, cyc[j]));
        }
    }
    assert forall|k: int| 0 <= k < cyc.len() implies {
        let rm = resolved_machine(ms, w, h, gate, machine_at(ms, #[trigger] cyc[k]));
        rm.power_source_spec() is None && !rm.powered_spec()
    } by {
        let m = machine_at(ms, cyc[k]);
        assert(m.pos == cyc[k]);
        assert(!has_chain(ms, w, h, m.pos));
        assert(!dir_ok(ms, w, h, cyc[k], Dir::Up));
        assert(!dir_ok(ms, w, h, cyc[k], Dir::Right));
        assert(!dir_ok(ms, w, h, cyc[k], Dir::Down));
        assert(!dir_ok(ms, w, h, cyc[k], Dir::Left));
        assert(first_source(ms, w, h, m.pos) is None);
    }
}


/// Removing the entry at index `i` removes exactly the machine at its tile:
/// every other tile's lookup is unchanged.
pub proof fn lemma_registry_remove(ms: Seq<Machine>, i: int)
    requires
        positions_distinct(ms),
        0 <= i < ms.len(),
    ensures
        positions_distinct(ms.remove(i)),
        !has_machine(ms.remove(i), ms[i].pos),
        forall|q: TilePos|
            q != ms[i].pos ==> has_machine(ms.remove(i), q) == has_machine(ms, q),
        forall|q: TilePos|
            q != ms[i].pos && has_machine(ms, q) ==> machine_at(ms.remove(i), q) == machine_at(
                ms,
                q,
            ),
{
    let r = ms.remove(i);
    assert forall|q: TilePos| q != ms[i].pos implies has_machine(r, q) == has_machine(ms, q) by {
        if has_machine(ms, q) {
            let j = choose|j: int| 0 <= j < ms.len() && ms[j].pos == q;
            if j < i {
                assert(r[j] == ms[j]);
            } else {
                assert(r[j - 1] == ms[j]);
            }
        }
        if has_machine(r, q) {
            let j = choose|j: int| 0 <= j < r.len() && r[j].pos == q;
            if j < i {
                assert(ms[j] == r[j]);
            } else {
                assert(ms[j + 1] == r[j]);
            }
        }
    }
    if has_machine(r, ms[i].pos) {
        let j = choose|j: int| 0 <= j < r.len() && r[j].pos == ms[i].pos;
        if j < i {
            assert(ms[j] == r[j]);
        } else {
            assert(ms[j + 1] == r[j]);
        }
    }
    assert forall|q: TilePos|
        q != ms[i].pos && has_machine(ms, q) implies machine_at(r, q) == machine_at(ms, q) by {
        let j1 = machine_idx(r, q);
        assert(0 <= j1 < r.len() && r[j1].pos == q);
        let j2 = machine_idx(ms, q);
        assert(0 <= j2 < ms.len() && ms[j2].pos == q);
        if j1 < i {
            assert(r[j1] == ms[j1]);
            assert(ms[j1].pos == ms[j2].pos);
        } else {
            assert(r[j1] == ms[j1 + 1]);
            assert(ms[j1 + 1].pos == ms[j2].pos);
        }
    }
}

/// Appending a machine on a free tile adds exactly that machine: every
/// other tile's lookup is unchanged.
pub proof fn lemma_registry_push(ms: Seq<Machine>, m: Machine)
    requires
        positions_distinct(ms),
        !has_machine(ms, m.pos),
    ensures
        positions_distinct(ms.push(m)),
        has_machine(ms.push(m), m.pos),
        machine_at(ms.push(m), m.pos) == m,
        forall|q: TilePos| q != m.pos ==> has_machine(ms.push(m), q) == has_machine(ms, q),
        forall|q: TilePos|
            q != m.pos && has_machine(ms, q) ==> machine_at(ms.push(m), q) == machine_at(ms, q),
{
    let r = ms.push(m);
    assert(r[ms.len() as int] == m);
    assert forall|i: int, j: int| 0 <= i < j < r.len() implies r[i].pos != r[j].pos by {
        if j < ms.len() {
            assert(r[i] == ms[i] && r[j] == ms[j]);
        } else {
            assert(r[i] == ms[i] && r[j] == m);
        }
    }
    let ji = machine_idx(r, m.pos);
    assert(0 <= ji < r.len() && r[ji].pos == m.pos);
    if ji < ms.len() {
        assert(ms[ji].pos == m.pos);
    }
    assert forall|q: TilePos| q != m.pos implies has_machine(r, q) == has_machine(ms, q) by {
        if has_machine(ms, q) {
            let j = choose|j: int| 0 <= j < ms.len() && ms[j].pos == q;
            assert(r[j] == ms[j]);
        }
        if has_machine(r, q) {
            let j = choose|j: int| 0 <= j < r.len() && r[j].pos == q;
            assert(j < ms.len());
            assert(ms[j] == r[j]);
        }
    }
    assert forall|q: TilePos|
        q != m.pos && has_machine(ms, q) implies machine_at(r, q) == machine_at(ms, q) by {
        let j1 = machine_idx(r, q);
        assert(0 <= j1 < r.len() && r[j1].pos == q);
        assert(j1 < ms.len());
        let j2 = machine_idx(ms, q);
        assert(0 <= j2 < ms.len() && ms[j2].pos == q);
        assert(r[j1] == ms[j1]);
    }
}

/// Replacing the entry at index `i` by one on the same tile changes exactly
/// that tile's machine: every other tile's lookup is unchanged.
pub proof fn lemma_registry_update(ms: Seq<Machine>, i: int, m: Machine)
    requires
        positions_distinct(ms),
        0 <= i < ms.len(),
        m.pos == ms[i].pos,
    ensures
        positions_distinct(ms.update(i, m)),
        has_machine(ms.update(i, m), m.pos),
        machine_at(ms.update(i, m), m.pos) == m,
        forall|q: TilePos| has_machine(ms.update(i, m), q) == has_machine(ms, q),
        forall|q: TilePos|
            q != m.pos && has_machine(ms, q) ==> machine_at(ms.update(i, m), q) == machine_at(
                ms,
                q,
            ),
{
    let r = ms.update(i, m);
    assert(r[i] == m);
    assert forall|q: TilePos| has_machine(r, q) == has_machine(ms, q) by {
        if has_machine(ms, q) {
            let j = choose|j: int| 0 <= j < ms.len() && ms[j].pos == q;
            assert(r[j].pos == ms[j].pos);
        }
        if has_machine(r, q) {
            let j = choose|j: int| 0 <= j < r.len() && r[j].pos == q;
            assert(ms[j].pos == r[j].pos);
        }
    }
    let ji = machine_idx(r, m.pos);
    assert(0 <= ji < r.len() && r[ji].pos == m.pos);
    if ji != i {
        assert(ms[ji].pos == r[ji].pos);
        assert(ms[ji].pos != ms[i].pos);
    }
    assert forall|q: TilePos|
        q != m.pos && has_machine(ms, q) implies machine_at(r, q) == machine_at(ms, q) by {
        let j1 = machine_idx(r, q);
        assert(0 <= j1 < r.len() && r[j1].pos == q);
        assert(j1 != i);
        let j2 = machine_idx(ms, q);
        assert(0 <= j2 < ms.len() && ms[j2].pos == q);
        assert(r[j1] == ms[j1]);
    }
}

/// Resolution rewrites links and power flags only: the registry keeps its
/// length and every machine its tile, its type, and its cooldown, so every
/// tile's lookup answers as before.
pub proof fn lemma_resolve_preserves_registry(ms: Seq<Machine>, w: int, h: int, gate: bool)
    requires
        positions_distinct(ms),
    ensures
        resolve_power(ms, w, h, gate).len() == ms.len(),
        forall|i: int|
            0 <= i < ms.len() ==> (#[trigger] resolve_power(ms, w, h, gate)[i]).pos == ms[i].pos
                && resolve_power(ms, w, h, gate)[i].machine_type == ms[i].machine_type
                && resolve_power(ms, w, h, gate)[i].cooldown == ms[i].cooldown,
        positions_distinct(resolve_power(ms, w, h, gate)),
        forall|q: TilePos| has_machine(resolve_power(ms, w, h, gate), q) == has_machine(ms, q),
{
    let r = resolve_power(ms, w, h, gate);
    assert forall|q: TilePos| has_machine(r, q) == has_machine(ms, q) by {
        if has_machine(ms, q) {
            let j = choose|j: int| 0 <= j < ms.len() && ms[j].pos == q;
            assert(r[j].pos == q);
        }
        if has_machine(r, q) {
            let j = choose|j: int| 0 <= j < r.len() && r[j].pos == q;
            assert(ms[j].pos == q);
        }
    }
}

} // verus!
