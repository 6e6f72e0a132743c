//! Unit checks for materials, directions, tile positions and routes.

use mine_core::dir::Dir;
use mine_core::machine::{Machine, MachineType};
use mine_core::material::{Material, Mineral};
use mine_core::pos::TilePos;
use mine_core::world::World;

#[test]
fn material_solidity() {
    assert!(!Material::Air.is_solid());
    assert!(!Material::Platform.is_solid());
    assert!(!Material::Debris.is_solid());
    assert!(Material::Bedrock.is_solid());
    assert!(Material::Granite.is_solid());
    assert!(Material::Rock.is_solid());
    assert!(Material::Ore.is_solid());
    assert!(Material::Crystal.is_solid());
    assert!(Material::Machine.is_solid());
}

#[test]
fn material_walk_costs() {
    assert_eq!(Material::Platform.walk_cost(), Some(1));
    assert_eq!(Material::Air.walk_cost(), Some(2));
    assert_eq!(Material::Debris.walk_cost(), Some(4));
    assert_eq!(Material::Rock.walk_cost(), None);
    assert_eq!(Material::Bedrock.walk_cost(), None);
    assert_eq!(Material::Machine.walk_cost(), None);
}

#[test]
fn mineral_numbering() {
    assert_eq!(Mineral::count(), 2);
    assert_eq!(Mineral::Ore.num(), 0);
    assert_eq!(Mineral::Crystal.num(), 1);
}

#[test]
fn direction_arithmetic() {
    assert_eq!(Dir::Up.num(), 0);
    assert_eq!(Dir::Right.num(), 1);
    assert_eq!(Dir::Down.num(), 2);
    assert_eq!(Dir::Left.num(), 3);
    assert_eq!(Dir::Up.clockwise(), Dir::Right);
    assert_eq!(Dir::Left.clockwise(), Dir::Up);
    assert_eq!(Dir::Up.counter_clockwise(), Dir::Left);
    assert_eq!(Dir::Down.counter_clockwise(), Dir::Right);
    for n in 0..4 {
        assert_eq!(Dir::from_num(n).num(), n);
    }
    assert_eq!(Dir::Up.as_delta(), (0, -1));
    assert_eq!(Dir::Right.as_delta(), (1, 0));
    assert_eq!(Dir::Down.as_delta(), (0, 1));
    assert_eq!(Dir::Left.as_delta(), (-1, 0));
    let all = Dir::all();
    assert_eq!(all, vec![Dir::Up, Dir::Right, Dir::Down, Dir::Left]);
}

#[test]
fn tile_distance() {
    let a = TilePos::new(2, 7);
    let b = TilePos::new(5, 3);
    assert_eq!(a.dist(b), 7);
    assert_eq!(b.dist(a), 7);
    assert_eq!(a.dist(a), 0);
}

#[test]
fn rect_iter_walks_row_major_and_skips_final_corner() {
    let mut it = TilePos::new(1, 1).rect_iter(TilePos::new(2, 2));
    assert_eq!(it.next(), Some(TilePos::new(1, 1)));
    assert_eq!(it.next(), Some(TilePos::new(2, 1)));
    assert_eq!(it.next(), Some(TilePos::new(1, 2)));
    assert_eq!(it.next(), None);
    assert_eq!(it.next(), None);
}

#[test]
fn rect_iter_normalises_corners() {
    let mut it = TilePos::new(3, 3).rect_iter(TilePos::new(2, 2));
    assert_eq!(it.next(), Some(TilePos::new(2, 2)));
}

#[test]
fn machine_type_numbering() {
    assert_eq!(MachineType::Spawn.num(), 0);
    assert_eq!(MachineType::Lab.num(), 1);
    assert_eq!(MachineType::ConstructionSite(Box::new(MachineType::Platform)).num(), 2);
}

#[test]
fn machine_power_flag_rules() {
    let mut m = Machine::new(TilePos::new(1, 1), MachineType::Lab);
    assert!(!m.powered());
    assert!(!m.has_power_source());
    m.update(true);
    assert!(!m.powered());
    m.set_power_source(Some(Dir::Up));
    assert!(m.has_power_source());
    m.update(true);
    assert!(m.powered());
    m.update(false);
    assert!(!m.powered());

    let mut spawn = Machine::new(TilePos::new(2, 2), MachineType::Spawn);
    assert!(spawn.is_spawn());
    assert!(spawn.has_power_source());
    spawn.update(false);
    assert!(spawn.powered());

    let mut site = Machine::new(
        TilePos::new(3, 3),
        MachineType::ConstructionSite(Box::new(MachineType::Lab)),
    );
    site.update(false);
    assert!(site.powered());
}

#[test]
fn grid_neighbour_and_direction_queries() {
    let world = World::new(10, 10);
    let g = world.grid();
    assert_eq!(g.tile_in_dir(TilePos::new(5, 5), Dir::Up), Some(TilePos::new(5, 4)));
    assert_eq!(g.tile_in_dir(TilePos::new(5, 5), Dir::Left), Some(TilePos::new(4, 5)));
    assert_eq!(g.tile_in_dir(TilePos::new(0, 5), Dir::Left), None);
    assert_eq!(g.tile_in_dir(TilePos::new(5, 0), Dir::Up), None);
    assert_eq!(g.tile_jump_in_dir(TilePos::new(2, 2), Dir::Right, 6), Some(TilePos::new(8, 2)));
    assert_eq!(g.tile_jump_in_dir(TilePos::new(2, 2), Dir::Right, 8), None);
    let corner = g.neighbors_of(TilePos::new(0, 0));
    assert_eq!(corner.len(), 2);
    let inner = g.neighbors_of(TilePos::new(4, 4));
    assert_eq!(
        inner,
        vec![TilePos::new(4, 3), TilePos::new(5, 4), TilePos::new(4, 5), TilePos::new(3, 4)]
    );
}

#[test]
fn route_is_consumed_once() {
    let mut world = World::new(10, 10);
    for x in 0..10 {
        for y in 0..10 {
            world.set(TilePos::new(x, y), Material::Bedrock);
        }
    }
    for x in 1..6 {
        world.set(TilePos::new(x, 1), Material::Air);
    }
    world.update(false);
    let mut route = world
        .path(TilePos::new(1, 1), TilePos::new(5, 1))
        .expect("straight open run must have a route");
    let len = route.length();
    assert_eq!(route.remaining(), len);
    let mut walked = 0;
    while route.next().is_some() {
        walked += 1;
    }
    assert_eq!(walked, len);
    assert_eq!(route.remaining(), 0);
    assert_eq!(route.next(), None);
    assert_eq!(route.tile_at(len - 1), Some(TilePos::new(5, 1)));
}
