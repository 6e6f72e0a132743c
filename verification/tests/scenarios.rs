//! End-to-end scenarios: a spawn powering itself, a platform drawing power
//! from a neighbouring spawn, corridor routing with invalidation, and a
//! loop of supplier links resolving to unpowered.

use mine_core::dir::Dir;
use mine_core::machine::MachineType;
use mine_core::material::Material;
use mine_core::pos::TilePos;
use mine_core::world::World;

/// A 10x10 world, every tile rewritten to Bedrock except an open 8x8
/// interior of Air.
fn open_room() -> World {
    let mut world = World::new(10, 10);
    for x in 0..10 {
        for y in 0..10 {
            let border = x == 0 || x == 9 || y == 0 || y == 9;
            let mat = if border { Material::Bedrock } else { Material::Air };
            world.set(TilePos::new(x, y), mat);
        }
    }
    world
}

#[test]
fn spawn_is_powered_after_one_tick() {
    let mut world = open_room();
    world.add_machine(TilePos::new(5, 5), MachineType::Spawn);
    world.tick(200, true);
    let spawn = world.machine_at(TilePos::new(5, 5)).expect("spawn machine missing");
    assert!(spawn.powered());
}

#[test]
fn platform_draws_power_from_spawn() {
    let mut world = open_room();
    world.add_machine(TilePos::new(5, 5), MachineType::Spawn);
    world.tick(200, true);

    world.set(TilePos::new(6, 5), Material::Platform);
    world.tick(200, true);

    let platform = world.machine_at(TilePos::new(6, 5)).expect("platform machine missing");
    assert_eq!(platform.power_source(), Some(Dir::Left));
    assert!(platform.powered());
}

#[test]
fn platform_without_spawn_stays_unpowered() {
    let mut world = open_room();
    world.set(TilePos::new(4, 4), Material::Platform);
    world.tick(200, true);
    let platform = world.machine_at(TilePos::new(4, 4)).expect("platform machine missing");
    assert_eq!(platform.power_source(), None);
    assert!(!platform.powered());
}

/// A 10x10 world, all Bedrock but an open corridor along y = 5.
fn corridor() -> World {
    let mut world = World::new(10, 10);
    for x in 0..10 {
        for y in 0..10 {
            world.set(TilePos::new(x, y), Material::Bedrock);
        }
    }
    for x in 0..10 {
        world.set(TilePos::new(x, 5), Material::Air);
    }
    world.update(false);
    world
}

#[test]
fn corridor_routes_then_respects_blockage() {
    let mut world = corridor();

    let mut route = world
        .path(TilePos::new(0, 5), TilePos::new(9, 5))
        .expect("open corridor must have a route");
    assert!(route.length() > 0);
    // The route walks the corridor to its end.
    let mut last = None;
    while let Some(t) = route.next() {
        last = Some(t);
    }
    assert_eq!(last, Some(TilePos::new(9, 5)));

    // Wall the corridor off and drain the change.
    world.set(TilePos::new(4, 5), Material::Bedrock);
    world.update(false);

    match world.path(TilePos::new(0, 5), TilePos::new(9, 5)) {
        None => {},
        Some(mut route) => {
            // A detour would be legal in general, but never through the
            // blocked tile itself.
            while let Some(t) = route.next() {
                assert_ne!(t, TilePos::new(4, 5));
            }
        },
    }
}

#[test]
fn path_reaches_newly_opened_tile() {
    let mut world = corridor();
    // Wall first, then reopen: the index must pick the change up after the
    // drain.
    world.set(TilePos::new(4, 5), Material::Bedrock);
    world.update(false);
    assert!(world.path(TilePos::new(0, 5), TilePos::new(9, 5)).is_none());

    world.set(TilePos::new(4, 5), Material::Platform);
    world.update(false);
    let route = world.path(TilePos::new(0, 5), TilePos::new(9, 5));
    assert!(route.is_some());
}

#[test]
fn linked_loop_of_machines_resolves_unpowered() {
    let mut world = open_room();
    let ring = [
        (TilePos::new(2, 2), Dir::Right),
        (TilePos::new(3, 2), Dir::Down),
        (TilePos::new(3, 3), Dir::Left),
        (TilePos::new(2, 3), Dir::Up),
    ];
    for (pos, _) in ring {
        world.add_machine(pos, MachineType::Lab);
    }
    for (pos, dir) in ring {
        assert!(world.set_machine_power_source(pos, Some(dir)));
    }
    world.tick(200, true);
    for (pos, _) in ring {
        let m = world.machine_at(pos).expect("ring machine missing");
        assert_eq!(m.power_source(), None);
        assert!(!m.powered());
    }
}

#[test]
fn chain_of_machines_keeps_power_across_ticks() {
    let mut world = open_room();
    world.add_machine(TilePos::new(5, 5), MachineType::Spawn);
    world.set(TilePos::new(6, 5), Material::Platform);
    world.set(TilePos::new(7, 5), Material::Platform);
    world.tick(200, true);
    world.tick(200, true);
    let far = world.machine_at(TilePos::new(7, 5)).expect("platform machine missing");
    assert_eq!(far.power_source(), Some(Dir::Left));
    assert!(far.powered());

    // The resource gate off leaves non-spawn machines unpowered.
    world.tick(200, false);
    let far = world.machine_at(TilePos::new(7, 5)).expect("platform machine missing");
    assert!(!far.powered());
    let spawn = world.machine_at(TilePos::new(5, 5)).expect("spawn machine missing");
    assert!(spawn.powered());
}
