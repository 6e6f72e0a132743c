//! Terrain generation guarantees, the material/machine lock-step, and the
//! fog-of-war flood.

use mine_core::grid::Grid;
use mine_core::machine::MachineType;
use mine_core::material::Material;
use mine_core::pos::TilePos;
use mine_core::world::World;

#[test]
fn generated_border_is_bedrock() {
    for size in [10usize, 16, 33] {
        let grid = Grid::new(size, size);
        for x in 0..size {
            assert_eq!(grid.get(TilePos::new(x, 0)), Some(Material::Bedrock));
            assert_eq!(grid.get(TilePos::new(x, size - 1)), Some(Material::Bedrock));
        }
        for y in 0..size {
            assert_eq!(grid.get(TilePos::new(0, y)), Some(Material::Bedrock));
            assert_eq!(grid.get(TilePos::new(size - 1, y)), Some(Material::Bedrock));
        }
    }
}

#[test]
fn generation_writes_terrain_materials_only() {
    let grid = Grid::new(24, 24);
    for x in 0..24 {
        for y in 0..24 {
            let m = grid.get(TilePos::new(x, y)).unwrap();
            assert!(!matches!(m, Material::Machine | Material::Platform | Material::Debris));
        }
    }
}

#[test]
fn centre_of_generated_map_is_revealed() {
    let grid = Grid::new(20, 20);
    assert!(grid.is_visible(TilePos::new(10, 10)));
}

#[test]
fn flood_marks_bounding_wall_but_not_beyond() {
    let mut grid = Grid::new_blank(10, 10);
    // A short corridor of Air, a wall, and more Air behind the wall.
    for x in 1..4 {
        grid.set_material(TilePos::new(x, 1), Material::Air);
    }
    grid.set_material(TilePos::new(5, 1), Material::Air);

    grid.set_visible(TilePos::new(1, 1));

    assert!(grid.is_visible(TilePos::new(1, 1)));
    assert!(grid.is_visible(TilePos::new(2, 1)));
    assert!(grid.is_visible(TilePos::new(3, 1)));
    // The wall closing the corridor is seen...
    assert!(grid.is_visible(TilePos::new(4, 1)));
    // ...but the flood does not continue past it.
    assert!(!grid.is_visible(TilePos::new(5, 1)));
}

#[test]
fn revealing_a_solid_tile_marks_it_alone() {
    let mut grid = Grid::new_blank(8, 8);
    grid.set_material(TilePos::new(4, 4), Material::Air);
    grid.set_visible(TilePos::new(3, 3));
    assert!(grid.is_visible(TilePos::new(3, 3)));
    assert!(!grid.is_visible(TilePos::new(4, 4)));
    assert!(!grid.is_visible(TilePos::new(2, 3)));
}

#[test]
fn visibility_never_reverts() {
    let mut world = World::new(12, 12);
    let mut seen = Vec::new();
    for x in 0..12 {
        for y in 0..12 {
            if world.is_visible(TilePos::new(x, y)) {
                seen.push(TilePos::new(x, y));
            }
        }
    }
    world.set(TilePos::new(3, 3), Material::Air);
    world.set_visible_p(TilePos::new(3, 3));
    world.add_machine(TilePos::new(4, 4), MachineType::Lab);
    world.tick(450, true);
    world.set(TilePos::new(4, 4), Material::Debris);
    for pos in seen {
        assert!(world.is_visible(pos));
    }
}

#[test]
fn material_and_machine_registry_stay_in_step() {
    let mut world = World::new(10, 10);
    for x in 0..10 {
        for y in 0..10 {
            let border = x == 0 || x == 9 || y == 0 || y == 9;
            let mat = if border { Material::Bedrock } else { Material::Air };
            world.set(TilePos::new(x, y), mat);
        }
    }
    world.set(TilePos::new(2, 2), Material::Platform);
    world.add_machine(TilePos::new(3, 3), MachineType::Lab);
    world.tick(200, true);

    for x in 0..10 {
        for y in 0..10 {
            let pos = TilePos::new(x, y);
            let mat = world.get(pos).unwrap();
            let occupied = matches!(mat, Material::Machine | Material::Platform);
            assert_eq!(occupied, world.machine_at(pos).is_some());
        }
    }

    // Overwriting the tile discards its machine entry.
    world.set(TilePos::new(2, 2), Material::Air);
    assert!(world.machine_at(TilePos::new(2, 2)).is_none());
    world.set(TilePos::new(3, 3), Material::Debris);
    assert!(world.machine_at(TilePos::new(3, 3)).is_none());
}

#[test]
fn out_of_range_reads_answer_absent() {
    let world = World::new(10, 10);
    assert_eq!(world.get(TilePos::new(10, 0)), None);
    assert_eq!(world.get(TilePos::new(0, 10)), None);
    assert!(world.is_solid(TilePos::new(99, 99)));
    assert_eq!(world.walk_cost(TilePos::new(10, 10)), None);
    assert!(!world.is_visible(TilePos::new(10, 3)));
}

#[test]
fn dirty_flag_tracks_mutations() {
    let mut world = World::new(10, 10);
    assert!(world.is_dirty());
    world.clear_dirty();
    assert!(!world.is_dirty());
    world.set(TilePos::new(4, 4), Material::Air);
    assert!(world.is_dirty());
    world.clear_dirty();
    world.toggle_debug_mode();
    assert!(world.is_dirty());
    assert!(world.debug_mode());
}

#[test]
fn centre_tile_is_always_open() {
    // The radius-2 clearing guarantees the exact centre whatever the random
    // draws: its neighbours are Air when the thinning pass runs, so it can
    // never grow back to Rock.
    for size in [10usize, 16, 25] {
        let grid = Grid::new(size, size);
        assert_eq!(grid.get(TilePos::new(size / 2, size / 2)), Some(Material::Air));
    }
}

#[test]
fn smallest_supported_world() {
    let world = World::new(4, 4);
    for x in 0..4 {
        for y in 0..4 {
            let border = x == 0 || x == 3 || y == 0 || y == 3;
            if border {
                assert_eq!(world.get(TilePos::new(x, y)), Some(Material::Bedrock));
            }
        }
    }
    assert_eq!(world.get(TilePos::new(2, 2)), Some(Material::Air));
}
