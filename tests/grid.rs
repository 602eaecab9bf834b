use rts_map::{
    find_path, handle_terrain_modification, EntityId, GridCell, GridCoord, MapGrid,
    TerrainModifiedEvent, TerrainType, WorldPos,
};

fn open_grid(w: i32, h: i32) -> MapGrid {
    let mut grid = MapGrid::new(w, h, 1000);
    let mut id: u64 = 0;
    for x in 0..w {
        for y in 0..h {
            grid.register_cell(GridCoord { x, y }, EntityId(id), GridCell::default());
            id += 1;
        }
    }
    grid
}

fn c(x: i32, y: i32) -> GridCoord {
    GridCoord { x, y }
}

fn assert_valid_path(grid: &MapGrid, path: &[GridCoord], from: GridCoord, to: GridCoord) {
    assert_eq!(path[0], from);
    assert_eq!(*path.last().unwrap(), to);
    for w in path.windows(2) {
        let d = (w[0].x - w[1].x).abs() + (w[0].y - w[1].y).abs();
        assert_eq!(d, 1);
        assert!(grid.get_cell(w[1]).unwrap().walkable);
    }
}

#[test]
fn world_to_grid_floors_each_ground_axis() {
    let grid = MapGrid::new(8, 8, 1000);
    assert_eq!(grid.world_to_grid(WorldPos { x: 2500, y: 7000, z: 3999 }), c(2, 3));
    assert_eq!(grid.world_to_grid(WorldPos { x: -1, y: 0, z: -1000 }), c(-1, -1));
    assert_eq!(grid.world_to_grid(WorldPos { x: -1001, y: 0, z: 0 }), c(-2, 0));
    assert_eq!(grid.world_to_grid(WorldPos { x: 100_000, y: 0, z: 0 }), c(100, 0));
}

#[test]
fn grid_to_world_is_the_cell_centre() {
    let grid = MapGrid::new(8, 8, 1000);
    assert_eq!(grid.grid_to_world(c(3, 4), 400), WorldPos { x: 3500, y: 400, z: 4500 });
    let coarse = MapGrid::new(8, 8, 2500);
    assert_eq!(coarse.grid_to_world(c(-2, 1), 0), WorldPos { x: -3750, y: 0, z: 3750 });
}

#[test]
fn round_trip_through_the_grid_is_stable() {
    for cs in [1i64, 3, 1000, 2500] {
        let grid = MapGrid::new(4, 4, cs);
        for p in [
            WorldPos { x: 0, y: 0, z: 0 },
            WorldPos { x: -7, y: 5, z: 12_345 },
            WorldPos { x: 999, y: -3, z: -1001 },
        ] {
            let g = grid.world_to_grid(p);
            assert_eq!(grid.world_to_grid(grid.grid_to_world(g, 123)), g);
        }
    }
}

#[test]
fn in_bounds_covers_exactly_the_map() {
    let grid = MapGrid::new(4, 3, 1000);
    assert!(grid.in_bounds(c(0, 0)));
    assert!(grid.in_bounds(c(3, 2)));
    assert!(!grid.in_bounds(c(4, 0)));
    assert!(!grid.in_bounds(c(0, 3)));
    assert!(!grid.in_bounds(c(-1, 0)));
}

#[test]
fn new_grid_has_no_cells_and_registration_overwrites() {
    let mut grid = MapGrid::new(4, 4, 1000);
    assert_eq!(grid.get_cell(c(1, 1)), None);
    assert_eq!(grid.get_cell_entity(c(1, 1)), None);
    grid.register_cell(c(1, 1), EntityId(7), GridCell::default());
    assert_eq!(grid.get_cell_entity(c(1, 1)), Some(EntityId(7)));
    grid.register_cell(c(1, 1), EntityId(9), GridCell::for_terrain(TerrainType::Stone));
    assert_eq!(grid.get_cell_entity(c(1, 1)), Some(EntityId(9)));
    assert_eq!(grid.get_cell(c(1, 1)).unwrap().terrain, TerrainType::Stone);
    grid.register_cell(c(9, 9), EntityId(1), GridCell::default());
    assert_eq!(grid.get_cell_entity(c(9, 9)), None);
}

#[test]
fn terrain_policy_table() {
    let water = GridCell::for_terrain(TerrainType::Water);
    assert!(!water.walkable && !water.buildable && water.elevation == 0);
    let mountain = GridCell::for_terrain(TerrainType::Mountain);
    assert!(!mountain.walkable && !mountain.buildable && mountain.elevation == 2000);
    let forest = GridCell::for_terrain(TerrainType::Forest);
    assert!(forest.walkable && !forest.buildable && forest.elevation == 0);
    for t in [TerrainType::Grass, TerrainType::Dirt, TerrainType::Stone] {
        let cell = GridCell::for_terrain(t);
        assert!(cell.walkable && cell.buildable && cell.elevation == 0);
    }
    assert_eq!(GridCell::default(), GridCell::for_terrain(TerrainType::Grass));
}

#[test]
fn modify_terrain_rederives_flags() {
    let mut grid = open_grid(4, 4);
    grid.modify_terrain(c(2, 2), TerrainType::Mountain);
    assert_eq!(grid.get_cell(c(2, 2)).unwrap().elevation, 2000);
    grid.modify_terrain(c(2, 2), TerrainType::Grass);
    let cell = grid.get_cell(c(2, 2)).unwrap();
    assert!(cell.walkable && cell.buildable);
    assert_eq!(cell.elevation, 0);
    assert_eq!(grid.get_cell_entity(c(2, 2)), Some(EntityId(10)));
}

#[test]
fn modify_terrain_of_unregistered_cell_is_a_no_op() {
    let mut grid = MapGrid::new(4, 4, 1000);
    grid.modify_terrain(c(1, 1), TerrainType::Water);
    assert_eq!(grid.get_cell(c(1, 1)), None);
    grid.modify_terrain(c(-5, 40), TerrainType::Water);
    assert_eq!(grid.get_cell(c(-5, 40)), None);
}

#[test]
fn water_cell_blocks_the_path() {
    let mut grid = open_grid(64, 64);
    let events = vec![TerrainModifiedEvent { coord: c(5, 5), new_terrain: TerrainType::Water, timestamp: 0 }];
    handle_terrain_modification(&mut grid, &events);
    let cell = grid.get_cell(c(5, 5)).unwrap();
    assert!(!cell.walkable);
    assert!(!cell.buildable);
    let path = find_path(&grid, c(0, 0), c(10, 10)).unwrap();
    assert!(!path.contains(&c(5, 5)));
    assert_eq!(path.len(), 21);
    assert_valid_path(&grid, &path, c(0, 0), c(10, 10));
}

#[test]
fn path_to_the_same_cell_is_that_cell() {
    let grid = open_grid(8, 8);
    assert_eq!(find_path(&grid, c(2, 2), c(2, 2)), Some(vec![c(2, 2)]));
}

#[test]
fn path_with_an_end_off_the_map_fails() {
    let grid = open_grid(8, 8);
    assert_eq!(find_path(&grid, c(-1, 0), c(2, 2)), None);
    assert_eq!(find_path(&grid, c(2, 2), c(8, 2)), None);
    assert_eq!(find_path(&grid, c(9, 9), c(9, 9)), None);
}

#[test]
fn walled_off_target_has_no_path() {
    let mut grid = open_grid(8, 8);
    for t in [c(4, 3), c(4, 5), c(3, 4), c(5, 4)] {
        grid.modify_terrain(t, TerrainType::Mountain);
    }
    assert_eq!(find_path(&grid, c(0, 0), c(4, 4)), None);
    grid.modify_terrain(c(6, 6), TerrainType::Water);
    assert_eq!(find_path(&grid, c(0, 0), c(6, 6)), None);
}

#[test]
fn path_goes_around_a_wall() {
    let mut grid = open_grid(5, 5);
    for y in 0..4 {
        grid.modify_terrain(c(2, y), TerrainType::Water);
    }
    let path = find_path(&grid, c(0, 0), c(4, 0)).unwrap();
    assert_valid_path(&grid, &path, c(0, 0), c(4, 0));
    assert_eq!(path.len(), 13);
}

#[test]
fn equal_paths_are_broken_by_heuristic_then_x_then_y() {
    let grid = open_grid(5, 5);
    let path = find_path(&grid, c(0, 0), c(2, 2)).unwrap();
    assert_eq!(path, vec![c(0, 0), c(0, 1), c(0, 2), c(1, 2), c(2, 2)]);
    let back = find_path(&grid, c(2, 2), c(0, 0)).unwrap();
    assert_eq!(back, vec![c(2, 2), c(1, 2), c(0, 2), c(0, 1), c(0, 0)]);
}

#[test]
fn unwalkable_start_has_no_path() {
    let mut grid = open_grid(4, 4);
    grid.modify_terrain(c(0, 0), TerrainType::Water);
    assert_eq!(find_path(&grid, c(0, 0), c(0, 2)), None);
    assert_eq!(find_path(&grid, c(0, 0), c(0, 0)), None);
    assert_eq!(find_path(&grid, c(0, 1), c(0, 2)), Some(vec![c(0, 1), c(0, 2)]));
}

#[test]
fn unregistered_start_has_no_path() {
    let mut grid = MapGrid::new(2, 1, 1000);
    grid.register_cell(c(1, 0), EntityId(1), GridCell::default());
    assert_eq!(find_path(&grid, c(0, 0), c(1, 0)), None);
    assert_eq!(find_path(&grid, c(0, 0), c(0, 0)), None);
}

#[test]
fn unregistered_cells_are_not_walked() {
    let mut grid = MapGrid::new(3, 1, 1000);
    grid.register_cell(c(0, 0), EntityId(0), GridCell::default());
    grid.register_cell(c(2, 0), EntityId(2), GridCell::default());
    assert_eq!(find_path(&grid, c(0, 0), c(2, 0)), None);
    grid.register_cell(c(1, 0), EntityId(1), GridCell::default());
    assert_eq!(find_path(&grid, c(0, 0), c(2, 0)), Some(vec![c(0, 0), c(1, 0), c(2, 0)]));
}
