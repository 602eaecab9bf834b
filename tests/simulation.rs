use rts_map::{
    are_allied, generate_terrain, handle_load_map_commands, handle_pathfinding_requests,
    initialize_default_map, load_map, register_grid_cells, spawn_example_units, spawn_test_unit,
    ArmorType, AttackType, ControllerType, EntityId, EventChannel, FactionId, GridCell, GridCoord,
    LoadMapCommand, LoadedMap, MapGrid, Ownership, PathfindingRequestEvent, Statsheet, TeamId,
    TerrainType, Unit, UnitState, UnitType, WorldPos,
};

fn c(x: i32, y: i32) -> GridCoord {
    GridCoord { x, y }
}

fn registered(layout_cells: &[(GridCoord, GridCell)], grid: &mut MapGrid) {
    let regs: Vec<(EntityId, GridCoord, GridCell)> = layout_cells
        .iter()
        .enumerate()
        .map(|(i, (coord, cell))| (EntityId(i as u64), *coord, *cell))
        .collect();
    register_grid_cells(grid, &regs);
}

#[test]
fn alliance_rule() {
    assert!(are_allied(TeamId::Team(1), TeamId::Team(1)));
    assert!(!are_allied(TeamId::FFA, TeamId::FFA));
    assert!(!are_allied(TeamId::Team(1), TeamId::Team(2)));
    assert!(are_allied(TeamId::Neutral, TeamId::Neutral));
    assert!(!are_allied(TeamId::Neutral, TeamId::Team(0)));
}

#[test]
fn ownership_default_and_transfer() {
    let mut o = Ownership::default();
    assert_eq!(o.faction, FactionId::Neutral);
    assert_eq!(o.team, TeamId::Neutral);
    assert_eq!(o.controller_type, ControllerType::Automatic);
    o.transfer_to(FactionId::Player(2), TeamId::Team(2), ControllerType::AI);
    assert_eq!(o, Ownership { faction: FactionId::Player(2), team: TeamId::Team(2), controller_type: ControllerType::AI });
    let ally = Ownership { faction: FactionId::Player(3), team: TeamId::Team(2), controller_type: ControllerType::Human };
    assert!(o.is_allied_with(&ally));
    let ffa = Ownership { faction: FactionId::Creep, team: TeamId::FFA, controller_type: ControllerType::AI };
    assert!(!ffa.is_allied_with(&ffa));
}

#[test]
fn derived_stats_example() {
    let mut s = Statsheet::default();
    s.strength = 20;
    s.agility = 15;
    s.intelligence = 10;
    s.base_health = 100_000;
    s.base_mana = 0;
    s.base_damage = 10_000;
    s.base_armor = 0;
    s.base_attack_speed = 1_000;
    s.base_move_speed = 3_000;
    s.calculate_derived_stats();
    assert_eq!(s.max_health, 500_000);
    assert_eq!(s.max_mana, 150_000);
    assert_eq!(s.damage, 30_000);
    assert_eq!(s.armor, 2_250);
    assert_eq!(s.attack_speed, 1_150);
    assert_eq!(s.move_speed, 3_075);
}

#[test]
fn derived_stats_are_idempotent() {
    let mut s = Statsheet::default();
    s.strength = 7;
    s.agility = 31;
    s.base_armor = -500;
    s.calculate_derived_stats();
    let once = s;
    s.calculate_derived_stats();
    assert_eq!(s, once);
}

#[test]
fn recomputation_caps_current_values() {
    let mut s = Statsheet::default();
    assert_eq!(s.health, 460_000);
    s.strength = 10;
    s.intelligence = 1;
    s.calculate_derived_stats();
    assert_eq!(s.max_health, 300_000);
    assert_eq!(s.health, 300_000);
    assert_eq!(s.max_mana, 15_000);
    assert_eq!(s.mana, 15_000);
    s.apply_damage(100_000);
    s.strength = 30;
    s.calculate_derived_stats();
    assert_eq!(s.health, 200_000);
    assert_eq!(s.max_health, 700_000);
}

#[test]
fn default_statsheet_is_full_baseline() {
    let s = Statsheet::default();
    assert_eq!((s.strength, s.agility, s.intelligence), (18, 18, 18));
    assert_eq!(s.max_health, 460_000);
    assert_eq!(s.max_mana, 270_000);
    assert_eq!(s.damage, 28_000);
    assert_eq!(s.armor, 2_700);
    assert_eq!(s.attack_speed, 1_180);
    assert_eq!(s.move_speed, 3_090);
    assert_eq!((s.health, s.mana), (460_000, 270_000));
    assert_eq!(s.attack_type, AttackType::Normal);
    assert_eq!(s.armor_type, ArmorType::Medium);
    assert_eq!((s.attack_range, s.turn_rate, s.sight_range), (1_500, 500, 10_000));
}

#[test]
fn initialize_fills_health_and_mana() {
    let mut s = Statsheet::default();
    s.apply_damage(60_000);
    s.mana = 0;
    s.initialize();
    assert_eq!(s.health, s.max_health);
    assert_eq!(s.mana, s.max_mana);
}

#[test]
fn damage_stops_at_zero() {
    let mut s = Statsheet::default();
    s.apply_damage(1_000_000);
    assert_eq!(s.health, 0);
}

#[test]
fn unit_dies_at_zero_health_and_stays_dead() {
    let mut u = Unit::default();
    assert_eq!(u.name, "Default Unit");
    assert_eq!(u.unit_type, UnitType::Melee);
    assert_eq!(u.state, UnitState::Idle);
    u.update_state(100, Some(UnitState::Moving));
    assert_eq!(u.state, UnitState::Moving);
    let mut s = Statsheet::default();
    s.apply_damage(s.health);
    u.update_state(s.health, Some(UnitState::Attacking));
    assert_eq!(u.state, UnitState::Dead);
    s.initialize();
    for order in [Some(UnitState::Idle), Some(UnitState::Moving), None, Some(UnitState::Casting)] {
        u.update_state(s.health, order);
        assert_eq!(u.state, UnitState::Dead);
    }
}

#[test]
fn dead_target_is_forgotten() {
    let mut u = Unit::default();
    u.target = Some(EntityId(4));
    u.forget_dead_target(EntityId(5));
    assert_eq!(u.target, Some(EntityId(4)));
    u.forget_dead_target(EntityId(4));
    assert_eq!(u.target, None);
}

#[test]
fn generated_terrain_features() {
    assert_eq!(generate_terrain(0, 30, 64, 64), TerrainType::Water);
    assert_eq!(generate_terrain(30, 3, 64, 64), TerrainType::Water);
    assert_eq!(generate_terrain(60, 30, 64, 64), TerrainType::Water);
    assert_eq!(generate_terrain(30, 60, 64, 64), TerrainType::Water);
    assert_eq!(generate_terrain(21, 21, 64, 64), TerrainType::Mountain);
    assert_eq!(generate_terrain(23, 21, 64, 64), TerrainType::Mountain);
    assert_eq!(generate_terrain(25, 21, 64, 64), TerrainType::Grass);
    assert_eq!(generate_terrain(7, 7, 64, 64), TerrainType::Forest);
    assert_eq!(generate_terrain(5, 6, 64, 64), TerrainType::Grass);
}

#[test]
fn load_map_builds_every_cell() {
    let mut loaded = LoadedMap::default();
    assert!(!loaded.loaded);
    let layout = load_map("arena", 64, 64, 1000, &mut loaded);
    assert_eq!(loaded.name, "arena");
    assert!(loaded.loaded);
    assert_eq!(layout.event.map_name, "arena");
    assert_eq!((layout.event.width, layout.event.height), (64, 64));
    assert_eq!(layout.cells.len(), 64 * 64);
    assert_eq!(layout.cells[0], (c(0, 0), GridCell::for_terrain(TerrainType::Water)));
    assert_eq!(layout.cells[21 * 64 + 21], (c(21, 21), GridCell::for_terrain(TerrainType::Mountain)));
    assert_eq!(layout.cells[5 * 64 + 6], (c(5, 6), GridCell::for_terrain(TerrainType::Grass)));
    assert_eq!(layout.grid.get_cell(c(5, 6)), None);
    let mut grid = layout.grid;
    registered(&layout.cells, &mut grid);
    assert_eq!(grid.get_cell(c(7, 7)).unwrap().terrain, TerrainType::Forest);
    assert_eq!(grid.get_cell_entity(c(0, 1)), Some(EntityId(1)));
}

#[test]
fn default_map_is_open_grass() {
    let mut loaded = LoadedMap::default();
    let layout = initialize_default_map(&mut loaded);
    assert_eq!(loaded.name, "default");
    assert!(loaded.loaded);
    assert_eq!((layout.grid.width, layout.grid.height, layout.grid.cell_size), (32, 32, 1000));
    assert_eq!(layout.cells.len(), 32 * 32);
    assert!(layout.cells.iter().all(|(_, cell)| *cell == GridCell::default()));
    assert_eq!(layout.cells[33].0, c(1, 1));
}

#[test]
fn load_commands_are_applied_in_order() {
    let mut loaded = LoadedMap::default();
    let commands = vec![
        LoadMapCommand { map_name: "first".to_string() },
        LoadMapCommand { map_name: "second".to_string() },
    ];
    let layouts = handle_load_map_commands(&commands, &mut loaded);
    assert_eq!(layouts.len(), 2);
    assert_eq!(layouts[0].event.map_name, "first");
    assert_eq!(layouts[1].grid.width, 64);
    assert_eq!(loaded.name, "second");
    let none = handle_load_map_commands(&Vec::new(), &mut loaded);
    assert!(none.is_empty());
    assert_eq!(loaded.name, "second");
}

#[test]
fn every_request_gets_one_result() {
    let mut loaded = LoadedMap::default();
    let layout = initialize_default_map(&mut loaded);
    let mut grid = layout.grid;
    registered(&layout.cells, &mut grid);
    let requests = vec![
        PathfindingRequestEvent { entity: EntityId(1), from: c(2, 2), to: c(2, 2), timestamp: 5 },
        PathfindingRequestEvent { entity: EntityId(2), from: c(-1, 0), to: c(3, 3), timestamp: 5 },
        PathfindingRequestEvent { entity: EntityId(3), from: c(0, 0), to: c(40, 0), timestamp: 5 },
        PathfindingRequestEvent { entity: EntityId(4), from: c(0, 0), to: c(3, 0), timestamp: 5 },
    ];
    let results = handle_pathfinding_requests(&grid, &requests, 99);
    assert_eq!(results.len(), 4);
    assert_eq!(results[0].entity, EntityId(1));
    assert!(results[0].success);
    assert_eq!(results[0].path, vec![c(2, 2)]);
    for r in &results[1..3] {
        assert!(!r.success);
        assert!(r.path.is_empty());
    }
    assert_eq!(results[2].entity, EntityId(3));
    assert_eq!(results[3].path, vec![c(0, 0), c(1, 0), c(2, 0), c(3, 0)]);
    assert!(results.iter().all(|r| r.timestamp == 99));
}

#[test]
fn test_unit_spawns_at_cell_centre() {
    let grid = MapGrid::new(32, 32, 1000);
    let spawned = spawn_test_unit(&grid, c(10, 10));
    assert_eq!(spawned.unit.name, "Test Warrior");
    assert_eq!(spawned.unit.unit_type, UnitType::Melee);
    assert_eq!(spawned.unit.state, UnitState::Idle);
    assert_eq!(spawned.unit.target, None);
    assert_eq!(spawned.position, WorldPos { x: 10_500, y: 400, z: 10_500 });
    assert_eq!(spawned.stats.max_health, 500_000);
    assert_eq!(spawned.stats.health, 500_000);
    assert_eq!(spawned.stats.armor, 2_250);
    assert_eq!(spawned.ownership.faction, FactionId::Player(1));
    assert_eq!(spawned.ownership.team, TeamId::Team(1));
    assert_eq!(spawned.ownership.controller_type, ControllerType::Human);
}

#[test]
fn example_units_spawn_once() {
    let grid = MapGrid::new(32, 32, 1000);
    let scene = spawn_example_units(false, &grid);
    assert_eq!(scene.units.len(), 3);
    assert_eq!(scene.units[1].position, WorldPos { x: 12_500, y: 400, z: 10_500 });
    assert_eq!(scene.units[2].position, WorldPos { x: 10_500, y: 400, z: 12_500 });
    assert_eq!(scene.target_marker, Some(WorldPos { x: 15_500, y: 200, z: 15_500 }));
    let again = spawn_example_units(true, &grid);
    assert!(again.units.is_empty());
    assert_eq!(again.target_marker, None);
}

#[test]
fn event_channel_keeps_order_until_cleared() {
    let mut ch: EventChannel<u32> = EventChannel::new();
    ch.send(3);
    ch.send(1);
    ch.send(2);
    assert_eq!(ch.read(), &vec![3, 1, 2]);
    assert_eq!(ch.len(), 3);
    ch.clear();
    assert_eq!(ch.len(), 0);
}
