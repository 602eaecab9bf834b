//! Simulation core of a grid-based real-time-strategy map: grid coordinates,
//! terrain cells, factions, unit stats and states, typed event channels, map
//! loading and pathfinding.
//!
//! World-space quantities (positions, cell size, elevation) and every stat but
//! the primary attributes are fixed-point integers counted in thousandths, so
//! that every rule is exact integer arithmetic.

mod events;
mod faction;
mod grid;
mod map;
mod pathfinding;
mod spawn;
mod stats;
mod unit;

pub use events::{
    BuildingPlacedEvent, EventChannel, LoadMapCommand, MapLoadedEvent, PathfindingRequestEvent,
    PathfindingResultEvent, TerrainModifiedEvent, TerrainRevealedEvent, UnitMoveEvent,
};
pub use faction::{are_allied, ControllerType, FactionId, Ownership, TeamId};
pub use grid::{
    lemma_grid_world_inverse, lemma_round_trip_any_position, lemma_world_grid_round_trip, EntityId, GridCell, GridCoord, MapGrid,
    TerrainType, WorldPos, MOUNTAIN_ELEVATION,
};
pub use map::{
    answer_request, generate_terrain, lemma_off_map_request_fails, handle_load_map_commands, handle_pathfinding_requests,
    handle_terrain_modification, initialize_default_map, load_map, register_grid_cells, LoadedMap,
    MapLayout, DEFAULT_MAP_SIZE, LOADED_MAP_SIZE, MAP_CELL_SIZE,
};
pub use pathfinding::find_path;
pub use spawn::{
    spawn_example_units, spawn_test_unit, ExampleSpawn, SpawnedUnit, TARGET_MARKER_ELEVATION,
    TEST_UNIT_ELEVATION,
};
pub use stats::{lemma_derived_stats_idempotent, Statsheet};
pub use unit::{
    lemma_dead_is_absorbing, lemma_death_is_final, ArmorType, AttackType, Unit, UnitState, UnitType,
};
