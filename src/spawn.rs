use vstd::prelude::*;
use crate::faction::{ControllerType, FactionId, Ownership, TeamId};
use crate::grid::{GridCoord, MapGrid, WorldPos};
use crate::stats::Statsheet;
use crate::unit::{Unit, UnitState, UnitType};

verus! {

/// Height at which a test unit stands, in thousandths of a world unit.
pub const TEST_UNIT_ELEVATION: i64 = 400;
/// Height of the example target marker, in thousandths of a world unit.
pub const TARGET_MARKER_ELEVATION: i64 = 200;

/// Everything a new unit is made of, and where it stands.
pub struct SpawnedUnit {
    pub unit: Unit,
    pub stats: Statsheet,
    pub ownership: Ownership,
    pub position: WorldPos,
}

/// The stats of a test warrior: the baseline with strength 20, agility 15 and
/// intelligence 10, derived and at full health and mana.
pub open spec fn spec_test_stats() -> Statsheet {
    let base = Statsheet::spec_baseline().with_derived().spec_initialized();
    Statsheet { strength: 20, agility: 15, intelligence: 10, ..base }.with_derived().spec_initialized()
}

impl SpawnedUnit {
    /// This is a test warrior of player 1 standing on cell `c` of `grid`.
    pub open spec fn is_test_unit(self, grid: MapGrid, c: GridCoord) -> bool {
        &&& self.unit.name@ == "Test Warrior"@
        &&& self.unit.unit_type == UnitType::Melee
        &&& self.unit.state == UnitState::Idle
        &&& self.unit.target is None
        &&& self.stats == spec_test_stats()
        &&& self.ownership == (Ownership {
            faction: FactionId::Player(1),
            team: TeamId::Team(1),
            controller_type: ControllerType::Human,
        })
        &&& self.position == grid.spec_grid_to_world(c, TEST_UNIT_ELEVATION)
    }
}

/// A melee test warrior of player 1 (team 1, human), standing slightly above
/// the centre of cell `c`.
pub fn spawn_test_unit(grid: &MapGrid, c: GridCoord) -> (r: SpawnedUnit)
    requires
        grid.wf(),
        grid.center_fits(c),
    ensures
        r.is_test_unit(*grid, c),
{
    let mut stats = Statsheet::default();
    stats.strength = 20;
    stats.agility = 15;
    stats.intelligence = 10;
    stats.calculate_derived_stats();
    stats.initialize();
    let ownership = Ownership {
        faction: FactionId::Player(1),
        team: TeamId::Team(1),
        controller_type: ControllerType::Human,
    };
    let unit = Unit {
        name: "Test Warrior".to_string(),
        unit_type: UnitType::Melee,
        state: UnitState::Idle,
        target: None,
    };
    let position = grid.grid_to_world(c, TEST_UNIT_ELEVATION);
    SpawnedUnit { unit, stats, ownership, position }
}

/// The example scene: three test warriors and a target marker.
pub struct ExampleSpawn {
    pub units: Vec<SpawnedUnit>,
    pub target_marker: Option<WorldPos>,
}

pub open spec fn example_cell(i: int) -> GridCoord {
    if i == 0 {
        GridCoord { x: 10, y: 10 }
    } else if i == 1 {
        GridCoord { x: 12, y: 10 }
    } else {
        GridCoord { x: 10, y: 12 }
    }
}

pub open spec fn target_cell() -> GridCoord {
    GridCoord { x: 15, y: 15 }
}

/// Test warriors on cells (10, 10), (12, 10) and (10, 12), and a target marker
/// above cell (15, 15); nothing when units are already present.
pub fn spawn_example_units(units_present: bool, grid: &MapGrid) -> (r: ExampleSpawn)
    requires
        grid.wf(),
        grid.center_fits(example_cell(0)),
        grid.center_fits(example_cell(1)),
        grid.center_fits(example_cell(2)),
        grid.center_fits(target_cell()),
    ensures
        units_present ==> r.units@.len() == 0 && r.target_marker is None,
        !units_present ==> {
            &&& r.units@.len() == 3
            &&& forall|i: int| 0 <= i < 3 ==> #[trigger] r.units@[i].is_test_unit(*grid, example_cell(i))
            &&& r.target_marker == Some(grid.spec_grid_to_world(target_cell(), TARGET_MARKER_ELEVATION))
        },
{
    let mut units: Vec<SpawnedUnit> = Vec::new();
    if units_present {
        return ExampleSpawn { units, target_marker: None };
    }
    units.push(spawn_test_unit(grid, GridCoord { x: 10, y: 10 }));
    units.push(spawn_test_unit(grid, GridCoord { x: 12, y: 10 }));
    units.push(spawn_test_unit(grid, GridCoord { x: 10, y: 12 }));
    let marker = grid.grid_to_world(GridCoord { x: 15, y: 15 }, TARGET_MARKER_ELEVATION);
    proof {
        assert(units@[0].is_test_unit(*grid, example_cell(0)));
        assert(units@[1].is_test_unit(*grid, example_cell(1)));
        assert(units@[2].is_test_unit(*grid, example_cell(2)));
    }
    ExampleSpawn { units, target_marker: Some(marker) }
}

} // verus!
