use vstd::prelude::*;
use crate::events::{LoadMapCommand, MapLoadedEvent, PathfindingRequestEvent, PathfindingResultEvent, TerrainModifiedEvent};
use crate::grid::{EntityId, GridCell, GridCoord, MapGrid, TerrainType};
use crate::pathfinding::{best_steps, find_path, is_path, passable, path_exists};

verus! {

/// Width and height, in cells, of a map loaded by name.
pub const LOADED_MAP_SIZE: i32 = 64;
/// Width and height, in cells, of the map present at start-up.
pub const DEFAULT_MAP_SIZE: i32 = 32;
/// Cell size of every map, in thousandths of a world unit.
pub const MAP_CELL_SIZE: i64 = 1000;

/// Which map is loaded.
#[derive(Clone, Debug)]
pub struct LoadedMap {
    pub name: String,
    pub loaded: bool,
}

impl Default for LoadedMap {
    /// No map loaded yet.
    fn default() -> (r: LoadedMap)
        ensures
            r.name@ == Seq::<char>::empty(),
            !r.loaded,
    {
        LoadedMap { name: String::new(), loaded: false }
    }
}

/// A freshly built map: the empty grid descriptor, every cell to create (in
/// column order: `x` outer, `y` inner), and the notification to send.
pub struct MapLayout {
    pub grid: MapGrid,
    pub cells: Vec<(GridCoord, GridCell)>,
    pub event: MapLoadedEvent,
}

/// Terrain of the generated map: water on a four-cell border, a mountain disc
/// of radius sqrt(10) around (width / 3, height / 3), forest where `x + y` is a
/// multiple of 7, grass elsewhere. The disc test (x - w/3)^2 + (y - h/3)^2 < 10
/// is written over integers, multiplied through by 9.
pub open spec fn spec_generated_terrain(x: int, y: int, w: int, h: int) -> TerrainType {
    if x <= 3 || y <= 3 || x >= w - 4 || y >= h - 4 {
        TerrainType::Water
    } else if (3 * x - w) * (3 * x - w) + (3 * y - h) * (3 * y - h) < 90 {
        TerrainType::Mountain
    } else if (x + y) % 7 == 0 {
        TerrainType::Forest
    } else {
        TerrainType::Grass
    }
}

/// Terrain of a cell of a new map: generated, or all grass.
pub open spec fn spec_layout_terrain(generated: bool, x: int, y: int, w: int, h: int) -> TerrainType {
    if generated { spec_generated_terrain(x, y, w, h) } else { TerrainType::Grass }
}

/// The `i`-th cell of a new map whose columns are `h` cells high.
pub open spec fn spec_layout_entry(generated: bool, i: int, w: int, h: int) -> (GridCoord, GridCell) {
    let x = i / h;
    let y = i % h;
    (
        GridCoord { x: x as i32, y: y as i32 },
        GridCell::spec_for_terrain(spec_layout_terrain(generated, x, y, w, h)),
    )
}

impl MapLayout {
    /// This layout is the map `name` of the given size.
    pub open spec fn is_layout(self, generated: bool, name: Seq<char>, w: int, h: int, cell_size: int) -> bool {
        &&& self.grid.wf()
        &&& self.grid.width == w
        &&& self.grid.height == h
        &&& self.grid.cell_size == cell_size
        &&& forall|c: GridCoord| #[trigger] self.grid.slot(c) is None
        &&& self.cells@.len() == w * h
        &&& forall|i: int| 0 <= i < w * h ==> #[trigger] self.cells@[i] == spec_layout_entry(generated, i, w, h)
        &&& self.event.map_name@ == name
        &&& self.event.width == w
        &&& self.event.height == h
    }
}

/// Terrain of cell (x, y) of a generated `w` by `h` map.
pub fn generate_terrain(x: i32, y: i32, w: i32, h: i32) -> (r: TerrainType)
    requires
        0 <= x < w,
        0 <= y < h,
    ensures
        r == spec_generated_terrain(x as int, y as int, w as int, h as int),
{
    if x <= 3 || y <= 3 || x >= w - 4 || y >= h - 4 {
        return TerrainType::Water;
    }
    let dx: i128 = 3 * (x as i128) - (w as i128);
    let dy: i128 = 3 * (y as i128) - (h as i128);
    assert(-0x1_0000_0000 <= dx <= 0x2_0000_0000);
    assert(-0x1_0000_0000 <= dy <= 0x2_0000_0000);
    assert(0 <= dx * dx <= 0x4_0000_0000_0000_0000) by (nonlinear_arith)
        requires -0x1_0000_0000 <= dx <= 0x2_0000_0000;
    assert(0 <= dy * dy <= 0x4_0000_0000_0000_0000) by (nonlinear_arith)
        requires -0x1_0000_0000 <= dy <= 0x2_0000_0000;
    if dx * dx + dy * dy < 90 {
        TerrainType::Mountain
    } else if ((x as i64) + (y as i64)) % 7 == 0 {
        TerrainType::Forest
    } else {
        TerrainType::Grass
    }
}

/// Every cell of a `w` by `h` map, column by column.
fn layout_cells(generated: bool, w: i32, h: i32) -> (r: Vec<(GridCoord, GridCell)>)
    requires
        w >= 0,
        h >= 0,
        w * h <= usize::MAX,
    ensures
        r@.len() == w * h,
        forall|i: int| 0 <= i < w * h ==> #[trigger] r@[i] == spec_layout_entry(generated, i, w as int, h as int),
{
    let mut cells: Vec<(GridCoord, GridCell)> = Vec::new();
    let mut x: i32 = 0;
    while x < w
        invariant
            0 <= x <= w,
            h >= 0,
            w * h <= usize::MAX,
            cells@.len() == x * h,
            forall|i: int| 0 <= i < cells@.len() ==> #[trigger] cells@[i] == spec_layout_entry(generated, i, w as int, h as int),
        decreases w - x,
    {
        let mut y: i32 = 0;
        while y < h
            invariant
                0 <= x < w,
                h >= 0,
                0 <= y <= h,
                cells@.len() == x * h + y,
                forall|i: int| 0 <= i < cells@.len() ==> #[trigger] cells@[i] == spec_layout_entry(generated, i, w as int, h as int),
            decreases h - y,
        {
            let terrain = if generated { generate_terrain(x, y, w, h) } else { TerrainType::Grass };
            proof {
                vstd::arithmetic::div_mod::lemma_fundamental_div_mod_converse(x * h + y, h as int, x as int, y as int);
            }
            cells.push((GridCoord { x, y }, GridCell::for_terrain(terrain)));
            y += 1;
        }
        proof {
            assert(x * h + h == (x + 1) * h) by (nonlinear_arith);
            assert((x + 1) * h <= w * h) by (nonlinear_arith)
                requires x < w, h >= 0;
        }
        x += 1;
    }
    cells
}

fn build_layout(generated: bool, map_name: &str, w: i32, h: i32, cell_size: i64) -> (r: MapLayout)
    requires
        w >= 0,
        h >= 0,
        cell_size > 0,
        w * h <= usize::MAX,
    ensures
        r.is_layout(generated, map_name@, w as int, h as int, cell_size as int),
{
    let grid = MapGrid::new(w, h, cell_size);
    let cells = layout_cells(generated, w, h);
    let event = MapLoadedEvent { map_name: map_name.to_string(), width: w, height: h };
    MapLayout { grid, cells, event }
}

/// Builds the generated map `map_name` of `w` by `h` cells (see
/// `spec_generated_terrain`) and records it as the loaded map.
pub fn load_map(map_name: &str, w: i32, h: i32, cell_size: i64, loaded_map: &mut LoadedMap) -> (r: MapLayout)
    requires
        w >= 0,
        h >= 0,
        cell_size > 0,
        w * h <= usize::MAX,
    ensures
        r.is_layout(true, map_name@, w as int, h as int, cell_size as int),
        final(loaded_map).name@ == map_name@,
        final(loaded_map).loaded,
{
    let layout = build_layout(true, map_name, w, h, cell_size);
    loaded_map.name = map_name.to_string();
    loaded_map.loaded = true;
    layout
}

/// The start-up map: "default", 32 by 32 cells of grass.
pub fn initialize_default_map(loaded_map: &mut LoadedMap) -> (r: MapLayout)
    ensures
        r.is_layout(false, "default"@, DEFAULT_MAP_SIZE as int, DEFAULT_MAP_SIZE as int, MAP_CELL_SIZE as int),
        final(loaded_map).name@ == "default"@,
        final(loaded_map).loaded,
{
    let layout = build_layout(false, "default", DEFAULT_MAP_SIZE, DEFAULT_MAP_SIZE, MAP_CELL_SIZE);
    loaded_map.name = "default".to_string();
    loaded_map.loaded = true;
    layout
}

/// Loads the map of each command in turn (64 by 64 cells); the last one stays loaded.
pub fn handle_load_map_commands(commands: &Vec<LoadMapCommand>, loaded_map: &mut LoadedMap) -> (r: Vec<MapLayout>)
    ensures
        r@.len() == commands@.len(),
        forall|i: int| 0 <= i < commands@.len() ==> #[trigger] r@[i].is_layout(
            true,
            commands@[i].map_name@,
            LOADED_MAP_SIZE as int,
            LOADED_MAP_SIZE as int,
            MAP_CELL_SIZE as int,
        ),
        commands@.len() > 0 ==> final(loaded_map).name@ == commands@.last().map_name@ && final(loaded_map).loaded,
        commands@.len() == 0 ==> final(loaded_map).name@ == old(loaded_map).name@
            && final(loaded_map).loaded == old(loaded_map).loaded,
{
    let mut layouts: Vec<MapLayout> = Vec::new();
    let mut i: usize = 0;
    while i < commands.len()
        invariant
            i <= commands@.len(),
            layouts@.len() == i,
            forall|j: int| 0 <= j < i ==> #[trigger] layouts@[j].is_layout(
                true,
                commands@[j].map_name@,
                LOADED_MAP_SIZE as int,
                LOADED_MAP_SIZE as int,
                MAP_CELL_SIZE as int,
            ),
            i > 0 ==> loaded_map.name@ == commands@[i - 1].map_name@ && loaded_map.loaded,
            i == 0 ==> loaded_map.name@ == old(loaded_map).name@ && loaded_map.loaded == old(loaded_map).loaded,
        decreases commands@.len() - i,
    {
        let layout = load_map(commands[i].map_name.as_str(), LOADED_MAP_SIZE, LOADED_MAP_SIZE, MAP_CELL_SIZE, loaded_map);
        layouts.push(layout);
        i += 1;
    }
    layouts
}

/// The slot at `d` after registering each of `regs` (entity, coordinate, cell) in turn.
pub open spec fn slot_after_registrations(
    g: MapGrid,
    regs: Seq<(EntityId, GridCoord, GridCell)>,
    d: GridCoord,
) -> Option<(EntityId, GridCell)>
    decreases regs.len(),
{
    if regs.len() == 0 {
        g.slot(d)
    } else {
        let r = regs.last();
        if r.1 == d && g.spec_in_bounds(d) {
            Some((r.0, r.2))
        } else {
            slot_after_registrations(g, regs.drop_last(), d)
        }
    }
}

/// Registers each created cell with the grid, in order.
pub fn register_grid_cells(grid: &mut MapGrid, cells: &Vec<(EntityId, GridCoord, GridCell)>)
    requires
        old(grid).wf(),
    ensures
        final(grid).wf(),
        final(grid).width == old(grid).width,
        final(grid).height == old(grid).height,
        final(grid).cell_size == old(grid).cell_size,
        forall|d: GridCoord| #[trigger] final(grid).slot(d) == slot_after_registrations(*old(grid), cells@, d),
{
    let ghost g0 = *grid;
    let mut i: usize = 0;
    while i < cells.len()
        invariant
            i <= cells@.len(),
            grid.wf(),
            grid.width == g0.width,
            grid.height == g0.height,
            grid.cell_size == g0.cell_size,
            forall|d: GridCoord| #[trigger] grid.slot(d) == slot_after_registrations(g0, cells@.take(i as int), d),
        decreases cells@.len() - i,
    {
        let (e, c, cell) = cells[i];
        grid.register_cell(c, e, cell);
        proof {
            assert(cells@.take(i + 1).drop_last() =~= cells@.take(i as int));
        }
        i += 1;
    }
    proof {
        assert(cells@.take(cells@.len() as int) =~= cells@);
    }
}

/// The slot at `d` after applying each of `events` in turn.
pub open spec fn slot_after_modifications(
    g: MapGrid,
    events: Seq<TerrainModifiedEvent>,
    d: GridCoord,
) -> Option<(EntityId, GridCell)>
    decreases events.len(),
{
    if events.len() == 0 {
        g.slot(d)
    } else {
        let e = events.last();
        match slot_after_modifications(g, events.drop_last(), d) {
            Some(s) => if e.coord == d {
                Some((s.0, GridCell::spec_for_terrain(e.new_terrain)))
            } else {
                Some(s)
            },
            None => None,
        }
    }
}

/// Applies terrain modifications in order. A modification of a coordinate
/// where no cell is registered changes nothing.
pub fn handle_terrain_modification(grid: &mut MapGrid, events: &Vec<TerrainModifiedEvent>)
    requires
        old(grid).wf(),
    ensures
        final(grid).wf(),
        final(grid).width == old(grid).width,
        final(grid).height == old(grid).height,
        final(grid).cell_size == old(grid).cell_size,
        forall|d: GridCoord| #[trigger] final(grid).slot(d) == slot_after_modifications(*old(grid), events@, d),
{
    let ghost g0 = *grid;
    let mut i: usize = 0;
    while i < events.len()
        invariant
            i <= events@.len(),
            grid.wf(),
            grid.width == g0.width,
            grid.height == g0.height,
            grid.cell_size == g0.cell_size,
            forall|d: GridCoord| #[trigger] grid.slot(d) == slot_after_modifications(g0, events@.take(i as int), d),
        decreases events@.len() - i,
    {
        let e = events[i];
        grid.modify_terrain(e.coord, e.new_terrain);
        proof {
            assert(events@.take(i + 1).drop_last() =~= events@.take(i as int));
        }
        i += 1;
    }
    proof {
        assert(events@.take(events@.len() as int) =~= events@);
    }
}

/// `res` is a correct answer to `req`, stamped `now`.
pub open spec fn answers(grid: MapGrid, req: PathfindingRequestEvent, res: PathfindingResultEvent, now: u64) -> bool {
    &&& res.entity == req.entity
    &&& res.timestamp == now
    &&& res.success == (res.path@.len() > 0)
    &&& res.success <==> grid.spec_in_bounds(req.from) && grid.spec_in_bounds(req.to) && path_exists(grid, req.from, req.to)
    &&& res.success ==> is_path(grid, req.from, req.to, res.path@)
    &&& res.success ==> forall|q: Seq<GridCoord>| #[trigger] is_path(grid, req.from, req.to, q) ==> res.path@.len() <= q.len()
    &&& res.success ==> best_steps(grid, req.to, res.path@, res.path@.len() as int)
    &&& req.from == req.to && passable(grid, req.from) ==> res.path@ == seq![req.from]
}

/// A request with an end off the map is answered with failure and an empty path.
pub proof fn lemma_off_map_request_fails(
    grid: MapGrid,
    req: PathfindingRequestEvent,
    res: PathfindingResultEvent,
    now: u64,
)
    requires
        answers(grid, req, res, now),
        !grid.spec_in_bounds(req.from) || !grid.spec_in_bounds(req.to),
    ensures
        !res.success,
        res.path@.len() == 0,
{
}

/// Answers one path request: a shortest path of walkable cells (ties broken as
/// `find_path` does), or failure with an empty path when an end is off the
/// map or no such path exists.
pub fn answer_request(grid: &MapGrid, req: &PathfindingRequestEvent, now: u64) -> (r: PathfindingResultEvent)
    requires
        grid.wf(),
    ensures
        answers(*grid, *req, r, now),
{
    match find_path(grid, req.from, req.to) {
        Some(path) => PathfindingResultEvent { entity: req.entity, path, success: true, timestamp: now },
        None => PathfindingResultEvent { entity: req.entity, path: Vec::new(), success: false, timestamp: now },
    }
}

/// Answers every request, in order: exactly one result per request.
pub fn handle_pathfinding_requests(
    grid: &MapGrid,
    requests: &Vec<PathfindingRequestEvent>,
    now: u64,
) -> (r: Vec<PathfindingResultEvent>)
    requires
        grid.wf(),
    ensures
        r@.len() == requests@.len(),
        forall|i: int| 0 <= i < requests@.len() ==> answers(*grid, requests@[i], #[trigger] r@[i], now),
{
    let mut results: Vec<PathfindingResultEvent> = Vec::new();
    let mut i: usize = 0;
    while i < requests.len()
        invariant
            grid.wf(),
            i <= requests@.len(),
            results@.len() == i,
            forall|j: int| 0 <= j < i ==> answers(*grid, requests@[j], #[trigger] results@[j], now),
        decreases requests@.len() - i,
    {
        let res = answer_request(grid, &requests[i], now);
        results.push(res);
        i += 1;
    }
    results
}

} // verus!
