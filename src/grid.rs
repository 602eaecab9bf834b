use vstd::prelude::*;

verus! {

/// Opaque identifier of a simulated entity (the presentation layer's handle).
#[derive(Clone, Copy, Debug, PartialEq, Eq, Hash, Structural)]
pub struct EntityId(pub u64);

/// Discrete cell coordinate on the map.
#[derive(Clone, Copy, Debug, PartialEq, Eq, Hash, Structural)]
pub struct GridCoord {
    pub x: i32,
    pub y: i32,
}

/// Continuous world position, in thousandths of a world unit.
/// `x` and `z` span the ground plane; `y` points up.
#[derive(Clone, Copy, Debug, PartialEq, Eq, Hash, Structural)]
pub struct WorldPos {
    pub x: i64,
    pub y: i64,
    pub z: i64,
}

/// Terrain classification of a single cell.
#[derive(Clone, Copy, Debug, PartialEq, Eq, Hash, Structural)]
pub enum TerrainType {
    Grass,
    Dirt,
    Stone,
    Water,
    Forest,
    Mountain,
}

/// Elevation of a mountain cell, in thousandths of a world unit.
pub const MOUNTAIN_ELEVATION: i64 = 2000;

/// Terrain record of one cell. `elevation` is in thousandths of a world unit.
#[derive(Clone, Copy, Debug, PartialEq, Eq, Structural)]
pub struct GridCell {
    pub terrain: TerrainType,
    pub walkable: bool,
    pub buildable: bool,
    pub elevation: i64,
}

/// Whether units may walk on a terrain kind.
pub open spec fn terrain_walkable(t: TerrainType) -> bool {
    !(t is Water || t is Mountain)
}

/// Whether buildings may be placed on a terrain kind.
pub open spec fn terrain_buildable(t: TerrainType) -> bool {
    !(t is Water || t is Mountain || t is Forest)
}

/// The elevation that a terrain kind imposes.
pub open spec fn terrain_elevation(t: TerrainType) -> int {
    if t is Mountain { MOUNTAIN_ELEVATION as int } else { 0 }
}

impl GridCell {
    /// A cell whose flags and elevation agree with its terrain kind.
    pub open spec fn spec_for_terrain(t: TerrainType) -> GridCell {
        GridCell {
            terrain: t,
            walkable: terrain_walkable(t),
            buildable: terrain_buildable(t),
            elevation: terrain_elevation(t) as i64,
        }
    }

    /// Builds the cell of the given terrain kind, with every flag derived from it.
    pub fn for_terrain(t: TerrainType) -> (r: GridCell)
        ensures
            r == GridCell::spec_for_terrain(t),
    {
        match t {
            TerrainType::Water => GridCell { terrain: t, walkable: false, buildable: false, elevation: 0 },
            TerrainType::Mountain => GridCell {
                terrain: t,
                walkable: false,
                buildable: false,
                elevation: MOUNTAIN_ELEVATION,
            },
            TerrainType::Forest => GridCell { terrain: t, walkable: true, buildable: false, elevation: 0 },
            _ => GridCell { terrain: t, walkable: true, buildable: true, elevation: 0 },
        }
    }
}

impl Default for GridCell {
    /// An open grass cell.
    fn default() -> (r: GridCell)
        ensures
            r == GridCell::spec_for_terrain(TerrainType::Grass),
    {
        GridCell::for_terrain(TerrainType::Grass)
    }
}

/// Floor of `a / d` for a positive divisor.
pub open spec fn floor_div(a: int, d: int) -> int {
    a / d
}

/// Map grid: dimensions, cell size, and the cell registered at each coordinate.
///
/// Cells are held in a dense table indexed by `y * width + x`. A slot is empty
/// until a cell is registered there; coordinates outside the map have no slot.
/// The table is public for inspection; the methods keep it consistent (`wf`).
pub struct MapGrid {
    pub width: i32,
    pub height: i32,
    /// World units per cell, in thousandths.
    pub cell_size: i64,
    pub cells: Vec<Option<(EntityId, GridCell)>>,
}

impl MapGrid {
    pub open spec fn slots(self) -> Seq<Option<(EntityId, GridCell)>> {
        self.cells@
    }

    /// The table covers exactly the map's cells and the cell size is positive.
    pub open spec fn wf(self) -> bool {
        &&& self.width >= 0
        &&& self.height >= 0
        &&& self.cell_size > 0
        &&& self.slots().len() == self.width * self.height
    }

    pub open spec fn spec_in_bounds(self, c: GridCoord) -> bool {
        0 <= c.x < self.width && 0 <= c.y < self.height
    }

    pub open spec fn index_of(self, c: GridCoord) -> int {
        c.y * self.width + c.x
    }

    /// What is registered at `c`: nothing outside the map.
    pub open spec fn slot(self, c: GridCoord) -> Option<(EntityId, GridCell)> {
        if self.spec_in_bounds(c) {
            self.slots()[self.index_of(c)]
        } else {
            None
        }
    }

    pub open spec fn spec_world_to_grid(self, p: WorldPos) -> GridCoord {
        GridCoord {
            x: floor_div(p.x as int, self.cell_size as int) as i32,
            y: floor_div(p.z as int, self.cell_size as int) as i32,
        }
    }

    /// Whether `world_to_grid` can represent the cell holding `p`.
    pub open spec fn world_fits(self, p: WorldPos) -> bool {
        &&& i32::MIN <= floor_div(p.x as int, self.cell_size as int) <= i32::MAX
        &&& i32::MIN <= floor_div(p.z as int, self.cell_size as int) <= i32::MAX
    }

    /// World coordinate of the centre of the cell at index `i` along one axis.
    pub open spec fn center_of(self, i: int) -> int {
        i * self.cell_size + self.cell_size / 2
    }

    /// Whether `grid_to_world` can represent the centre of `c`.
    pub open spec fn center_fits(self, c: GridCoord) -> bool {
        &&& i64::MIN <= c.x * self.cell_size
        &&& i64::MIN <= c.y * self.cell_size
        &&& self.center_of(c.x as int) <= i64::MAX
        &&& self.center_of(c.y as int) <= i64::MAX
    }

    pub open spec fn spec_grid_to_world(self, c: GridCoord, elevation: i64) -> WorldPos {
        WorldPos {
            x: self.center_of(c.x as int) as i64,
            y: elevation,
            z: self.center_of(c.y as int) as i64,
        }
    }

    /// Creates an empty grid descriptor: no cell is registered yet.
    pub fn new(width: i32, height: i32, cell_size: i64) -> (r: MapGrid)
        requires
            width >= 0,
            height >= 0,
            cell_size > 0,
            width * height <= usize::MAX,
        ensures
            r.wf(),
            r.width == width,
            r.height == height,
            r.cell_size == cell_size,
            forall|c: GridCoord| #[trigger] r.slot(c) is None,
    {
        let n: usize = (width as usize) * (height as usize);
        let mut cells: Vec<Option<(EntityId, GridCell)>> = Vec::new();
        let mut i: usize = 0;
        while i < n
            invariant
                i <= n,
                cells@.len() == i,
                forall|j: int| 0 <= j < i ==> #[trigger] cells@[j] is None,
            decreases n - i,
        {
            cells.push(None);
            i += 1;
        }
        let r = MapGrid { width, height, cell_size, cells };
        proof {
            assert forall|c: GridCoord| #[trigger] r.slot(c) is None by {
                if r.spec_in_bounds(c) {
                    lemma_index_in_range(width as int, height as int, c.x as int, c.y as int);
                }
            }
        }
        r
    }

    /// Whether `c` lies on the map.
    pub fn in_bounds(&self, c: GridCoord) -> (r: bool)
        ensures
            r == self.spec_in_bounds(c),
    {
        c.x >= 0 && c.x < self.width && c.y >= 0 && c.y < self.height
    }

    /// Table index of an on-map coordinate.
    pub(crate) fn index(&self, c: GridCoord) -> (r: usize)
        requires
            self.wf(),
            self.spec_in_bounds(c),
        ensures
            r == self.index_of(c),
            r < self.slots().len(),
    {
        proof {
            lemma_index_in_range(self.width as int, self.height as int, c.x as int, c.y as int);
        }
        // The table's length bounds the index, so the arithmetic fits in usize.
        let _cells_len = self.cells.len();
        let row = (c.y as usize) * (self.width as usize);
        row + (c.x as usize)
    }

    /// Binds an on-map coordinate to the entity that presents it and to its
    /// cell data, replacing any earlier binding. Off-map coordinates are ignored.
    pub fn register_cell(&mut self, c: GridCoord, entity: EntityId, cell: GridCell)
        requires
            old(self).wf(),
        ensures
            final(self).wf(),
            final(self).width == old(self).width,
            final(self).height == old(self).height,
            final(self).cell_size == old(self).cell_size,
            forall|d: GridCoord| #[trigger] final(self).slot(d) == if d == c && old(self).spec_in_bounds(c) {
                Some((entity, cell))
            } else {
                old(self).slot(d)
            },
    {
        if self.in_bounds(c) {
            let i = self.index(c);
            self.cells.set(i, Some((entity, cell)));
            proof {
                assert forall|d: GridCoord| #[trigger] self.slot(d) == if d == c {
                    Some((entity, cell))
                } else {
                    old(self).slot(d)
                } by {
                    if self.spec_in_bounds(d) && d != c {
                        lemma_index_in_range(self.width as int, self.height as int, d.x as int, d.y as int);
                        lemma_index_injective(self.width as int, self.height as int, c, d);
                        assert(self.slots()[self.index_of(d)] == old(self).slots()[self.index_of(d)]);
                    }
                }
            }
        }
    }

    /// Changes the terrain of the cell registered at `c` and re-derives its
    /// flags and elevation. Nothing happens where no cell is registered.
    pub fn modify_terrain(&mut self, c: GridCoord, terrain: TerrainType)
        requires
            old(self).wf(),
        ensures
            final(self).wf(),
            final(self).width == old(self).width,
            final(self).height == old(self).height,
            final(self).cell_size == old(self).cell_size,
            forall|d: GridCoord| #[trigger] final(self).slot(d) == old(self).slot_modified(c, terrain, d),
    {
        if self.in_bounds(c) {
            let i = self.index(c);
            match self.cells[i] {
                Some(s) => {
                    self.register_cell(c, s.0, GridCell::for_terrain(terrain));
                },
                None => {},
            }
        }
    }

    /// The slot at `d` after changing the terrain of the cell at `c`.
    pub open spec fn slot_modified(self, c: GridCoord, terrain: TerrainType, d: GridCoord) -> Option<(EntityId, GridCell)> {
        match self.slot(d) {
            Some(s) => if d == c {
                Some((s.0, GridCell::spec_for_terrain(terrain)))
            } else {
                Some(s)
            },
            None => None,
        }
    }

    /// The entity registered at `c`, if any.
    pub fn get_cell_entity(&self, c: GridCoord) -> (r: Option<EntityId>)
        requires
            self.wf(),
        ensures
            r == match self.slot(c) {
                Some(s) => Some(s.0),
                None => None::<EntityId>,
            },
    {
        if !self.in_bounds(c) {
            return None;
        }
        match self.cells[self.index(c)] {
            Some(s) => Some(s.0),
            None => None,
        }
    }

    /// The cell data registered at `c`, if any.
    pub fn get_cell(&self, c: GridCoord) -> (r: Option<GridCell>)
        requires
            self.wf(),
        ensures
            r == match self.slot(c) {
                Some(s) => Some(s.1),
                None => None::<GridCell>,
            },
    {
        if !self.in_bounds(c) {
            return None;
        }
        match self.cells[self.index(c)] {
            Some(s) => Some(s.1),
            None => None,
        }
    }

    /// The cell containing a world position: the ground-plane components divided
    /// by the cell size, rounded down. No clamping to the map.
    pub fn world_to_grid(&self, p: WorldPos) -> (r: GridCoord)
        requires
            self.wf(),
            self.world_fits(p),
        ensures
            r == self.spec_world_to_grid(p),
    {
        let x = p.x.checked_div_euclid(self.cell_size).unwrap();
        let z = p.z.checked_div_euclid(self.cell_size).unwrap();
        GridCoord { x: x as i32, y: z as i32 }
    }

    /// The world position of the centre of cell `c`, at the given height:
    /// `c * cell_size + cell_size / 2` on each ground axis. When `cell_size` (in
    /// thousandths) is odd, the half is rounded down, half a thousandth short of
    /// the exact centre; the position still lies inside cell `c`.
    pub fn grid_to_world(&self, c: GridCoord, elevation: i64) -> (r: WorldPos)
        requires
            self.wf(),
            self.center_fits(c),
        ensures
            r == self.spec_grid_to_world(c, elevation),
    {
        let half = self.cell_size / 2;
        let x = (c.x as i64) * self.cell_size + half;
        let z = (c.y as i64) * self.cell_size + half;
        WorldPos { x, y: elevation, z }
    }
}

/// The centre of a cell lies in that cell: for every coordinate `c`,
/// `world_to_grid(grid_to_world(c, e)) == c`.
pub proof fn lemma_grid_world_inverse(grid: MapGrid, c: GridCoord, e: i64)
    requires
        grid.wf(),
        grid.center_fits(c),
    ensures
        grid.world_fits(grid.spec_grid_to_world(c, e)),
        grid.spec_world_to_grid(grid.spec_grid_to_world(c, e)) == c,
{
    lemma_center_floor(c.x as int, grid.cell_size as int);
    lemma_center_floor(c.y as int, grid.cell_size as int);
}

/// Going from a world position to its cell, to the cell's centre, and back to
/// a cell gives the same cell: the round trip through the grid is stable.
/// The only bound is that the centre be representable, which `grid_to_world`
/// needs to return it; `lemma_round_trip_any_position` states the same over
/// unbounded integers.
pub proof fn lemma_world_grid_round_trip(grid: MapGrid, p: WorldPos, e: i64)
    requires
        grid.wf(),
        grid.world_fits(p),
        grid.center_fits(grid.spec_world_to_grid(p)),
    ensures
        grid.spec_world_to_grid(grid.spec_grid_to_world(grid.spec_world_to_grid(p), e))
            == grid.spec_world_to_grid(p),
{
    lemma_grid_world_inverse(grid, grid.spec_world_to_grid(p), e);
}

/// The round trip over unbounded integers: for every world position, the centre
/// of the cell holding it lies in that same cell, whatever the cell size.
pub proof fn lemma_round_trip_any_position(grid: MapGrid, p: WorldPos)
    requires
        grid.cell_size > 0,
    ensures
        floor_div(grid.center_of(floor_div(p.x as int, grid.cell_size as int)), grid.cell_size as int)
            == floor_div(p.x as int, grid.cell_size as int),
        floor_div(grid.center_of(floor_div(p.z as int, grid.cell_size as int)), grid.cell_size as int)
            == floor_div(p.z as int, grid.cell_size as int),
{
    lemma_center_floor(floor_div(p.x as int, grid.cell_size as int), grid.cell_size as int);
    lemma_center_floor(floor_div(p.z as int, grid.cell_size as int), grid.cell_size as int);
}

proof fn lemma_center_floor(i: int, cs: int)
    requires
        cs > 0,
    ensures
        floor_div(i * cs + cs / 2, cs) == i,
{
    assert(0 <= cs / 2 < cs);
    vstd::arithmetic::div_mod::lemma_fundamental_div_mod_converse(i * cs + cs / 2, cs, i, cs / 2);
}

pub(crate) proof fn lemma_index_in_range(w: int, h: int, x: int, y: int)
    requires
        0 <= x < w,
        0 <= y < h,
    ensures
        0 <= y * w + x < w * h,
{
    assert(y * w + x < w * h) by (nonlinear_arith)
        requires 0 <= x < w, 0 <= y < h;
    assert(0 <= y * w) by (nonlinear_arith)
        requires 0 <= x < w, 0 <= y < h;
}

pub(crate) proof fn lemma_index_injective(w: int, h: int, c: GridCoord, d: GridCoord)
    requires
        0 <= c.x < w,
        0 <= c.y < h,
        0 <= d.x < w,
        0 <= d.y < h,
        c != d,
    ensures
        c.y * w + c.x != d.y * w + d.x,
{
    let (cx, cy, dx, dy) = (c.x as int, c.y as int, d.x as int, d.y as int);
    if cy == dy {
        assert(cx != dx);
    } else if cy < dy {
        assert(cy * w + cx < dy * w + dx) by (nonlinear_arith)
            requires cy < dy, 0 <= cx < w, 0 <= dx < w;
    } else {
        assert(dy * w + dx < cy * w + cx) by (nonlinear_arith)
            requires dy < cy, 0 <= cx < w, 0 <= dx < w;
    }
}

} // verus!
