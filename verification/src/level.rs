//! Coordinates, tile kinds and the stage catalog: which rooms belong to a
//! stage, where each room sits in the meta-grid, and how meta-grid positions
//! translate to pixel placements.

use vstd::prelude::*;

verus! {

/// A tile position within a single room's local grid. `x` grows to the
/// right and `y` grows upward: the local origin is the bottom-left corner.
#[derive(Clone, Copy, Debug, PartialEq, Eq, Structural, Hash)]
pub struct GridCoords {
    pub x: i32,
    pub y: i32,
}

impl GridCoords {
    /// Builds the coordinate pair.
    pub fn new(x: i32, y: i32) -> (r: GridCoords)
        ensures
            r == (GridCoords { x, y }),
    {
        GridCoords { x, y }
    }
}

/// A room's position in the meta-grid: `row` counts downward from the top
/// row, `col` counts rightward from the left column.
#[derive(Clone, Copy, Debug, PartialEq, Eq, Structural, Hash)]
pub struct MetaGridCoords {
    pub row: i32,
    pub col: i32,
}

impl MetaGridCoords {
    /// Two positions are neighbors exactly when their Manhattan distance
    /// is 1: four-directional adjacency, no diagonals.
    pub open spec fn spec_is_neighbor(self, other: MetaGridCoords) -> bool {
        let dr = self.row - other.row;
        let dc = self.col - other.col;
        (if dr < 0 {
            -dr
        } else {
            dr
        }) + (if dc < 0 {
            -dc
        } else {
            dc
        }) == 1
    }

    /// Builds the coordinate pair.
    pub fn new(row: i32, col: i32) -> (r: MetaGridCoords)
        ensures
            r == (MetaGridCoords { row, col }),
    {
        MetaGridCoords { row, col }
    }

    /// Reports whether `other` is a four-directional neighbor of `self`.
    pub fn is_neighbor(&self, other: MetaGridCoords) -> (r: bool)
        ensures
            r == self.spec_is_neighbor(other),
    {
        let dr: i64 = self.row as i64 - other.row as i64;
        let dc: i64 = self.col as i64 - other.col as i64;
        let adr: i64 = if dr < 0 {
            -dr
        } else {
            dr
        };
        let adc: i64 = if dc < 0 {
            -dc
        } else {
            dc
        };
        adr + adc == 1
    }
}

/// Largest accepted meta-grid or room-grid dimension, so that every pixel
/// computation below fits comfortably in 32-bit arithmetic.
pub const MAX_GRID_DIM: i32 = 1024;

/// The set of rooms making up one stage, together with their dimensions and
/// their declared starting placement in the meta-grid.
///
/// Pixel offsets derived from a placement involve half-pixel centering
/// corrections, so the placement functions below return their results
/// doubled — in half-pixels — which keeps them exact integers.
#[derive(Clone, Debug)]
pub struct MetaLevel {
    /// Which stage this is.
    pub level_num: i32,
    /// Number of meta-grid columns.
    pub meta_grid_width: i32,
    /// Number of meta-grid rows.
    pub meta_grid_height: i32,
    /// Number of tile columns in each room's local grid.
    pub level_grid_width: i32,
    /// Number of tile rows in each room's local grid.
    pub level_grid_height: i32,
    /// Starting meta-grid position of each room, keyed by the room's
    /// identifier from the level data. Positions are distinct and within
    /// the meta-grid bounds.
    pub initial_placement: Vec<(MetaGridCoords, String)>,
}

impl MetaLevel {
    /// The meta-grid position declared by the `i`-th placement entry.
    pub open spec fn placement_pos(self, i: int) -> MetaGridCoords {
        self.initial_placement@[i].0
    }

    /// Structural soundness: dimensions within machine-friendly bounds and
    /// a placement whose positions are distinct and inside the meta-grid.
    pub open spec fn wf(self) -> bool {
        &&& 0 <= self.level_num < i32::MAX
        &&& 1 <= self.meta_grid_width <= MAX_GRID_DIM
        &&& 1 <= self.meta_grid_height <= MAX_GRID_DIM
        &&& 0 <= self.level_grid_width <= MAX_GRID_DIM
        &&& 0 <= self.level_grid_height <= MAX_GRID_DIM
        &&& forall|i: int|
            0 <= i < self.initial_placement@.len() ==> {
                &&& 0 <= (#[trigger] self.placement_pos(i)).row < self.meta_grid_height
                &&& 0 <= self.placement_pos(i).col < self.meta_grid_width
            }
        &&& forall|i: int, j: int|
            0 <= i < j < self.initial_placement@.len()
                ==> #[trigger] self.placement_pos(i) != #[trigger] self.placement_pos(j)
    }

    /// Width of one room in pixels.
    pub open spec fn spec_level_width_px(self) -> int {
        self.level_grid_width * crate::GRID_SIZE
    }

    /// Height of one room in pixels.
    pub open spec fn spec_level_height_px(self) -> int {
        self.level_grid_height * crate::GRID_SIZE
    }

    /// Width of one room in pixels.
    pub fn level_width_px(&self) -> (r: i32)
        requires
            self.wf(),
        ensures
            r == self.spec_level_width_px(),
    {
        self.level_grid_width * crate::GRID_SIZE
    }

    /// Height of one room in pixels.
    pub fn level_height_px(&self) -> (r: i32)
        requires
            self.wf(),
        ensures
            r == self.spec_level_height_px(),
    {
        self.level_grid_height * crate::GRID_SIZE
    }

    /// Width of the whole meta-grid in pixels.
    pub fn total_width_px(&self) -> (r: i32)
        requires
            self.wf(),
        ensures
            r == self.meta_grid_width * self.spec_level_width_px(),
    {
        let a: i32 = self.level_grid_width * crate::GRID_SIZE;
        assert(0 <= self.meta_grid_width * a <= 0x2000000) by (nonlinear_arith)
            requires
                1 <= self.meta_grid_width <= MAX_GRID_DIM,
                0 <= a <= MAX_GRID_DIM * crate::GRID_SIZE,
        ;
        self.meta_grid_width * a
    }

    /// Height of the whole meta-grid in pixels.
    pub fn total_height_px(&self) -> (r: i32)
        requires
            self.wf(),
        ensures
            r == self.meta_grid_height * self.spec_level_height_px(),
    {
        let a: i32 = self.level_grid_height * crate::GRID_SIZE;
        assert(0 <= self.meta_grid_height * a <= 0x2000000) by (nonlinear_arith)
            requires
                1 <= self.meta_grid_height <= MAX_GRID_DIM,
                0 <= a <= MAX_GRID_DIM * crate::GRID_SIZE,
        ;
        self.meta_grid_height * a
    }

    /// Width of a room minus one tile of padding, in pixels: the size of
    /// the draggable area laid over the room.
    pub fn unpadded_item_width_px(&self) -> (r: i32)
        requires
            self.wf(),
        ensures
            r == (self.level_grid_width - 1) * crate::GRID_SIZE,
    {
        (self.level_grid_width - 1) * crate::GRID_SIZE
    }

    /// Height of a room minus one tile of padding, in pixels.
    pub fn unpadded_item_height_px(&self) -> (r: i32)
        requires
            self.wf(),
        ensures
            r == (self.level_grid_height - 1) * crate::GRID_SIZE,
    {
        (self.level_grid_height - 1) * crate::GRID_SIZE
    }

    /// World translation of a room placed at `grid_pos`, in half-pixels:
    /// the column offset centers the meta-grid horizontally, the row offset
    /// does the same vertically with the row axis flipped (row 0 is the top
    /// row), and one further half-room correction aligns a room's center —
    /// rather than its bottom-left corner — with its slot.
    pub open spec fn spec_get_translation(self, grid_pos: MetaGridCoords) -> (int, int) {
        let col_offset = (2 * grid_pos.col - (self.meta_grid_width - 1)) * self.spec_level_width_px();
        let row_offset = -((2 * grid_pos.row - (self.meta_grid_height - 1))
            * self.spec_level_height_px());
        (col_offset - self.spec_level_width_px(), row_offset - self.spec_level_height_px())
    }

    /// World translation of the room placed at `grid_pos`.
    ///
    /// The result is in half-pixels — exactly twice the pixel offset — so
    /// that the half-room centering correction stays an exact integer.
    pub fn get_translation(&self, grid_pos: MetaGridCoords) -> (r: (i32, i32))
        requires
            self.wf(),
            0 <= grid_pos.row < self.meta_grid_height,
            0 <= grid_pos.col < self.meta_grid_width,
        ensures
            (r.0 as int, r.1 as int) == self.spec_get_translation(grid_pos),
    {
        let lw: i32 = self.level_width_px();
        let lh: i32 = self.level_height_px();
        let ca: i32 = 2 * grid_pos.col - (self.meta_grid_width - 1);
        let ra: i32 = 2 * grid_pos.row - (self.meta_grid_height - 1);
        assert(-(2 * MAX_GRID_DIM) <= ca <= 2 * MAX_GRID_DIM);
        assert(-(2 * MAX_GRID_DIM) <= ra <= 2 * MAX_GRID_DIM);
        assert((-0x8000000) <= ca * lw <= 0x8000000 && (-0x8000000) <= ra * lh <= 0x8000000)
            by (nonlinear_arith)
            requires
                -(2 * MAX_GRID_DIM) <= ca <= 2 * MAX_GRID_DIM,
                -(2 * MAX_GRID_DIM) <= ra <= 2 * MAX_GRID_DIM,
                0 <= lw <= MAX_GRID_DIM * crate::GRID_SIZE,
                0 <= lh <= MAX_GRID_DIM * crate::GRID_SIZE,
        ;
        (ca * lw - lw, -(ra * lh) - lh)
    }

    /// Center of the room placed at `meta_coords` within the window
    /// texture, in half-pixels: the window center plus the room's centered
    /// offset, with the row axis *not* flipped (texture rows grow
    /// downward, as meta-grid rows do).
    pub open spec fn spec_get_center_translation_for_texture(
        self,
        meta_coords: MetaGridCoords,
    ) -> (int, int) {
        let col_offset = (2 * meta_coords.col - (self.meta_grid_width - 1))
            * self.spec_level_width_px();
        let row_offset = (2 * meta_coords.row - (self.meta_grid_height - 1))
            * self.spec_level_height_px();
        (crate::WIDTH + col_offset, crate::HEIGHT + row_offset)
    }

    /// Center of the room placed at `meta_coords` within the window
    /// texture, in half-pixels (exactly twice the pixel position).
    pub fn get_center_translation_for_texture(&self, meta_coords: MetaGridCoords) -> (r: (
        i32,
        i32,
    ))
        requires
            self.wf(),
            0 <= meta_coords.row < self.meta_grid_height,
            0 <= meta_coords.col < self.meta_grid_width,
        ensures
            (r.0 as int, r.1 as int) == self.spec_get_center_translation_for_texture(meta_coords),
    {
        let lw: i32 = self.level_width_px();
        let lh: i32 = self.level_height_px();
        let ca: i32 = 2 * meta_coords.col - (self.meta_grid_width - 1);
        let ra: i32 = 2 * meta_coords.row - (self.meta_grid_height - 1);
        assert((-0x8000000) <= ca * lw <= 0x8000000 && (-0x8000000) <= ra * lh <= 0x8000000)
            by (nonlinear_arith)
            requires
                -(2 * MAX_GRID_DIM) <= ca <= 2 * MAX_GRID_DIM,
                -(2 * MAX_GRID_DIM) <= ra <= 2 * MAX_GRID_DIM,
                0 <= lw <= MAX_GRID_DIM * crate::GRID_SIZE,
                0 <= lh <= MAX_GRID_DIM * crate::GRID_SIZE,
        ;
        (crate::WIDTH + ca * lw, crate::HEIGHT + ra * lh)
    }

    /// Pixel translation of a tile within a room: each local grid step is
    /// one tile of `GRID_SIZE` pixels.
    pub fn grid_coords_to_translation(&self, grid_coords: GridCoords) -> (r: (i64, i64))
        ensures
            r.0 == grid_coords.x * crate::GRID_SIZE,
            r.1 == grid_coords.y * crate::GRID_SIZE,
    {
        (grid_coords.x as i64 * crate::GRID_SIZE as i64, grid_coords.y as i64 * crate::GRID_SIZE
            as i64)
    }

    /// The screen rectangle of the draggable area laid over the meta-grid
    /// slot at `pos`, as `(left, top, width, height)` in pixels: slots
    /// tile the grid room by room, pulled back half a tile on each axis,
    /// and the area leaves one tile of margin around the room.
    pub fn drag_area_rect(&self, pos: MetaGridCoords) -> (r: (i32, i32, i32, i32))
        requires
            self.wf(),
            0 <= pos.row < self.meta_grid_height,
            0 <= pos.col < self.meta_grid_width,
        ensures
            r.0 == pos.col * self.spec_level_width_px() - crate::GRID_SIZE / 2,
            r.1 == pos.row * self.spec_level_height_px() - crate::GRID_SIZE / 2,
            r.2 == (self.level_grid_width - 1) * crate::GRID_SIZE,
            r.3 == (self.level_grid_height - 1) * crate::GRID_SIZE,
    {
        let lw: i32 = self.level_width_px();
        let lh: i32 = self.level_height_px();
        assert(0 <= pos.col * lw <= 0x2000000 && 0 <= pos.row * lh <= 0x2000000)
            by (nonlinear_arith)
            requires
                0 <= pos.col < MAX_GRID_DIM,
                0 <= pos.row < MAX_GRID_DIM,
                0 <= lw <= MAX_GRID_DIM * crate::GRID_SIZE,
                0 <= lh <= MAX_GRID_DIM * crate::GRID_SIZE,
        ;
        (
            pos.col * lw - crate::GRID_SIZE / 2,
            pos.row * lh - crate::GRID_SIZE / 2,
            self.unpadded_item_width_px(),
            self.unpadded_item_height_px(),
        )
    }

    /// The declared starting meta-grid position of the room with the
    /// given identifier, if the placement lists it; the first entry wins
    /// should the level data repeat an identifier.
    pub fn initial_position_of(&self, iid: &String) -> (r: Option<MetaGridCoords>)
        ensures
            r matches Some(c) ==> exists|k: int|
                0 <= k < self.initial_placement@.len() && (#[trigger] self.initial_placement@[k]).0
                    == c && self.initial_placement@[k].1@ == iid@,
            r is None ==> forall|k: int|
                0 <= k < self.initial_placement@.len() ==> (
                #[trigger] self.initial_placement@[k]).1@ != iid@,
    {
        let mut k: usize = 0;
        while k < self.initial_placement.len()
            invariant
                0 <= k <= self.initial_placement@.len(),
                forall|j: int|
                    0 <= j < k ==> (#[trigger] self.initial_placement@[j]).1@ != iid@,
            decreases self.initial_placement@.len() - k,
        {
            if self.initial_placement[k].1 == *iid {
                return Some(self.initial_placement[k].0);
            }
            k = k + 1;
        }
        None
    }

    /// The edge tiles along the top of a room where arrows can appear:
    /// every column except the two corners, at the highest row.
    pub fn top_boundary_coords(&self) -> (r: Vec<GridCoords>)
        requires
            self.wf(),
        ensures
            r@.len() == if self.level_grid_width >= 2 {
                (self.level_grid_width - 2) as int
            } else {
                0
            },
            forall|i: int|
                0 <= i < r@.len() ==> r@[i] == (GridCoords {
                    x: (1 + i) as i32,
                    y: (self.level_grid_height - 1) as i32,
                }),
    {
        let y: i32 = self.level_grid_height - 1;
        let mut out: Vec<GridCoords> = Vec::new();
        let mut x: i32 = 1;
        while x < self.level_grid_width - 1
            invariant
                self.wf(),
                1 <= x,
                self.level_grid_width >= 2 ==> x <= self.level_grid_width - 1,
                self.level_grid_width < 2 ==> x == 1,
                out@.len() == x - 1,
                y == self.level_grid_height - 1,
                forall|i: int|
                    0 <= i < out@.len() ==> out@[i] == (GridCoords { x: (1 + i) as i32, y: y }),
            decreases self.level_grid_width - x,
        {
            out.push(GridCoords { x, y });
            x = x + 1;
        }
        out
    }

    /// The edge tiles along the bottom of a room where arrows can appear.
    pub fn bottom_boundary_coords(&self) -> (r: Vec<GridCoords>)
        requires
            self.wf(),
        ensures
            r@.len() == if self.level_grid_width >= 2 {
                (self.level_grid_width - 2) as int
            } else {
                0
            },
            forall|i: int| 0 <= i < r@.len() ==> r@[i] == (GridCoords { x: (1 + i) as i32, y: 0 }),
    {
        let mut out: Vec<GridCoords> = Vec::new();
        let mut x: i32 = 1;
        while x < self.level_grid_width - 1
            invariant
                self.wf(),
                1 <= x,
                self.level_grid_width >= 2 ==> x <= self.level_grid_width - 1,
                self.level_grid_width < 2 ==> x == 1,
                out@.len() == x - 1,
                forall|i: int|
                    0 <= i < out@.len() ==> out@[i] == (GridCoords { x: (1 + i) as i32, y: 0 }),
            decreases self.level_grid_width - x,
        {
            out.push(GridCoords { x, y: 0 });
            x = x + 1;
        }
        out
    }

    /// The edge tiles along the left side of a room where arrows can appear.
    pub fn left_boundary_coords(&self) -> (r: Vec<GridCoords>)
        requires
            self.wf(),
        ensures
            r@.len() == if self.level_grid_height >= 2 {
                (self.level_grid_height - 2) as int
            } else {
                0
            },
            forall|i: int| 0 <= i < r@.len() ==> r@[i] == (GridCoords { x: 0, y: (1 + i) as i32 }),
    {
        let mut out: Vec<GridCoords> = Vec::new();
        let mut y: i32 = 1;
        while y < self.level_grid_height - 1
            invariant
                self.wf(),
                1 <= y,
                self.level_grid_height >= 2 ==> y <= self.level_grid_height - 1,
                self.level_grid_height < 2 ==> y == 1,
                out@.len() == y - 1,
                forall|i: int|
                    0 <= i < out@.len() ==> out@[i] == (GridCoords { x: 0, y: (1 + i) as i32 }),
            decreases self.level_grid_height - y,
        {
            out.push(GridCoords { x: 0, y });
            y = y + 1;
        }
        out
    }

    /// The edge tiles along the right side of a room where arrows can appear.
    pub fn right_boundary_coords(&self) -> (r: Vec<GridCoords>)
        requires
            self.wf(),
        ensures
            r@.len() == if self.level_grid_height >= 2 {
                (self.level_grid_height - 2) as int
            } else {
                0
            },
            forall|i: int|
                0 <= i < r@.len() ==> r@[i] == (GridCoords {
                    x: (self.level_grid_width - 1) as i32,
                    y: (1 + i) as i32,
                }),
    {
        let x: i32 = self.level_grid_width - 1;
        let mut out: Vec<GridCoords> = Vec::new();
        let mut y: i32 = 1;
        while y < self.level_grid_height - 1
            invariant
                self.wf(),
                1 <= y,
                self.level_grid_height >= 2 ==> y <= self.level_grid_height - 1,
                self.level_grid_height < 2 ==> y == 1,
                out@.len() == y - 1,
                x == self.level_grid_width - 1,
                forall|i: int|
                    0 <= i < out@.len() ==> out@[i] == (GridCoords { x: x, y: (1 + i) as i32 }),
            decreases self.level_grid_height - y,
        {
            out.push(GridCoords { x, y });
            y = y + 1;
        }
        out
    }
}

/// What one tile of a room is made of.
#[derive(Clone, Copy, Debug, PartialEq, Eq, Structural)]
pub enum TileType {
    /// Ordinary walkable ground.
    Floor,
    /// Walkable ground that an occupant must stand on to satisfy the room.
    Goal,
    /// An impassable tile inside the room.
    Wall,
    /// An impassable tile along the room's edge, also used to anchor the
    /// directional arrows.
    Boundary,
}

impl TileType {
    /// A tile can be stepped onto exactly when it is floor or goal.
    pub open spec fn is_passable(self) -> bool {
        self is Floor || self is Goal
    }

    /// Reads a tile kind from the integer code used by the level data
    /// (1 floor, 2 goal, 3 wall, 4 boundary); any other code is unknown.
    pub fn from_cell_value(value: i32) -> (r: Option<TileType>)
        ensures
            r == (match value {
                1 => Some(TileType::Floor),
                2 => Some(TileType::Goal),
                3 => Some(TileType::Wall),
                4 => Some(TileType::Boundary),
                _ => None::<TileType>,
            }),
    {
        match value {
            1 => Some(TileType::Floor),
            2 => Some(TileType::Goal),
            3 => Some(TileType::Wall),
            4 => Some(TileType::Boundary),
            _ => None,
        }
    }
}

/// One room as the level data declares it: an identifier, the stage tag,
/// the meta-grid placement tags, and the room's pixel dimensions. Absent
/// tags are `None`.
#[derive(Clone, Debug)]
pub struct RoomDeclaration {
    /// The room's identifier in the level data.
    pub iid: String,
    /// The stage this room belongs to, if tagged.
    pub level_num: Option<i32>,
    /// Declared meta-grid row, if tagged.
    pub grid_row: Option<i32>,
    /// Declared meta-grid column, if tagged.
    pub grid_col: Option<i32>,
    /// Width of the room in pixels.
    pub px_wid: i32,
    /// Height of the room in pixels.
    pub px_hei: i32,
}

/// Why a stage could not be loaded from the level data.
#[derive(Clone, Copy, Debug, PartialEq, Eq, Structural)]
pub enum StageLoadError {
    /// The level data is inconsistent for this stage: a declared room lacks
    /// a placement tag, carries one outside the accepted range, or two
    /// rooms claim the same meta-grid position. Fatal for this stage.
    MalformedStage,
    /// No room declares this stage. Recoverable: the caller decides whether
    /// to wrap around to the first stage or stop.
    StageNotFound,
}

/// Whether declaration `d` declares itself part of stage `n`.
pub open spec fn declares_stage(d: RoomDeclaration, n: i32) -> bool {
    d.level_num == Some(n)
}

/// Whether declaration `d` carries complete, in-range placement tags and
/// dimensions: both grid tags present and inside the meta-grid limit, and
/// pixel sizes non-negative and at most `MAX_GRID_DIM` tiles.
pub open spec fn well_tagged(d: RoomDeclaration) -> bool {
    &&& d.grid_row matches Some(r) && 0 <= r < MAX_GRID_DIM
    &&& d.grid_col matches Some(c) && 0 <= c < MAX_GRID_DIM
    &&& 0 <= d.px_wid <= MAX_GRID_DIM * crate::GRID_SIZE
    &&& 0 <= d.px_hei <= MAX_GRID_DIM * crate::GRID_SIZE
}

/// The declared meta-grid position of a well-tagged declaration.
pub open spec fn declared_pos(d: RoomDeclaration) -> MetaGridCoords {
    MetaGridCoords { row: d.grid_row->0, col: d.grid_col->0 }
}

/// Some declaration of stage `n` exists.
pub open spec fn stage_exists(rooms: Seq<RoomDeclaration>, n: i32) -> bool {
    exists|i: int| 0 <= i < rooms.len() && declares_stage(#[trigger] rooms[i], n)
}

/// Stage `n` is malformed: a declaration of it lacks a tag or carries one
/// out of range, or two declarations of it claim the same position.
pub open spec fn stage_is_malformed(rooms: Seq<RoomDeclaration>, n: i32) -> bool {
    ||| exists|i: int|
        0 <= i < rooms.len() && declares_stage(#[trigger] rooms[i], n) && !well_tagged(rooms[i])
    ||| exists|i: int, j: int|
        0 <= i < j < rooms.len() && declares_stage(#[trigger] rooms[i], n) && declares_stage(
            #[trigger] rooms[j],
            n,
        ) && well_tagged(rooms[i]) && well_tagged(rooms[j]) && declared_pos(rooms[i])
            == declared_pos(rooms[j])
}

/// The placement built from the well-tagged declarations of stage `n`, in
/// declaration order.
pub open spec fn stage_placement(rooms: Seq<RoomDeclaration>, n: i32) -> Seq<
    (MetaGridCoords, String),
>
    decreases rooms.len(),
{
    if rooms.len() == 0 {
        Seq::empty()
    } else {
        let prefix = stage_placement(rooms.drop_last(), n);
        let d = rooms.last();
        if declares_stage(d, n) && well_tagged(d) {
            prefix.push((declared_pos(d), d.iid))
        } else {
            prefix
        }
    }
}

/// Number of meta-grid rows of stage `n`: one more than the largest
/// declared row, and at least 1.
pub open spec fn stage_meta_height(rooms: Seq<RoomDeclaration>, n: i32) -> int
    decreases rooms.len(),
{
    if rooms.len() == 0 {
        1
    } else {
        let rest = stage_meta_height(rooms.drop_last(), n);
        let d = rooms.last();
        if declares_stage(d, n) && well_tagged(d) && d.grid_row->0 + 1 > rest {
            d.grid_row->0 + 1
        } else {
            rest
        }
    }
}

/// Number of meta-grid columns of stage `n`: one more than the largest
/// declared column, and at least 1.
pub open spec fn stage_meta_width(rooms: Seq<RoomDeclaration>, n: i32) -> int
    decreases rooms.len(),
{
    if rooms.len() == 0 {
        1
    } else {
        let rest = stage_meta_width(rooms.drop_last(), n);
        let d = rooms.last();
        if declares_stage(d, n) && well_tagged(d) && d.grid_col->0 + 1 > rest {
            d.grid_col->0 + 1
        } else {
            rest
        }
    }
}

/// Room grid width of stage `n` in tiles: the largest declared pixel width
/// divided by the tile size, and at least 0.
pub open spec fn stage_level_grid_width(rooms: Seq<RoomDeclaration>, n: i32) -> int
    decreases rooms.len(),
{
    if rooms.len() == 0 {
        0
    } else {
        let rest = stage_level_grid_width(rooms.drop_last(), n);
        let d = rooms.last();
        if declares_stage(d, n) && well_tagged(d) && d.px_wid / crate::GRID_SIZE > rest {
            d.px_wid / crate::GRID_SIZE
        } else {
            rest
        }
    }
}

/// Room grid height of stage `n` in tiles.
pub open spec fn stage_level_grid_height(rooms: Seq<RoomDeclaration>, n: i32) -> int
    decreases rooms.len(),
{
    if rooms.len() == 0 {
        0
    } else {
        let rest = stage_level_grid_height(rooms.drop_last(), n);
        let d = rooms.last();
        if declares_stage(d, n) && well_tagged(d) && d.px_hei / crate::GRID_SIZE > rest {
            d.px_hei / crate::GRID_SIZE
        } else {
            rest
        }
    }
}

/// `m` is the stage that the level data describes for stage number `n`:
/// its dimensions are the declared maxima and its placement lists the
/// declaring rooms in declaration order.
pub open spec fn stage_loaded(rooms: Seq<RoomDeclaration>, n: i32, m: MetaLevel) -> bool {
    &&& m.level_num == n
    &&& m.meta_grid_height == stage_meta_height(rooms, n)
    &&& m.meta_grid_width == stage_meta_width(rooms, n)
    &&& m.level_grid_width == stage_level_grid_width(rooms, n)
    &&& m.level_grid_height == stage_level_grid_height(rooms, n)
    &&& m.initial_placement@ == stage_placement(rooms, n)
    &&& m.wf()
}

/// A well-tagged declaration of stage `n` with position `c` exists among
/// the first `bound` declarations.
pub open spec fn placement_witnessed(
    rooms: Seq<RoomDeclaration>,
    n: i32,
    bound: int,
    c: MetaGridCoords,
) -> bool {
    exists|i: int|
        0 <= i < bound && declares_stage(#[trigger] rooms[i], n) && well_tagged(rooms[i])
            && declared_pos(rooms[i]) == c
}

/// Position `c` occurs in the placement built so far.
pub open spec fn placement_records(pl: Seq<(MetaGridCoords, String)>, c: MetaGridCoords) -> bool {
    exists|k: int| 0 <= k < pl.len() && (#[trigger] pl[k]).0 == c
}

proof fn lemma_witness_bound_grows(
    rooms: Seq<RoomDeclaration>,
    n: i32,
    b1: int,
    b2: int,
    c: MetaGridCoords,
)
    requires
        placement_witnessed(rooms, n, b1, c),
        b1 <= b2,
    ensures
        placement_witnessed(rooms, n, b2, c),
{
    let i = choose|i: int|
        0 <= i < b1 && declares_stage(#[trigger] rooms[i], n) && well_tagged(rooms[i])
            && declared_pos(rooms[i]) == c;
    assert(0 <= i < b2 && declares_stage(rooms[i], n));
}

proof fn lemma_records_push(
    pl: Seq<(MetaGridCoords, String)>,
    entry: (MetaGridCoords, String),
    c: MetaGridCoords,
)
    requires
        placement_records(pl, c),
    ensures
        placement_records(pl.push(entry), c),
{
    let k = choose|k: int| 0 <= k < pl.len() && (#[trigger] pl[k]).0 == c;
    assert((pl.push(entry)[k]).0 == c);
}

/// Scans the level data for the rooms of stage `level_num` and assembles
/// the stage's dimensions and starting placement.
///
/// Fails with `MalformedStage` when a declared room lacks a placement tag,
/// carries one out of range, or collides with another room's position, and
/// with `StageNotFound` when nothing declares the stage.
#[verifier::rlimit(50)]
pub fn load_meta_level(level_num: i32, rooms: &Vec<RoomDeclaration>) -> (r: Result<
    MetaLevel,
    StageLoadError,
>)
    requires
        0 <= level_num < i32::MAX,
    ensures
        (r matches Err(e) && e == StageLoadError::StageNotFound) <==> !stage_exists(
            rooms@,
            level_num,
        ),
        (r matches Err(e) && e == StageLoadError::MalformedStage) <==> stage_is_malformed(
            rooms@,
            level_num,
        ),
        r matches Ok(m) ==> stage_loaded(rooms@, level_num, m),
{
    let ghost all = rooms@;
    let mut meta_grid_width: i32 = 1;
    let mut meta_grid_height: i32 = 1;
    let mut level_grid_width: i32 = 0;
    let mut level_grid_height: i32 = 0;
    let mut initial_placement: Vec<(MetaGridCoords, String)> = Vec::new();
    let mut idx: usize = 0;
    while idx < rooms.len()
        invariant
            all == rooms@,
            0 <= level_num < i32::MAX,
            0 <= idx <= all.len(),
            1 <= meta_grid_width <= MAX_GRID_DIM,
            1 <= meta_grid_height <= MAX_GRID_DIM,
            0 <= level_grid_width <= MAX_GRID_DIM,
            0 <= level_grid_height <= MAX_GRID_DIM,
            meta_grid_height == stage_meta_height(all.take(idx as int), level_num),
            meta_grid_width == stage_meta_width(all.take(idx as int), level_num),
            level_grid_width == stage_level_grid_width(all.take(idx as int), level_num),
            level_grid_height == stage_level_grid_height(all.take(idx as int), level_num),
            initial_placement@ == stage_placement(all.take(idx as int), level_num),
            forall|i: int|
                0 <= i < idx && declares_stage(#[trigger] all[i], level_num) ==> well_tagged(
                    all[i],
                ),
            forall|i: int, j: int|
                0 <= i < j < idx && declares_stage(#[trigger] all[i], level_num) && declares_stage(
                    #[trigger] all[j],
                    level_num,
                ) ==> declared_pos(all[i]) != declared_pos(all[j]),
            // each placement entry records a declaring room seen so far, and
            // each declaring room seen so far has its position on record
            forall|k: int|
                0 <= k < initial_placement@.len() ==> placement_witnessed(
                    all,
                    level_num,
                    idx as int,
                    (#[trigger] initial_placement@[k]).0,
                ),
            forall|i: int|
                0 <= i < idx && declares_stage(#[trigger] all[i], level_num) ==> placement_records(
                    initial_placement@,
                    declared_pos(all[i]),
                ),
            forall|k: int|
                0 <= k < initial_placement@.len() ==> {
                    &&& 0 <= (#[trigger] initial_placement@[k]).0.row < meta_grid_height
                    &&& 0 <= initial_placement@[k].0.col < meta_grid_width
                },
            forall|k1: int, k2: int|
                0 <= k1 < k2 < initial_placement@.len() ==> (#[trigger] initial_placement@[k1]).0
                    != (#[trigger] initial_placement@[k2]).0,
        decreases all.len() - idx,
    {
        let d = &rooms[idx];
        let declares: bool = match d.level_num {
            Some(n) => n == level_num,
            None => false,
        };
        proof {
            assert(all.take(idx as int + 1).drop_last() =~= all.take(idx as int));
            assert(all.take(idx as int + 1).last() == all[idx as int]);
        }
        if declares {
            proof {
                assert(declares_stage(all[idx as int], level_num));
                assert(stage_exists(all, level_num));
            }
            let (row, col): (i32, i32) = match (d.grid_row, d.grid_col) {
                (Some(r), Some(c)) => (r, c),
                _ => {
                    proof {
                        assert(!well_tagged(all[idx as int]));
                    }
                    return Err(StageLoadError::MalformedStage);
                },
            };
            if row < 0 || row >= MAX_GRID_DIM || col < 0 || col >= MAX_GRID_DIM || d.px_wid < 0
                || d.px_wid > MAX_GRID_DIM * crate::GRID_SIZE || d.px_hei < 0 || d.px_hei
                > MAX_GRID_DIM * crate::GRID_SIZE {
                proof {
                    assert(!well_tagged(all[idx as int]));
                }
                return Err(StageLoadError::MalformedStage);
            }
            proof {
                assert(well_tagged(all[idx as int]));
            }
            let pos = MetaGridCoords { row, col };
            let mut k: usize = 0;
            while k < initial_placement.len()
                invariant
                    all == rooms@,
                    0 <= idx < all.len(),
                    0 <= k <= initial_placement@.len(),
                    declares_stage(all[idx as int], level_num),
                    well_tagged(all[idx as int]),
                    pos == declared_pos(all[idx as int]),
                    forall|k1: int|
                        0 <= k1 < k ==> (#[trigger] initial_placement@[k1]).0 != pos,
                    forall|k1: int|
                        0 <= k1 < initial_placement@.len() ==> placement_witnessed(
                            all,
                            level_num,
                            idx as int,
                            (#[trigger] initial_placement@[k1]).0,
                        ),
                decreases initial_placement@.len() - k,
            {
                if initial_placement[k].0 == pos {
                    proof {
                        let i = choose|i: int|
                            0 <= i < idx && declares_stage(#[trigger] all[i], level_num)
                                && well_tagged(all[i]) && declared_pos(all[i]) == pos;
                        assert(declares_stage(all[i], level_num) && declares_stage(
                            all[idx as int],
                            level_num,
                        ));
                        assert(stage_is_malformed(all, level_num));
                    }
                    return Err(StageLoadError::MalformedStage);
                }
                k = k + 1;
            }
            if row + 1 > meta_grid_height {
                meta_grid_height = row + 1;
            }
            if col + 1 > meta_grid_width {
                meta_grid_width = col + 1;
            }
            let gw: i32 = d.px_wid / crate::GRID_SIZE;
            if gw > level_grid_width {
                level_grid_width = gw;
            }
            let gh: i32 = d.px_hei / crate::GRID_SIZE;
            if gh > level_grid_height {
                level_grid_height = gh;
            }
            let ghost pl0 = initial_placement@;
            proof {
                // no earlier declaring room shares this position: its
                // position is on record, and the scan found no entry at `pos`
                assert forall|i: int|
                    0 <= i < idx && declares_stage(#[trigger] all[i], level_num) implies
                    declared_pos(all[i]) != pos by {
                    assert(placement_records(pl0, declared_pos(all[i])));
                    let k1 = choose|k1: int|
                        0 <= k1 < pl0.len() && (#[trigger] pl0[k1]).0 == declared_pos(all[i]);
                    assert(pl0[k1].0 != pos);
                }
            }
            initial_placement.push((pos, d.iid.clone()));
            proof {
                assert(initial_placement@ =~= pl0.push((pos, all[idx as int].iid)));
                assert forall|k1: int| 0 <= k1 < initial_placement@.len() implies
                    placement_witnessed(
                        all,
                        level_num,
                        idx as int + 1,
                        (#[trigger] initial_placement@[k1]).0,
                    ) by {
                    if k1 < pl0.len() {
                        assert(initial_placement@[k1] == pl0[k1]);
                        lemma_witness_bound_grows(
                            all,
                            level_num,
                            idx as int,
                            idx as int + 1,
                            pl0[k1].0,
                        );
                    } else {
                        assert(initial_placement@[k1].0 == pos);
                        assert(declares_stage(all[idx as int], level_num) && well_tagged(
                            all[idx as int],
                        ) && declared_pos(all[idx as int]) == pos);
                    }
                }
                assert forall|i: int|
                    0 <= i < idx as int + 1 && declares_stage(
                        #[trigger] all[i],
                        level_num,
                    ) implies placement_records(initial_placement@, declared_pos(all[i])) by {
                    if i < idx as int {
                        lemma_records_push(pl0, (pos, all[idx as int].iid), declared_pos(all[i]));
                    } else {
                        assert((initial_placement@[pl0.len() as int]).0 == pos);
                    }
                }
            }
        }
        idx = idx + 1;
    }
    proof {
        assert(all.take(all.len() as int) =~= all);
        assert(!stage_is_malformed(all, level_num)) by {
            if exists|i: int|
                0 <= i < all.len() && declares_stage(#[trigger] all[i], level_num) && !well_tagged(
                    all[i],
                ) {
                let i = choose|i: int|
                    0 <= i < all.len() && declares_stage(#[trigger] all[i], level_num)
                        && !well_tagged(all[i]);
                assert(well_tagged(all[i]));
            }
            if exists|i: int, j: int|
                0 <= i < j < all.len() && declares_stage(#[trigger] all[i], level_num)
                    && declares_stage(#[trigger] all[j], level_num) && well_tagged(all[i])
                    && well_tagged(all[j]) && declared_pos(all[i]) == declared_pos(all[j]) {
                let (i, j) = choose|i: int, j: int|
                    0 <= i < j < all.len() && declares_stage(#[trigger] all[i], level_num)
                        && declares_stage(#[trigger] all[j], level_num) && well_tagged(all[i])
                        && well_tagged(all[j]) && declared_pos(all[i]) == declared_pos(all[j]);
                assert(declared_pos(all[i]) != declared_pos(all[j]));
            }
        }
    }
    if initial_placement.len() == 0 {
        proof {
            assert(!stage_exists(all, level_num)) by {
                if stage_exists(all, level_num) {
                    let i = choose|i: int|
                        0 <= i < all.len() && declares_stage(#[trigger] all[i], level_num);
                    assert(placement_records(initial_placement@, declared_pos(all[i])));
                    assert(false);
                }
            }
        }
        return Err(StageLoadError::StageNotFound);
    }
    proof {
        assert(placement_witnessed(all, level_num, all.len() as int, initial_placement@[0].0));
        let i = choose|i: int|
            0 <= i < all.len() && declares_stage(#[trigger] all[i], level_num) && well_tagged(
                all[i],
            ) && declared_pos(all[i]) == initial_placement@[0].0;
        assert(stage_exists(all, level_num));
    }
    Ok(
        MetaLevel {
            level_num,
            meta_grid_width,
            meta_grid_height,
            level_grid_width,
            level_grid_height,
            initial_placement,
        },
    )
}

/// Every stage the level data describes, in stage order: stage `n` sits at
/// index `n`. The list ends just before the first stage number that no
/// room declares.
pub struct AllMetaLevels(pub Vec<MetaLevel>);

impl AllMetaLevels {
    /// Each catalog entry is a well-formed stage numbered by its index.
    pub open spec fn wf(self) -> bool {
        forall|n: int|
            0 <= n < self.0@.len() ==> (#[trigger] self.0@[n]).wf() && self.0@[n].level_num == n
    }

    /// The stage to load for a requested stage number: the entry at that
    /// index if it exists, else the first stage (so advancing past the
    /// last stage wraps around to the beginning).
    pub fn select(&self, level_num: i32) -> (r: &MetaLevel)
        requires
            self.0@.len() > 0,
        ensures
            *r == if 0 <= level_num < self.0@.len() {
                self.0@[level_num as int]
            } else {
                self.0@[0]
            },
    {
        if 0 <= level_num && (level_num as usize) < self.0.len() {
            &self.0[level_num as usize]
        } else {
            &self.0[0]
        }
    }
}

/// Builds the whole stage catalog: loads stage 0, 1, 2, … until the first
/// stage number that no room declares, and stops there. A malformed stage
/// anywhere in that range fails the whole catalog.
pub fn load_all_meta_levels(rooms: &Vec<RoomDeclaration>) -> (r: Result<
    AllMetaLevels,
    StageLoadError,
>)
    requires
        rooms@.len() < i32::MAX,
    ensures
        r matches Err(e) ==> e == StageLoadError::MalformedStage && exists|n: i32|
            0 <= n && #[trigger] stage_is_malformed(rooms@, n),
        r matches Ok(all) ==> {
            &&& all.wf()
            &&& forall|n: int|
                0 <= n < all.0@.len() ==> stage_loaded(rooms@, n as i32, #[trigger] all.0@[n])
            &&& !stage_exists(rooms@, all.0@.len() as i32)
        },
{
    let ghost all_rooms = rooms@;
    let mut levels: Vec<MetaLevel> = Vec::new();
    let ghost mut witnesses: Set<int> = Set::empty();
    let mut n: i32 = 0;
    while n <= rooms.len() as i32
        invariant
            all_rooms == rooms@,
            all_rooms.len() < i32::MAX,
            0 <= n <= all_rooms.len() + 1,
            levels@.len() == n,
            forall|m: int|
                0 <= m < n ==> stage_loaded(all_rooms, m as i32, #[trigger] levels@[m]),
            witnesses.finite(),
            witnesses.len() == n,
            forall|i: int|
                #[trigger] witnesses.contains(i) ==> 0 <= i < all_rooms.len() && (
                all_rooms[i].level_num matches Some(m) && 0 <= m < n),
        decreases all_rooms.len() + 1 - n,
    {
        match load_meta_level(n, rooms) {
            Ok(m) => {
                levels.push(m);
                proof {
                    let w = choose|i: int|
                        0 <= i < all_rooms.len() && declares_stage(#[trigger] all_rooms[i], n);
                    assert(all_rooms[w].level_num == Some(n));
                    assert(!witnesses.contains(w));
                    witnesses = witnesses.insert(w);
                }
                n = n + 1;
            },
            Err(StageLoadError::StageNotFound) => {
                return Ok(AllMetaLevels(levels));
            },
            Err(StageLoadError::MalformedStage) => {
                proof {
                    assert(stage_is_malformed(all_rooms, n));
                }
                return Err(StageLoadError::MalformedStage);
            },
        }
    }
    proof {
        // impossible: the loop found a distinct declaring room for each of
        // the `len + 1` stage numbers, yet there are only `len` rooms
        vstd::set_lib::lemma_int_range(0, all_rooms.len() as int);
        assert forall|i: int| witnesses.contains(i) implies vstd::set_lib::set_int_range(
            0,
            all_rooms.len() as int,
        ).contains(i) by {}
        vstd::set_lib::lemma_len_subset(
            witnesses,
            vstd::set_lib::set_int_range(0, all_rooms.len() as int),
        );
        assert(false);
    }
    Err(StageLoadError::StageNotFound)
}

} // verus!
