//! The live state of one loaded stage: each room's tile grid, goal flags,
//! occupant, activity flag and current meta-grid position, plus the stage's
//! move counter, buffered input and stage-advance countdown.

use crate::level::{GridCoords, MetaGridCoords, MetaLevel, TileType, MAX_GRID_DIM};
use crate::player::{
    spec_process_queued, spec_replay, spec_unlock, Direction, Player, PlayerView, QueuedInput,
};
use crate::util::vec_index_mut;
use std::collections::VecDeque;
use vstd::prelude::*;

verus! {

/// How long the stage-advance countdown runs once every goal is
/// satisfied, in milliseconds.
pub const LEVEL_SPAWN_DELAY_MS: u32 = 1000;

/// A room's 2-D tile lookup: every in-bounds coordinate holds exactly one
/// tile kind, out-of-bounds lookups yield nothing.
#[derive(Clone, Debug)]
pub struct TileGrid {
    grid_width: i32,
    grid_height: i32,
    tiles: Vec<TileType>,
}

/// The mathematical value of a [`TileGrid`]: its dimensions and its tiles
/// in row-major order (index `y * grid_width + x`).
pub struct TileGridView {
    /// Number of tile columns.
    pub grid_width: int,
    /// Number of tile rows.
    pub grid_height: int,
    /// The tiles in row-major order.
    pub tiles: Seq<TileType>,
}

impl TileGridView {
    /// Dimensions within bounds and one tile per in-bounds coordinate.
    pub open spec fn wf(self) -> bool {
        &&& 0 <= self.grid_width <= MAX_GRID_DIM
        &&& 0 <= self.grid_height <= MAX_GRID_DIM
        &&& self.tiles.len() == self.grid_width * self.grid_height
    }

    /// The tile at `(x, y)`, or nothing when the coordinate is outside
    /// the grid.
    pub open spec fn tile_at(self, x: int, y: int) -> Option<TileType> {
        if 0 <= x < self.grid_width && 0 <= y < self.grid_height {
            Some(self.tiles[y * self.grid_width + x])
        } else {
            None
        }
    }
}

impl View for TileGrid {
    type V = TileGridView;

    closed spec fn view(&self) -> TileGridView {
        TileGridView {
            grid_width: self.grid_width as int,
            grid_height: self.grid_height as int,
            tiles: self.tiles@,
        }
    }
}

impl TileGrid {
    /// Builds a grid from row-major tiles; yields nothing when the
    /// dimensions are out of range or do not match the tile count.
    pub fn new(grid_width: i32, grid_height: i32, tiles: Vec<TileType>) -> (r: Option<TileGrid>)
        ensures
            r matches Some(g) ==> {
                &&& g@ == (TileGridView {
                    grid_width: grid_width as int,
                    grid_height: grid_height as int,
                    tiles: tiles@,
                })
                &&& g@.wf()
            },
            r is None <==> !(0 <= grid_width <= MAX_GRID_DIM && 0 <= grid_height <= MAX_GRID_DIM
                && tiles@.len() == grid_width * grid_height),
    {
        if 0 <= grid_width && grid_width <= MAX_GRID_DIM && 0 <= grid_height && grid_height
            <= MAX_GRID_DIM {
            assert(0 <= grid_width * grid_height <= 0x100000) by (nonlinear_arith)
                requires
                    0 <= grid_width <= MAX_GRID_DIM,
                    0 <= grid_height <= MAX_GRID_DIM,
            ;
            if tiles.len() == (grid_width as usize) * (grid_height as usize) {
                Some(TileGrid { grid_width, grid_height, tiles })
            } else {
                None
            }
        } else {
            None
        }
    }

    /// Number of tile columns.
    pub fn grid_width(&self) -> (r: i32)
        ensures
            r == self@.grid_width,
    {
        self.grid_width
    }

    /// Number of tile rows.
    pub fn grid_height(&self) -> (r: i32)
        ensures
            r == self@.grid_height,
    {
        self.grid_height
    }

    /// The tile at `coords`, or nothing when `coords` is out of bounds.
    pub fn get(&self, coords: GridCoords) -> (r: Option<TileType>)
        requires
            self@.wf(),
        ensures
            r == self@.tile_at(coords.x as int, coords.y as int),
    {
        if 0 <= coords.x && coords.x < self.grid_width && 0 <= coords.y && coords.y
            < self.grid_height {
            assert(0 <= coords.y * self.grid_width && coords.y * self.grid_width + coords.x
                < self.grid_width * self.grid_height && self.grid_width * self.grid_height
                <= 0x100000) by (nonlinear_arith)
                requires
                    0 <= coords.x < self.grid_width <= MAX_GRID_DIM,
                    0 <= coords.y < self.grid_height <= MAX_GRID_DIM,
            ;
            let idx: i32 = coords.y * self.grid_width + coords.x;
            Some(self.tiles[idx as usize])
        } else {
            None
        }
    }

    /// The coordinates of every goal tile, in row-major order, each once.
    pub fn goal_coords(&self) -> (r: Vec<GridCoords>)
        requires
            self@.wf(),
        ensures
            forall|k: int|
                0 <= k < r@.len() ==> self@.tile_at(
                    (#[trigger] r@[k]).x as int,
                    r@[k].y as int,
                ) == Some(TileType::Goal),
            forall|x: int, y: int|
                #[trigger] self@.tile_at(x, y) == Some(TileType::Goal) ==> exists|k: int|
                    0 <= k < r@.len() && (#[trigger] r@[k]).x == x && r@[k].y == y,
            forall|k1: int, k2: int| 0 <= k1 < k2 < r@.len() ==> r@[k1] != r@[k2],
    {
        let ghost g = self@;
        let mut out: Vec<GridCoords> = Vec::new();
        if self.grid_width == 0 || self.grid_height == 0 {
            return out;
        }
        let mut y: i32 = 0;
        while y < self.grid_height
            invariant
                self@ == g,
                g.wf(),
                1 <= g.grid_width,
                0 <= y <= g.grid_height,
                forall|k: int|
                    0 <= k < out@.len() ==> g.tile_at((#[trigger] out@[k]).x as int, out@[k].y as int)
                        == Some(TileType::Goal),
                forall|k: int|
                    0 <= k < out@.len() ==> 0 <= (#[trigger] out@[k]).y < y,
                forall|xx: int, yy: int|
                    0 <= yy < y && #[trigger] g.tile_at(xx, yy) == Some(TileType::Goal)
                        ==> exists|k: int|
                        0 <= k < out@.len() && (#[trigger] out@[k]).x == xx && out@[k].y == yy,
                forall|k1: int, k2: int| 0 <= k1 < k2 < out@.len() ==> out@[k1] != out@[k2],
            decreases g.grid_height - y,
        {
            let mut x: i32 = 0;
            while x < self.grid_width
                invariant
                    self@ == g,
                    g.wf(),
                    0 <= x <= g.grid_width,
                    0 <= y < g.grid_height,
                    forall|k: int|
                        0 <= k < out@.len() ==> g.tile_at(
                            (#[trigger] out@[k]).x as int,
                            out@[k].y as int,
                        ) == Some(TileType::Goal),
                    forall|k: int|
                        0 <= k < out@.len() ==> (0 <= (#[trigger] out@[k]).y < y || (out@[k].y == y
                            && 0 <= out@[k].x < x)),
                    forall|xx: int, yy: int|
                        (0 <= yy < y || (yy == y && 0 <= xx < x)) && #[trigger] g.tile_at(xx, yy)
                            == Some(TileType::Goal) ==> exists|k: int|
                            0 <= k < out@.len() && (#[trigger] out@[k]).x == xx && out@[k].y == yy,
                    forall|k1: int, k2: int| 0 <= k1 < k2 < out@.len() ==> out@[k1] != out@[k2],
                decreases g.grid_width - x,
            {
                assert(0 <= y * self.grid_width && y * self.grid_width + x < self.grid_width
                    * self.grid_height && self.grid_width * self.grid_height <= 0x100000)
                    by (nonlinear_arith)
                    requires
                        0 <= x < self.grid_width <= MAX_GRID_DIM,
                        0 <= y < self.grid_height <= MAX_GRID_DIM,
                ;
                let idx: i32 = y * self.grid_width + x;
                let t = self.tiles[idx as usize];
                if matches!(t, TileType::Goal) {
                    let ghost out0 = out@;
                    out.push(GridCoords { x, y });
                    proof {
                        assert forall|xx: int, yy: int|
                            (0 <= yy < y || (yy == y && 0 <= xx < x + 1)) && #[trigger] g.tile_at(
                                xx,
                                yy,
                            ) == Some(TileType::Goal) implies exists|k: int|
                            0 <= k < out@.len() && (#[trigger] out@[k]).x == xx && out@[k].y
                                == yy by {
                            if yy == y && xx == x {
                                assert(out@[out0.len() as int].x == xx && out@[out0.len() as int].y
                                    == yy);
                            } else {
                                let k = choose|k: int|
                                    0 <= k < out0.len() && (#[trigger] out0[k]).x == xx && out0[k].y
                                        == yy;
                                assert(out@[k].x == xx && out@[k].y == yy);
                            }
                        }
                    }
                } else {
                    proof {
                        assert forall|xx: int, yy: int|
                            (0 <= yy < y || (yy == y && 0 <= xx < x + 1)) && #[trigger] g.tile_at(
                                xx,
                                yy,
                            ) == Some(TileType::Goal) implies exists|k: int|
                            0 <= k < out@.len() && (#[trigger] out@[k]).x == xx && out@[k].y
                                == yy by {
                            if yy == y && xx == x {
                                assert(g.tile_at(x as int, y as int) == Some(g.tiles[y * g.grid_width
                                    + x]));
                                assert(false);
                            }
                        }
                    }
                }
                x = x + 1;
            }
            y = y + 1;
        }
        proof {
            assert forall|xx: int, yy: int|
                #[trigger] g.tile_at(xx, yy) == Some(TileType::Goal) implies (0 <= yy
                < g.grid_height && 0 <= xx < g.grid_width) by {}
        }
        out
    }
}

/// One goal tile and whether an occupant currently stands on it.
#[derive(Clone, Copy, Debug, PartialEq, Eq, Structural)]
pub struct Goal {
    /// The goal tile's position within its room.
    pub coords: GridCoords,
    /// Whether the room's occupant currently stands on the goal tile.
    /// Recomputed from positions every tick, never sticky.
    pub activated: bool,
}

/// One spawned room of the active stage.
#[derive(Clone, Debug)]
pub struct RoomState {
    /// The room's current meta-grid position; swaps change it.
    pub level_position: MetaGridCoords,
    /// Whether the room is tinted as recently touched: set when its
    /// follower moves, cleared when that movement's animation ends. The
    /// primary's own room is never dimmed.
    pub is_active: bool,
    /// The room's tiles.
    pub tiles: TileGrid,
    /// The room's occupant, if it has one.
    pub player: Option<Player>,
    /// One entry per goal tile of this room.
    pub goals: Vec<Goal>,
}

/// The mathematical value of a [`RoomState`].
pub struct RoomStateView {
    /// Current meta-grid position.
    pub level_position: MetaGridCoords,
    /// Tinting flag.
    pub is_active: bool,
    /// The room's tiles.
    pub tiles: TileGridView,
    /// The room's occupant, if any.
    pub player: Option<PlayerView>,
    /// One entry per goal tile.
    pub goals: Seq<Goal>,
}

impl View for RoomState {
    type V = RoomStateView;

    open spec fn view(&self) -> RoomStateView {
        RoomStateView {
            level_position: self.level_position,
            is_active: self.is_active,
            tiles: self.tiles@,
            player: match self.player {
                Some(p) => Some(p@),
                None => None,
            },
            goals: self.goals@,
        }
    }
}

impl RoomStateView {
    /// The room's goal entries list exactly the goal tiles of its grid,
    /// each once.
    pub open spec fn goals_match_tiles(self) -> bool {
        &&& forall|k: int|
            0 <= k < self.goals.len() ==> self.tiles.tile_at(
                (#[trigger] self.goals[k]).coords.x as int,
                self.goals[k].coords.y as int,
            ) == Some(TileType::Goal)
        &&& forall|x: int, y: int|
            #[trigger] self.tiles.tile_at(x, y) == Some(TileType::Goal) ==> exists|k: int|
                0 <= k < self.goals.len() && (#[trigger] self.goals[k]).coords.x == x
                    && self.goals[k].coords.y == y
        &&& forall|k1: int, k2: int|
            0 <= k1 < k2 < self.goals.len() ==> (#[trigger] self.goals[k1]).coords != (
            #[trigger] self.goals[k2]).coords
    }

    /// Structural soundness of one room: a sound grid, an occupant that
    /// stands on an existing tile, and goal entries matching the grid.
    pub open spec fn wf(self) -> bool {
        &&& self.tiles.wf()
        &&& self.player matches Some(p) ==> self.tiles.tile_at(
            p.grid_coords.x as int,
            p.grid_coords.y as int,
        ) is Some
        &&& self.goals_match_tiles()
    }
}

impl RoomState {
    /// Assembles a room at its starting position: the goal entries are
    /// derived from the grid with no goal satisfied yet, and the room
    /// starts tinted active exactly when it holds the primary player.
    /// Yields nothing when the occupant stands outside the grid.
    pub fn new(level_position: MetaGridCoords, tiles: TileGrid, player: Option<Player>) -> (r:
        Option<RoomState>)
        requires
            tiles@.wf(),
        ensures
            r matches Some(room) ==> {
                &&& room@.wf()
                &&& room@.level_position == level_position
                &&& room@.tiles == tiles@
                &&& room@.player == (match player {
                    Some(p) => Some(p@),
                    None => None::<PlayerView>,
                })
                &&& room@.is_active == (player matches Some(p) && p@.is_primary)
                &&& forall|k: int|
                    0 <= k < room@.goals.len() ==> !(#[trigger] room@.goals[k]).activated
            },
            r is None <==> (player matches Some(p) && tiles@.tile_at(
                p@.grid_coords.x as int,
                p@.grid_coords.y as int,
            ) is None),
    {
        let is_active: bool = match &player {
            Some(p) => {
                if tiles.get(p.grid_coords).is_none() {
                    return None;
                }
                p.is_primary
            },
            None => false,
        };
        let coords = tiles.goal_coords();
        let mut goals: Vec<Goal> = Vec::new();
        let mut k: usize = 0;
        while k < coords.len()
            invariant
                0 <= k <= coords@.len(),
                goals@.len() == k,
                forall|i: int|
                    0 <= i < k ==> #[trigger] goals@[i] == (Goal {
                        coords: coords@[i],
                        activated: false,
                    }),
            decreases coords@.len() - k,
        {
            goals.push(Goal { coords: coords[k], activated: false });
            k = k + 1;
        }
        let room = RoomState { level_position, is_active, tiles, player, goals };
        proof {
            assert forall|x: int, y: int|
                #[trigger] room@.tiles.tile_at(x, y) == Some(TileType::Goal) implies exists|k: int|
                0 <= k < room@.goals.len() && (#[trigger] room@.goals[k]).coords.x == x
                    && room@.goals[k].coords.y == y by {
                let k = choose|k: int|
                    0 <= k < coords@.len() && (#[trigger] coords@[k]).x == x && coords@[k].y == y;
                assert(room@.goals[k].coords.x == x && room@.goals[k].coords.y == y);
            }
            assert forall|k1: int, k2: int| 0 <= k1 < k2 < room@.goals.len() implies (
            #[trigger] room@.goals[k1]).coords != (#[trigger] room@.goals[k2]).coords by {
                assert(coords@[k1] != coords@[k2]);
            }
        }
        Some(room)
    }
}

/// The stage-advance countdown: once every goal is satisfied it runs down
/// and then requests the next stage.
#[derive(Clone, Copy, Debug, PartialEq, Eq, Structural)]
pub struct LevelSpawnCountdown {
    /// Milliseconds until the next stage loads.
    pub remaining_ms: u32,
    /// The stage to load when the countdown elapses.
    pub level_num: i32,
}

/// The single mutable structure tracking the currently loaded stage.
#[derive(Clone, Debug)]
pub struct ActivePuzzle {
    /// The stage being played.
    pub meta_level: MetaLevel,
    /// The stage's rooms. Indices are stable identifiers for the rooms;
    /// swaps change only their `level_position` fields.
    pub rooms: Vec<RoomState>,
    /// Number of accepted room swaps so far.
    pub move_count: u64,
    /// Directions pressed while the primary was locked, oldest first.
    pub queued_input: QueuedInput,
    /// The pending stage-advance countdown, if one is running.
    pub spawn_countdown: Option<LevelSpawnCountdown>,
}

/// The mathematical value of an [`ActivePuzzle`].
pub struct PuzzleView {
    /// The stage being played.
    pub meta_level: MetaLevel,
    /// The stage's rooms.
    pub rooms: Seq<RoomStateView>,
    /// Number of accepted room swaps so far.
    pub move_count: u64,
    /// Buffered directions, oldest first.
    pub queued_input: Seq<Direction>,
    /// The pending stage-advance countdown, if any.
    pub spawn_countdown: Option<LevelSpawnCountdown>,
}

/// Room `i` of `rooms` holds the primary player.
pub open spec fn primary_in(rooms: Seq<RoomStateView>, i: int) -> bool {
    0 <= i < rooms.len() && (rooms[i].player matches Some(p) && p.is_primary)
}

/// The cross-room conditions of a sound stage: every room sits inside the
/// meta-grid, no two rooms share a position, and exactly one room holds
/// the primary player.
pub open spec fn rooms_placed(meta_level: MetaLevel, rooms: Seq<RoomStateView>) -> bool {
    &&& forall|i: int|
        0 <= i < rooms.len() ==> {
            &&& 0 <= (#[trigger] rooms[i]).level_position.row < meta_level.meta_grid_height
            &&& 0 <= rooms[i].level_position.col < meta_level.meta_grid_width
        }
    &&& forall|i: int, j: int|
        0 <= i < j < rooms.len() ==> (#[trigger] rooms[i]).level_position != (
        #[trigger] rooms[j]).level_position
    &&& exists|i: int| primary_in(rooms, i)
    &&& forall|i: int, j: int| primary_in(rooms, i) && primary_in(rooms, j) ==> i == j
}

/// Placement soundness only depends on room positions and on which room
/// holds the primary player: any room-wise change preserving both
/// preserves it.
pub proof fn lemma_placement_preserved(
    meta_level: MetaLevel,
    r0: Seq<RoomStateView>,
    r1: Seq<RoomStateView>,
)
    requires
        rooms_placed(meta_level, r0),
        r1.len() == r0.len(),
        forall|j: int|
            0 <= j < r0.len() ==> (#[trigger] r1[j]).level_position == r0[j].level_position,
        forall|j: int|
            0 <= j < r0.len() ==> ((#[trigger] r1[j]).player matches Some(p) && p.is_primary) == (
            r0[j].player matches Some(p0) && p0.is_primary),
    ensures
        rooms_placed(meta_level, r1),
{
    let w = choose|k: int| primary_in(r0, k);
    assert(r1[w].level_position == r0[w].level_position);
    assert(primary_in(r1, w));
    assert forall|i: int, j: int| primary_in(r1, i) && primary_in(r1, j) implies i == j by {
        assert((#[trigger] r1[i]).player is Some);
        assert(r1[j].player is Some);
        assert(primary_in(r0, i));
        assert(primary_in(r0, j));
    }
}

impl PuzzleView {
    /// Room `i` holds the primary player.
    pub open spec fn is_primary_room(self, i: int) -> bool {
        primary_in(self.rooms, i)
    }

    /// The index of the room holding the primary player.
    pub open spec fn primary_idx(self) -> int {
        choose|i: int| self.is_primary_room(i)
    }

    /// Structural soundness of the whole stage.
    pub open spec fn wf(self) -> bool {
        &&& self.meta_level.wf()
        &&& forall|i: int| 0 <= i < self.rooms.len() ==> (#[trigger] self.rooms[i]).wf()
        &&& rooms_placed(self.meta_level, self.rooms)
    }
}

impl View for ActivePuzzle {
    type V = PuzzleView;

    open spec fn view(&self) -> PuzzleView {
        PuzzleView {
            meta_level: self.meta_level,
            rooms: self.rooms@.map_values(|r: RoomState| r@),
            move_count: self.move_count,
            queued_input: self.queued_input.0@,
            spawn_countdown: self.spawn_countdown,
        }
    }
}

impl ActivePuzzle {
    /// Assembles the live state of a freshly loaded stage: no swaps
    /// counted yet, no buffered input, no countdown running. Yields
    /// nothing when the rooms are not soundly placed — a room outside the
    /// meta-grid, two rooms sharing a position, or anything other than
    /// exactly one primary player.
    pub fn new(meta_level: MetaLevel, rooms: Vec<RoomState>) -> (r: Option<ActivePuzzle>)
        requires
            meta_level.wf(),
            forall|i: int| 0 <= i < rooms@.len() ==> (#[trigger] rooms@[i])@.wf(),
        ensures
            r matches Some(p) ==> {
                &&& p@.wf()
                &&& p@.meta_level == meta_level
                &&& p@.rooms == rooms@.map_values(|room: RoomState| room@)
                &&& p@.move_count == 0
                &&& p@.queued_input == Seq::<Direction>::empty()
                &&& p@.spawn_countdown is None
            },
            r is None <==> !rooms_placed(meta_level, rooms@.map_values(|room: RoomState| room@)),
    {
        let ghost rv = rooms@.map_values(|room: RoomState| room@);
        proof {
            assert forall|k: int| 0 <= k < rv.len() implies (#[trigger] rv[k]) == rooms@[k]@ by {}
        }
        // every room inside the meta-grid
        let mut i: usize = 0;
        while i < rooms.len()
            invariant
                rv == rooms@.map_values(|room: RoomState| room@),
                meta_level.wf(),
                0 <= i <= rooms@.len(),
                forall|k: int|
                    0 <= k < i ==> {
                        &&& 0 <= (#[trigger] rv[k]).level_position.row < meta_level.meta_grid_height
                        &&& 0 <= rv[k].level_position.col < meta_level.meta_grid_width
                    },
            decreases rooms@.len() - i,
        {
            let pos = rooms[i].level_position;
            if pos.row < 0 || pos.row >= meta_level.meta_grid_height || pos.col < 0 || pos.col
                >= meta_level.meta_grid_width {
                proof {
                    assert(rv[i as int] == rooms@[i as int]@);
                    assert(rv[i as int].level_position == pos);
                }
                return None;
            }
            i = i + 1;
        }
        // no two rooms share a position
        let mut i: usize = 0;
        while i < rooms.len()
            invariant
                rv == rooms@.map_values(|room: RoomState| room@),
                0 <= i <= rooms@.len(),
                forall|k1: int, k2: int|
                    0 <= k1 < k2 < rooms@.len() && k1 < i ==> (#[trigger] rv[k1]).level_position
                        != (#[trigger] rv[k2]).level_position,
            decreases rooms@.len() - i,
        {
            let mut j: usize = i + 1;
            while j < rooms.len()
                invariant
                    rv == rooms@.map_values(|room: RoomState| room@),
                    0 <= i < j <= rooms@.len(),
                    forall|k2: int|
                        i < k2 < j ==> (#[trigger] rv[k2]).level_position != rv[i as int].level_position,
                decreases rooms@.len() - j,
            {
                if rooms[j].level_position == rooms[i].level_position {
                    proof {
                        assert(rv[i as int] == rooms@[i as int]@);
                        assert(rv[j as int] == rooms@[j as int]@);
                        assert(rv[i as int].level_position == rv[j as int].level_position);
                    }
                    return None;
                }
                j = j + 1;
            }
            i = i + 1;
        }
        // exactly one primary player
        let mut primary: Option<usize> = None;
        let mut i: usize = 0;
        while i < rooms.len()
            invariant
                rv == rooms@.map_values(|room: RoomState| room@),
                0 <= i <= rooms@.len(),
                primary matches Some(pi) ==> primary_in(rv, pi as int) && pi < i,
                primary matches Some(pi) ==> forall|k: int|
                    0 <= k < i && k != pi ==> !primary_in(rv, k),
                primary is None ==> forall|k: int| 0 <= k < i ==> !primary_in(rv, k),
            decreases rooms@.len() - i,
        {
            let has_primary: bool = match &rooms[i].player {
                Some(p) => p.is_primary,
                None => false,
            };
            if has_primary {
                if primary.is_some() {
                    proof {
                        assert(rv[i as int] == rooms@[i as int]@);
                        assert(primary_in(rv, i as int));
                        let pi = primary->0;
                        assert(primary_in(rv, pi as int) && pi as int != i as int);
                    }
                    return None;
                }
                primary = Some(i);
                proof {
                    assert(rv[i as int] == rooms@[i as int]@);
                    assert(primary_in(rv, i as int));
                }
            }
            i = i + 1;
        }
        if primary.is_none() {
            return None;
        }
        let p = ActivePuzzle {
            meta_level,
            rooms,
            move_count: 0,
            queued_input: QueuedInput(VecDeque::new()),
            spawn_countdown: None,
        };
        proof {
            assert(p@.queued_input =~= Seq::<Direction>::empty());
        }
        Some(p)
    }

    /// The number of rooms in the stage.
    pub fn room_count(&self) -> (r: usize)
        ensures
            r == self@.rooms.len(),
    {
        self.rooms.len()
    }

    /// The index of the room currently at `coords`, if any.
    pub fn room_at(&self, coords: MetaGridCoords) -> (r: Option<usize>)
        ensures
            r matches Some(i) ==> i < self@.rooms.len() && self@.rooms[i as int].level_position
                == coords,
            r is None ==> forall|i: int|
                0 <= i < self@.rooms.len() ==> (#[trigger] self@.rooms[i]).level_position != coords,
    {
        let ghost rv = self@.rooms;
        let mut i: usize = 0;
        while i < self.rooms.len()
            invariant
                rv == self@.rooms,
                0 <= i <= rv.len(),
                forall|k: int| 0 <= k < i ==> (#[trigger] rv[k]).level_position != coords,
            decreases rv.len() - i,
        {
            if self.rooms[i].level_position == coords {
                return Some(i);
            }
            i = i + 1;
        }
        None
    }

    /// The indices of the rooms whose positions neighbor `coords`, in
    /// ascending order.
    pub fn neighbors_of(&self, coords: MetaGridCoords) -> (r: Vec<usize>)
        ensures
            forall|k: int|
                0 <= k < r@.len() ==> (#[trigger] r@[k]) < self@.rooms.len()
                    && self@.rooms[r@[k] as int].level_position.spec_is_neighbor(coords),
            forall|i: int|
                0 <= i < self@.rooms.len() && (
                #[trigger] self@.rooms[i]).level_position.spec_is_neighbor(coords) ==> exists|k: int|
                    0 <= k < r@.len() && r@[k] == i,
            forall|k1: int, k2: int| 0 <= k1 < k2 < r@.len() ==> r@[k1] < r@[k2],
    {
        let ghost rv = self@.rooms;
        let mut out: Vec<usize> = Vec::new();
        let mut i: usize = 0;
        while i < self.rooms.len()
            invariant
                rv == self@.rooms,
                0 <= i <= rv.len(),
                forall|k: int|
                    0 <= k < out@.len() ==> (#[trigger] out@[k]) < i
                        && rv[out@[k] as int].level_position.spec_is_neighbor(coords),
                forall|j: int|
                    0 <= j < i && (#[trigger] rv[j]).level_position.spec_is_neighbor(coords)
                        ==> exists|k: int| 0 <= k < out@.len() && out@[k] == j,
                forall|k1: int, k2: int| 0 <= k1 < k2 < out@.len() ==> out@[k1] < out@[k2],
            decreases rv.len() - i,
        {
            if self.rooms[i].level_position.is_neighbor(coords) {
                let ghost out0 = out@;
                out.push(i);
                proof {
                    assert forall|j: int|
                        0 <= j < i + 1 && (#[trigger] rv[j]).level_position.spec_is_neighbor(
                            coords,
                        ) implies exists|k: int| 0 <= k < out@.len() && out@[k] == j by {
                        if j < i {
                            let k = choose|k: int| 0 <= k < out0.len() && out0[k] == j;
                            assert(out@[k] == j);
                        } else {
                            assert(out@[out0.len() as int] == i);
                        }
                    }
                }
            }
            i = i + 1;
        }
        out
    }

    /// Whether room `room_index` is rendered dimmed: a room is dimmed
    /// exactly when it is not tinted active, except that the primary
    /// player's own room is never dimmed.
    pub fn room_is_dimmed(&self, room_index: usize) -> (r: bool)
        requires
            self@.wf(),
            room_index < self@.rooms.len(),
        ensures
            r == (room_index as int != self@.primary_idx()
                && !self@.rooms[room_index as int].is_active),
    {
        let pidx = self.find_primary();
        proof {
            crate::player::lemma_room_views(self.rooms@, self@.rooms);
        }
        room_index != pidx && !self.rooms[room_index].is_active
    }

    /// Tints room `room_index` as recently touched.
    pub fn mark_active(&mut self, room_index: usize)
        requires
            room_index < old(self)@.rooms.len(),
        ensures
            final(self)@ == (PuzzleView {
                rooms: old(self)@.rooms.update(
                    room_index as int,
                    RoomStateView {
                        is_active: true,
                        ..old(self)@.rooms[room_index as int]
                    },
                ),
                ..old(self)@
            }),
    {
        let room = crate::util::vec_index_mut(&mut self.rooms, room_index);
        room.is_active = true;
        proof {
            assert(self@.rooms =~= old(self)@.rooms.update(
                room_index as int,
                RoomStateView { is_active: true, ..old(self)@.rooms[room_index as int] },
            ));
        }
    }

    /// Clears room `room_index`'s recently-touched tint.
    pub fn clear_active(&mut self, room_index: usize)
        requires
            room_index < old(self)@.rooms.len(),
        ensures
            final(self)@ == (PuzzleView {
                rooms: old(self)@.rooms.update(
                    room_index as int,
                    RoomStateView {
                        is_active: false,
                        ..old(self)@.rooms[room_index as int]
                    },
                ),
                ..old(self)@
            }),
    {
        let room = crate::util::vec_index_mut(&mut self.rooms, room_index);
        room.is_active = false;
        proof {
            assert(self@.rooms =~= old(self)@.rooms.update(
                room_index as int,
                RoomStateView { is_active: false, ..old(self)@.rooms[room_index as int] },
            ));
        }
    }
}

/// One goal flag recomputed from the current occupant position: active
/// exactly when the occupant stands on the goal tile.
pub open spec fn goal_recomputed(g: Goal, player: Option<PlayerView>) -> Goal {
    Goal { coords: g.coords, activated: player matches Some(p) && p.grid_coords == g.coords }
}

/// A room with every goal flag recomputed from its occupant's position.
pub open spec fn room_goals_recomputed(room: RoomStateView) -> RoomStateView {
    RoomStateView {
        goals: room.goals.map_values(|g: Goal| goal_recomputed(g, room.player)),
        ..room
    }
}

/// The stage with every goal flag recomputed. Goal satisfaction is a pure
/// function of current occupant positions: stepping onto a goal sets its
/// flag at the next recompute, stepping off clears it again.
pub open spec fn spec_update_goals(v: PuzzleView) -> PuzzleView {
    PuzzleView { rooms: v.rooms.map_values(|room: RoomStateView| room_goals_recomputed(room)), ..v }
}

/// At least one goal tile exists somewhere in the stage.
pub open spec fn has_goal(rooms: Seq<RoomStateView>) -> bool {
    exists|i: int| 0 <= i < rooms.len() && (#[trigger] rooms[i]).goals.len() > 0
}

/// Every goal flag across every room is set.
pub open spec fn all_goals_activated(rooms: Seq<RoomStateView>) -> bool {
    forall|i: int, k: int|
        0 <= i < rooms.len() && 0 <= k < rooms[i].goals.len() ==> (
        #[trigger] rooms[i].goals[k]).activated
}

/// The stage after the completion check: when no countdown is pending and
/// every goal of a stage that has goals is satisfied, the stage-advance
/// countdown starts, aimed at the next stage number.
pub open spec fn spec_check_goals(v: PuzzleView) -> PuzzleView {
    if v.spawn_countdown is None && has_goal(v.rooms) && all_goals_activated(v.rooms) {
        PuzzleView {
            spawn_countdown: Some(
                LevelSpawnCountdown {
                    remaining_ms: LEVEL_SPAWN_DELAY_MS,
                    level_num: (v.meta_level.level_num + 1) as i32,
                },
            ),
            ..v
        }
    } else {
        v
    }
}

/// The stage after `dt` milliseconds of countdown: a pending countdown
/// with at most that much left fires and is cleared, a longer one runs
/// down.
pub open spec fn spec_countdown_state(v: PuzzleView, dt: u32) -> PuzzleView {
    match v.spawn_countdown {
        Option::None => v,
        Option::Some(c) => if c.remaining_ms <= dt {
            PuzzleView { spawn_countdown: None, ..v }
        } else {
            PuzzleView {
                spawn_countdown: Some(
                    LevelSpawnCountdown {
                        remaining_ms: (c.remaining_ms - dt) as u32,
                        level_num: c.level_num,
                    },
                ),
                ..v
            }
        },
    }
}

/// The stage the countdown requests after `dt` milliseconds, if it fires.
pub open spec fn spec_countdown_fires(v: PuzzleView, dt: u32) -> Option<i32> {
    match v.spawn_countdown {
        Option::None => None,
        Option::Some(c) => if c.remaining_ms <= dt {
            Some(c.level_num)
        } else {
            None
        },
    }
}

/// The stage after one full tick of `dt` milliseconds, in the fixed
/// order: animation clocks run, release delays run, one buffered input
/// replays if the primary came free, goal flags recompute, the pending
/// countdown runs, and — only when no countdown was already pending — the
/// completion check may start a new one.
pub open spec fn spec_tick_state(v: PuzzleView, dt: u32) -> PuzzleView {
    let v4 = spec_update_goals(spec_replay(spec_process_queued(spec_unlock(v, dt), dt)));
    let v5 = spec_countdown_state(v4, dt);
    if v4.spawn_countdown is None {
        spec_check_goals(v5)
    } else {
        v5
    }
}

/// The stage number the tick requests to load, if its countdown fired.
pub open spec fn spec_tick_fires(v: PuzzleView, dt: u32) -> Option<i32> {
    spec_countdown_fires(
        spec_update_goals(spec_replay(spec_process_queued(spec_unlock(v, dt), dt))),
        dt,
    )
}

/// Goal satisfaction is a pure function of current occupant positions:
/// two rooms with the same occupant position and the same goal tiles get
/// identical flags from a recompute, whatever flags they held before —
/// satisfaction is never sticky.
pub proof fn lemma_goal_recompute_is_pure(r1: RoomStateView, r2: RoomStateView)
    requires
        r1.player is Some <==> r2.player is Some,
        r1.player matches Some(p1) ==> (r2.player matches Some(p2) && p1.grid_coords
            == p2.grid_coords),
        r1.goals.len() == r2.goals.len(),
        forall|k: int|
            0 <= k < r1.goals.len() ==> (#[trigger] r1.goals[k]).coords == r2.goals[k].coords,
    ensures
        room_goals_recomputed(r1).goals == room_goals_recomputed(r2).goals,
{
    assert forall|k: int| 0 <= k < r1.goals.len() implies #[trigger] room_goals_recomputed(
        r1,
    ).goals[k] == room_goals_recomputed(r2).goals[k] by {
        assert(room_goals_recomputed(r1).goals[k] == goal_recomputed(r1.goals[k], r1.player));
        assert(room_goals_recomputed(r2).goals[k] == goal_recomputed(r2.goals[k], r2.player));
    }
    assert(room_goals_recomputed(r1).goals =~= room_goals_recomputed(r2).goals);
}

/// The stage-advance countdown starts during a tick only when no
/// countdown was already pending and, after the tick's own goal
/// recompute, the stage has goals and every one of them is
/// simultaneously satisfied.
pub proof fn lemma_countdown_starts_only_when_complete(v: PuzzleView, dt: u32)
    requires
        v.spawn_countdown is None,
    ensures
        ({
            let v4 = spec_update_goals(spec_replay(spec_process_queued(spec_unlock(v, dt), dt)));
            spec_tick_state(v, dt).spawn_countdown is Some ==> has_goal(v4.rooms)
                && all_goals_activated(v4.rooms)
        }),
{
    let v1 = spec_unlock(v, dt);
    let v2 = spec_process_queued(v1, dt);
    let v3 = spec_replay(v2);
    let v4 = spec_update_goals(v3);
    assert(v1.spawn_countdown is None);
    assert(v2.spawn_countdown is None);
    assert(v3.spawn_countdown is None);
    assert(v4.spawn_countdown is None);
    assert(spec_countdown_state(v4, dt) == v4);
}

/// Each tick consumes exactly one buffered input direction — the oldest —
/// when the primary player is free once animations have advanced and the
/// buffer is not empty; otherwise the tick leaves the buffer unchanged.
/// No phase of the tick discards buffered input.
pub proof fn lemma_tick_consumes_one_queued_input(v: PuzzleView, dt: u32)
    ensures
        ({
            let v2 = spec_process_queued(spec_unlock(v, dt), dt);
            let free = v2.rooms[v2.primary_idx()].player->0.moving_ms is None;
            &&& (free && v2.queued_input.len() > 0) ==> spec_tick_state(v, dt).queued_input
                == v.queued_input.drop_first()
            &&& !(free && v2.queued_input.len() > 0) ==> spec_tick_state(v, dt).queued_input
                == v.queued_input
        }),
{
    let v1 = spec_unlock(v, dt);
    let v2 = spec_process_queued(v1, dt);
    let v3 = spec_replay(v2);
    assert(v2.queued_input == v.queued_input);
    assert(spec_update_goals(v3).queued_input == v3.queued_input);
}

/// Goal entries matching the grid only depend on the goals' coordinates
/// and the grid: recomputing the flags preserves the match.
proof fn lemma_goals_match_preserved(r0: RoomStateView, r1: RoomStateView)
    requires
        r0.goals_match_tiles(),
        r1.tiles == r0.tiles,
        r1.goals.len() == r0.goals.len(),
        forall|k: int| 0 <= k < r0.goals.len() ==> (#[trigger] r1.goals[k]).coords == r0.goals[k].coords,
    ensures
        r1.goals_match_tiles(),
{
    assert forall|x: int, y: int|
        #[trigger] r1.tiles.tile_at(x, y) == Some(TileType::Goal) implies exists|k: int|
        0 <= k < r1.goals.len() && (#[trigger] r1.goals[k]).coords.x == x && r1.goals[k].coords.y
            == y by {
        let k = choose|k: int|
            0 <= k < r0.goals.len() && (#[trigger] r0.goals[k]).coords.x == x && r0.goals[k].coords.y
                == y;
        assert(r1.goals[k].coords == r0.goals[k].coords);
    }
}

impl ActivePuzzle {
    /// Recomputes every goal flag from the current occupant positions:
    /// a goal is satisfied exactly while its room's occupant stands on
    /// it, so satisfaction is never sticky.
    pub fn update_goal_tile_status(&mut self)
        requires
            old(self)@.wf(),
        ensures
            final(self)@ == spec_update_goals(old(self)@),
            final(self)@.wf(),
    {
        let ghost v0 = self@;
        proof {
            crate::player::lemma_room_views(self.rooms@, self@.rooms);
        }
        let mut i: usize = 0;
        while i < self.rooms.len()
            invariant
                0 <= i <= self@.rooms.len(),
                self@.rooms.len() == v0.rooms.len(),
                v0.wf(),
                self@.meta_level == v0.meta_level,
                self@.move_count == v0.move_count,
                self@.queued_input == v0.queued_input,
                self@.spawn_countdown == v0.spawn_countdown,
                forall|j: int|
                    0 <= j < i ==> #[trigger] self@.rooms[j] == room_goals_recomputed(v0.rooms[j]),
                forall|j: int|
                    i <= j < v0.rooms.len() ==> #[trigger] self@.rooms[j] == v0.rooms[j],
            decreases v0.rooms.len() - i,
        {
            let ghost before = self@;
            proof {
                crate::player::lemma_room_views(self.rooms@, before.rooms);
            }
            let room = vec_index_mut(&mut self.rooms, i);
            let ppos: Option<GridCoords> = match &room.player {
                Some(p) => Some(p.grid_coords),
                None => None,
            };
            let ghost g0 = room.goals@;
            let ghost pv = before.rooms[i as int].player;
            let mut newgoals: Vec<Goal> = Vec::new();
            let mut k: usize = 0;
            while k < room.goals.len()
                invariant
                    g0 == room.goals@,
                    pv == (match room.player {
                        Some(p) => Some(p@),
                        None => None::<PlayerView>,
                    }),
                    ppos == (match pv {
                        Some(p) => Some(p.grid_coords),
                        None => None::<GridCoords>,
                    }),
                    0 <= k <= g0.len(),
                    newgoals@.len() == k,
                    forall|j: int|
                        0 <= j < k ==> #[trigger] newgoals@[j] == goal_recomputed(g0[j], pv),
                decreases g0.len() - k,
            {
                let coords = room.goals[k].coords;
                let activated: bool = match ppos {
                    Some(c) => c == coords,
                    None => false,
                };
                newgoals.push(Goal { coords, activated });
                k = k + 1;
            }
            room.goals = newgoals;
            proof {
                crate::player::lemma_room_views(self.rooms@, self@.rooms);
                assert(self@.rooms[i as int] == self.rooms@[i as int]@);
                assert(self@.rooms[i as int].goals =~= before.rooms[i as int].goals.map_values(
                    |g: Goal| goal_recomputed(g, pv),
                ));
                assert(self@.rooms[i as int] == room_goals_recomputed(v0.rooms[i as int]));
                assert forall|j: int|
                    0 <= j < self@.rooms.len() && j != i implies #[trigger] self@.rooms[j]
                    == before.rooms[j] by {
                    assert(self@.rooms[j] == self.rooms@[j]@);
                }
            }
            i = i + 1;
        }
        proof {
            assert(self@.rooms =~= spec_update_goals(v0).rooms);
            assert(self@ == spec_update_goals(v0));
            assert forall|j: int| 0 <= j < self@.rooms.len() implies (
            #[trigger] self@.rooms[j]).wf() by {
                assert(self@.rooms[j] == room_goals_recomputed(v0.rooms[j]));
                assert(v0.rooms[j].wf());
                lemma_goals_match_preserved(v0.rooms[j], self@.rooms[j]);
            }
            assert forall|j: int|
                0 <= j < self@.rooms.len() implies (#[trigger] self@.rooms[j]).level_position
                == v0.rooms[j].level_position && ((self@.rooms[j].player matches Some(p)
                && p.is_primary) == (v0.rooms[j].player matches Some(p0) && p0.is_primary)) by {}
            lemma_placement_preserved(v0.meta_level, v0.rooms, self@.rooms);
        }
    }

    /// Starts the stage-advance countdown when the stage has goals and
    /// all of them are simultaneously satisfied, aimed at the next stage
    /// number — unless a countdown is already pending, in which case
    /// nothing changes.
    pub fn check_all_goal_tiles(&mut self)
        requires
            old(self)@.wf(),
        ensures
            final(self)@ == spec_check_goals(old(self)@),
            final(self)@.wf(),
    {
        let ghost v0 = self@;
        if self.spawn_countdown.is_some() {
            return;
        }
        proof {
            crate::player::lemma_room_views(self.rooms@, self@.rooms);
        }
        let mut has: bool = false;
        let mut all: bool = true;
        let mut i: usize = 0;
        while i < self.rooms.len()
            invariant
                self@ == v0,
                0 <= i <= v0.rooms.len(),
                forall|j: int| 0 <= j < v0.rooms.len() ==> #[trigger] v0.rooms[j]
                    == self.rooms@[j]@,
                has == exists|j: int| 0 <= j < i && (#[trigger] v0.rooms[j]).goals.len() > 0,
                all == forall|j: int, k: int|
                    0 <= j < i && 0 <= k < v0.rooms[j].goals.len() ==> (
                    #[trigger] v0.rooms[j].goals[k]).activated,
            decreases v0.rooms.len() - i,
        {
            let ghost has0 = has;
            let ghost all0 = all;
            if self.rooms[i].goals.len() > 0 {
                has = true;
            }
            let mut k: usize = 0;
            while k < self.rooms[i].goals.len()
                invariant
                    self@ == v0,
                    0 <= i < v0.rooms.len(),
                    forall|j: int| 0 <= j < v0.rooms.len() ==> #[trigger] v0.rooms[j]
                        == self.rooms@[j]@,
                    all0 == forall|j: int, k2: int|
                        0 <= j < i && 0 <= k2 < v0.rooms[j].goals.len() ==> (
                        #[trigger] v0.rooms[j].goals[k2]).activated,
                    0 <= k <= v0.rooms[i as int].goals.len(),
                    all == (all0 && forall|k2: int|
                        0 <= k2 < k ==> (#[trigger] v0.rooms[i as int].goals[k2]).activated),
                decreases v0.rooms[i as int].goals.len() - k,
            {
                if !self.rooms[i].goals[k].activated {
                    all = false;
                }
                k = k + 1;
            }
            proof {
                if has0 {
                    let j = choose|j: int| 0 <= j < i && (#[trigger] v0.rooms[j]).goals.len() > 0;
                    assert(0 <= j < i + 1 && v0.rooms[j].goals.len() > 0);
                }
                if v0.rooms[i as int].goals.len() > 0 {
                    assert(0 <= (i as int) < i + 1 && v0.rooms[i as int].goals.len() > 0);
                }
                if !has0 && v0.rooms[i as int].goals.len() == 0 {
                    assert forall|j: int|
                        0 <= j < i + 1 implies !((#[trigger] v0.rooms[j]).goals.len() > 0) by {}
                }
                assert(all == (forall|j: int, k2: int|
                    0 <= j < i + 1 && 0 <= k2 < v0.rooms[j].goals.len() ==> (
                    #[trigger] v0.rooms[j].goals[k2]).activated)) by {
                    if all {
                        assert forall|j: int, k2: int|
                            0 <= j < i + 1 && 0 <= k2 < v0.rooms[j].goals.len() implies (
                            #[trigger] v0.rooms[j].goals[k2]).activated by {}
                    }
                }
            }
            i = i + 1;
        }
        proof {
            assert(has == has_goal(v0.rooms));
            assert(all == all_goals_activated(v0.rooms)) by {
                if all {
                    assert forall|j: int, k2: int|
                        0 <= j < v0.rooms.len() && 0 <= k2 < v0.rooms[j].goals.len() implies (
                        #[trigger] v0.rooms[j].goals[k2]).activated by {}
                }
            }
        }
        if has && all {
            self.spawn_countdown = Some(
                LevelSpawnCountdown {
                    remaining_ms: LEVEL_SPAWN_DELAY_MS,
                    level_num: self.meta_level.level_num + 1,
                },
            );
        }
    }

    /// Runs `delta_ms` of the stage-advance countdown: when it elapses it
    /// fires once, clearing itself and yielding the stage to load.
    pub fn level_countdown_timer(&mut self, delta_ms: u32) -> (advance: Option<i32>)
        requires
            old(self)@.wf(),
        ensures
            final(self)@ == spec_countdown_state(old(self)@, delta_ms),
            advance == spec_countdown_fires(old(self)@, delta_ms),
            final(self)@.wf(),
    {
        match self.spawn_countdown {
            Some(c) => {
                if c.remaining_ms <= delta_ms {
                    self.spawn_countdown = None;
                    Some(c.level_num)
                } else {
                    self.spawn_countdown = Some(
                        LevelSpawnCountdown {
                            remaining_ms: c.remaining_ms - delta_ms,
                            level_num: c.level_num,
                        },
                    );
                    None
                }
            },
            None => None,
        }
    }

    /// One discrete frame of `delta_ms` milliseconds, in a fixed order:
    /// animation clocks advance (movement locks may clear), release
    /// delays advance (pending movements may start animating), one
    /// buffered input replays if the primary came free, goal flags are
    /// recomputed from positions, the pending countdown runs — firing
    /// yields the stage number to load next — and, when no countdown was
    /// already pending, the completion check may start one.
    pub fn tick(&mut self, delta_ms: u32) -> (advance: Option<i32>)
        requires
            old(self)@.wf(),
        ensures
            final(self)@ == spec_tick_state(old(self)@, delta_ms),
            advance == spec_tick_fires(old(self)@, delta_ms),
            final(self)@.wf(),
    {
        self.unlock_player_movement(delta_ms);
        self.process_queued_movement(delta_ms);
        self.replay_queued_input();
        self.update_goal_tile_status();
        let had_countdown = self.spawn_countdown.is_some();
        let advance = self.level_countdown_timer(delta_ms);
        if !had_countdown {
            self.check_all_goal_tiles();
        }
        advance
    }
}

} // verus!
