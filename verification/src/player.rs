//! Occupants and their movement state: the direction type, the per-player
//! queue of pending staggered movements, the movement lock that models an
//! animation in progress, and the buffer of directions pressed while the
//! primary player was locked.

use crate::level::{GridCoords, TileType};
use crate::puzzle::{ActivePuzzle, PuzzleView, RoomState, RoomStateView};
use crate::util::vec_index_mut;
use std::collections::VecDeque;
use vstd::prelude::*;

verus! {

/// How long one movement animation plays, in milliseconds.
pub const MOVEMENT_TIME_MS: u32 = 100;

/// How long a neighboring room's follower waits before its copy of the
/// primary's move starts, in milliseconds.
pub const NEIGHBOR_DELAY_MS: u32 = 75;

/// One of the four movement directions.
#[derive(Clone, Copy, Debug, PartialEq, Eq, Structural)]
pub enum Direction {
    /// Toward larger local `y`.
    Up,
    /// Toward smaller local `y`.
    Down,
    /// Toward smaller local `x`.
    Left,
    /// Toward larger local `x`.
    Right,
}

impl Direction {
    /// The unit step of this direction in local grid units: up increases
    /// `y`, right increases `x`.
    pub open spec fn spec_unit(self) -> (int, int) {
        match self {
            Direction::Up => (0int, 1int),
            Direction::Down => (0int, -1int),
            Direction::Right => (1int, 0int),
            Direction::Left => (-1int, 0int),
        }
    }

    /// One step in this direction, in local grid units.
    pub fn unit_grid_coords(&self) -> (r: GridCoords)
        ensures
            (r.x as int, r.y as int) == self.spec_unit(),
    {
        match self {
            Direction::Up => GridCoords { x: 0, y: 1 },
            Direction::Down => GridCoords { x: 0, y: -1 },
            Direction::Right => GridCoords { x: 1, y: 0 },
            Direction::Left => GridCoords { x: -1, y: 0 },
        }
    }

    /// One step in this direction, in pixels.
    pub fn unit_vec(&self) -> (r: (i32, i32))
        ensures
            r.0 == self.spec_unit().0 * crate::GRID_SIZE,
            r.1 == self.spec_unit().1 * crate::GRID_SIZE,
    {
        match self {
            Direction::Up => (0, crate::GRID_SIZE),
            Direction::Down => (0, -crate::GRID_SIZE),
            Direction::Right => (crate::GRID_SIZE, 0),
            Direction::Left => (-crate::GRID_SIZE, 0),
        }
    }
}

/// A movement that has been accepted but whose animation has not started
/// yet: it fires once its release delay has elapsed.
#[derive(Clone, Copy, Debug, PartialEq, Eq, Structural)]
pub struct QueuedMovement {
    /// The direction the accepted move goes.
    pub direction: Direction,
    /// Milliseconds until the movement's animation starts.
    pub delay_ms: u32,
}

/// The pending movements of one player, in acceptance order.
#[derive(Clone, Debug)]
pub struct QueuedMovements(pub VecDeque<QueuedMovement>);

/// Directions the primary player pressed while its movement lock was set;
/// they replay one per tick once the lock clears, oldest first.
#[derive(Clone, Debug)]
pub struct QueuedInput(pub VecDeque<Direction>);

/// One room's movable character.
#[derive(Clone, Debug)]
pub struct Player {
    /// The player's authoritative tile position within its room. It is
    /// updated the instant a move is accepted, independent of animation.
    pub grid_coords: GridCoords,
    /// Whether this is the single player that receives direct input.
    pub is_primary: bool,
    /// `Some(remaining)` while a movement animation is playing, with the
    /// milliseconds it still takes; `None` when the player is free.
    pub moving_ms: Option<u32>,
    /// Accepted movements whose animations have not started yet.
    pub queued_movements: QueuedMovements,
}

/// The mathematical value of a [`Player`].
pub struct PlayerView {
    /// Authoritative tile position.
    pub grid_coords: GridCoords,
    /// Whether this player receives direct input.
    pub is_primary: bool,
    /// Remaining animation time, if one is playing.
    pub moving_ms: Option<u32>,
    /// Pending movements, oldest first.
    pub queued_movements: Seq<QueuedMovement>,
}

impl View for Player {
    type V = PlayerView;

    open spec fn view(&self) -> PlayerView {
        PlayerView {
            grid_coords: self.grid_coords,
            is_primary: self.is_primary,
            moving_ms: self.moving_ms,
            queued_movements: self.queued_movements.0@,
        }
    }
}

impl Player {
    /// A freshly spawned player standing at `grid_coords`, free to move,
    /// with nothing queued.
    pub fn new(grid_coords: GridCoords, is_primary: bool) -> (r: Player)
        ensures
            r@ == (PlayerView {
                grid_coords,
                is_primary,
                moving_ms: None::<u32>,
                queued_movements: Seq::<QueuedMovement>::empty(),
            }),
    {
        let r = Player {
            grid_coords,
            is_primary,
            moving_ms: None,
            queued_movements: QueuedMovements(VecDeque::new()),
        };
        proof {
            assert(r@.queued_movements =~= Seq::<QueuedMovement>::empty());
        }
        r
    }

    /// Whether the player's movement lock is set: an animation is playing.
    pub fn is_moving(&self) -> (r: bool)
        ensures
            r == (self@.moving_ms is Some),
    {
        self.moving_ms.is_some()
    }
}

/// The tile one step in `direction` from `pos`.
pub open spec fn target_of(pos: GridCoords, direction: Direction) -> (int, int) {
    (pos.x + direction.spec_unit().0, pos.y + direction.spec_unit().1)
}

/// Whether the room's occupant can make one step in `direction`: the room
/// has an occupant and the tile it would step onto exists and is passable.
/// A step onto a wall, a boundary tile or out of the grid is rejected.
pub open spec fn room_can_move(room: RoomStateView, direction: Direction) -> bool {
    &&& room.player is Some
    &&& {
        let t = target_of(room.player->0.grid_coords, direction);
        room.tiles.tile_at(t.0, t.1) matches Some(tt) && tt.is_passable()
    }
}

/// The occupant after an accepted step: its authoritative position moves
/// one tile at once, and a movement with the given release delay joins its
/// queue. The movement lock is untouched — animation is cosmetic and lags.
pub open spec fn player_after_move(p: PlayerView, direction: Direction, delay_ms: u32) -> PlayerView {
    PlayerView {
        grid_coords: GridCoords {
            x: (p.grid_coords.x + direction.spec_unit().0) as i32,
            y: (p.grid_coords.y + direction.spec_unit().1) as i32,
        },
        queued_movements: p.queued_movements.push(QueuedMovement { direction, delay_ms }),
        ..p
    }
}

/// The room after its occupant's accepted step; `mark` tints the room as
/// recently touched, which follower rooms are and the primary's is not.
pub open spec fn room_after_move(
    room: RoomStateView,
    direction: Direction,
    delay_ms: u32,
    mark: bool,
) -> RoomStateView {
    RoomStateView {
        player: Some(player_after_move(room.player->0, direction, delay_ms)),
        is_active: if mark {
            true
        } else {
            room.is_active
        },
        ..room
    }
}

/// One resolved move request: nothing changes when the primary's own room
/// rejects the step; otherwise the primary's room moves with no delay, and
/// every current geometric neighbor of the primary's room whose occupant
/// passes the identical, independent check moves with the follower delay
/// and is tinted active. Non-neighboring rooms are untouched.
pub open spec fn rooms_after_try_move(
    rooms: Seq<RoomStateView>,
    pidx: int,
    direction: Direction,
) -> Seq<RoomStateView> {
    if !room_can_move(rooms[pidx], direction) {
        rooms
    } else {
        rooms.map(
            |i: int, room: RoomStateView|
                if i == pidx {
                    room_after_move(room, direction, 0, false)
                } else if room.level_position.spec_is_neighbor(rooms[pidx].level_position)
                    && room_can_move(room, direction) {
                    room_after_move(room, direction, NEIGHBOR_DELAY_MS, true)
                } else {
                    room
                },
        )
    }
}

/// One resolved move request on the whole stage.
pub open spec fn spec_try_move(v: PuzzleView, direction: Direction) -> PuzzleView {
    PuzzleView { rooms: rooms_after_try_move(v.rooms, v.primary_idx(), direction), ..v }
}

/// Bridges the stage view to the per-room views: indexing the mapped room
/// sequence is indexing the room vector and taking the view.
pub proof fn lemma_room_views(rooms: Seq<RoomState>, mapped: Seq<RoomStateView>)
    requires
        mapped == rooms.map_values(|r: RoomState| r@),
    ensures
        mapped.len() == rooms.len(),
        forall|j: int| 0 <= j < rooms.len() ==> #[trigger] mapped[j] == rooms[j]@,
{
}

/// The player after `dt` milliseconds of animation clock: a lock with at
/// most `dt` left clears, a longer one runs down.
pub open spec fn player_after_unlock(p: PlayerView, dt: u32) -> PlayerView {
    match p.moving_ms {
        Option::None => p,
        Option::Some(rem) => if rem <= dt {
            PlayerView { moving_ms: None, ..p }
        } else {
            PlayerView { moving_ms: Some((rem - dt) as u32), ..p }
        },
    }
}

/// Whether the player's movement lock clears within `dt` milliseconds.
pub open spec fn unlocks_within(p: PlayerView, dt: u32) -> bool {
    p.moving_ms matches Some(rem) && rem <= dt
}

/// The room after `dt` milliseconds of animation clock: its occupant's
/// lock runs down, and a follower room whose animation just finished
/// loses its recently-touched tint. The primary's room keeps its tint.
pub open spec fn room_after_unlock(room: RoomStateView, dt: u32) -> RoomStateView {
    match room.player {
        Option::None => room,
        Option::Some(p) => RoomStateView {
            player: Some(player_after_unlock(p, dt)),
            is_active: if !p.is_primary && unlocks_within(p, dt) {
                false
            } else {
                room.is_active
            },
            ..room
        },
    }
}

/// The whole stage after `dt` milliseconds of animation clock.
pub open spec fn spec_unlock(v: PuzzleView, dt: u32) -> PuzzleView {
    PuzzleView {
        rooms: v.rooms.map_values(|room: RoomStateView| room_after_unlock(room, dt)),
        ..v
    }
}

/// Some pending movement's release delay elapses within `dt` milliseconds.
pub open spec fn any_fired(q: Seq<QueuedMovement>, dt: u32) -> bool {
    exists|k: int| 0 <= k < q.len() && (#[trigger] q[k]).delay_ms <= dt
}

/// The pending movements still waiting after `dt` milliseconds: those that
/// fired are gone, the rest have their delays run down.
pub open spec fn surviving(q: Seq<QueuedMovement>, dt: u32) -> Seq<QueuedMovement>
    decreases q.len(),
{
    if q.len() == 0 {
        Seq::empty()
    } else {
        let prefix = surviving(q.drop_last(), dt);
        let m = q.last();
        if m.delay_ms <= dt {
            prefix
        } else {
            prefix.push(QueuedMovement { direction: m.direction, delay_ms: (m.delay_ms - dt) as u32 })
        }
    }
}

/// The player after `dt` milliseconds of release delays: every movement
/// whose delay elapsed starts its animation, setting the movement lock to
/// a full animation time; the rest keep waiting.
pub open spec fn player_after_fire(p: PlayerView, dt: u32) -> PlayerView {
    PlayerView {
        moving_ms: if any_fired(p.queued_movements, dt) {
            Some(MOVEMENT_TIME_MS)
        } else {
            p.moving_ms
        },
        queued_movements: surviving(p.queued_movements, dt),
        ..p
    }
}

/// The room after `dt` milliseconds of release delays.
pub open spec fn room_after_fire(room: RoomStateView, dt: u32) -> RoomStateView {
    match room.player {
        Option::None => room,
        Option::Some(p) => RoomStateView { player: Some(player_after_fire(p, dt)), ..room },
    }
}

/// The whole stage after `dt` milliseconds of release delays.
pub open spec fn spec_process_queued(v: PuzzleView, dt: u32) -> PuzzleView {
    PuzzleView { rooms: v.rooms.map_values(|room: RoomStateView| room_after_fire(room, dt)), ..v }
}

/// For every room — the primary's own or any other — whose occupant's
/// target tile in the requested direction is a wall, a boundary tile, or
/// out of the room's grid, a resolved move request leaves that occupant's
/// position unchanged.
pub proof fn lemma_blocked_occupant_stays(
    rooms: Seq<RoomStateView>,
    pidx: int,
    direction: Direction,
    i: int,
)
    requires
        0 <= pidx < rooms.len(),
        0 <= i < rooms.len(),
        rooms[i].player is Some,
        ({
            let t = target_of(rooms[i].player->0.grid_coords, direction);
            !(rooms[i].tiles.tile_at(t.0, t.1) matches Some(tt) && tt.is_passable())
        }),
    ensures
        rooms_after_try_move(rooms, pidx, direction).len() == rooms.len(),
        rooms_after_try_move(rooms, pidx, direction)[i].player->0.grid_coords
            == rooms[i].player->0.grid_coords,
{
    assert(!room_can_move(rooms[i], direction));
    if room_can_move(rooms[pidx], direction) {
        assert(i != pidx);
        assert(rooms_after_try_move(rooms, pidx, direction)[i] == rooms[i]);
    }
}

/// An accepted move updates the occupant's authoritative position in the
/// same resolution, one tile over in the requested direction — whatever
/// the movement lock or the pending-movement queue held, since animation
/// state plays no part in the position update.
pub proof fn lemma_accepted_move_is_synchronous(
    rooms: Seq<RoomStateView>,
    pidx: int,
    direction: Direction,
)
    requires
        0 <= pidx < rooms.len(),
        rooms[pidx].wf(),
        room_can_move(rooms[pidx], direction),
    ensures
        rooms_after_try_move(rooms, pidx, direction).len() == rooms.len(),
        ({
            let before = rooms[pidx].player->0.grid_coords;
            let after = rooms_after_try_move(rooms, pidx, direction)[pidx].player->0.grid_coords;
            after.x == before.x + direction.spec_unit().0 && after.y == before.y
                + direction.spec_unit().1
        }),
{
    let t = target_of(rooms[pidx].player->0.grid_coords, direction);
    assert(rooms[pidx].tiles.tile_at(t.0, t.1) is Some);
    assert(0 <= t.0 < rooms[pidx].tiles.grid_width && 0 <= t.1 < rooms[pidx].tiles.grid_height);
    assert(rooms_after_try_move(rooms, pidx, direction)[pidx] == room_after_move(
        rooms[pidx],
        direction,
        0,
        false,
    ));
}

/// One direction request from the input device: while the primary's
/// movement lock is set, or earlier requests are still waiting, the
/// direction joins the input buffer — it is never dropped; otherwise the
/// move resolves at once.
pub open spec fn spec_request_direction(v: PuzzleView, direction: Direction) -> PuzzleView {
    if v.rooms[v.primary_idx()].player->0.moving_ms is Some || v.queued_input.len() > 0 {
        PuzzleView { queued_input: v.queued_input.push(direction), ..v }
    } else {
        spec_try_move(v, direction)
    }
}

/// One step of input replay: when the primary is free and directions are
/// buffered, exactly the oldest one is consumed and resolved as a move.
pub open spec fn spec_replay(v: PuzzleView) -> PuzzleView {
    if v.rooms[v.primary_idx()].player->0.moving_ms is None && v.queued_input.len() > 0 {
        spec_try_move(
            PuzzleView { queued_input: v.queued_input.drop_first(), ..v },
            v.queued_input[0],
        )
    } else {
        v
    }
}

/// Extending the scanned prefix by one entry fires it exactly when the
/// prefix already fired or the new entry's delay elapses.
proof fn lemma_any_fired_step(q: Seq<QueuedMovement>, k: int, dt: u32)
    requires
        0 <= k < q.len(),
    ensures
        any_fired(q.take(k + 1), dt) == (any_fired(q.take(k), dt) || q[k].delay_ms <= dt),
{
    let t1 = q.take(k + 1);
    let t0 = q.take(k);
    if any_fired(t0, dt) {
        let j = choose|j: int| 0 <= j < t0.len() && (#[trigger] t0[j]).delay_ms <= dt;
        assert(t1[j] == t0[j]);
        assert(any_fired(t1, dt));
    }
    if q[k].delay_ms <= dt {
        assert(t1[k] == q[k]);
        assert(any_fired(t1, dt));
    }
    if any_fired(t1, dt) && !(q[k].delay_ms <= dt) {
        let j = choose|j: int| 0 <= j < t1.len() && (#[trigger] t1[j]).delay_ms <= dt;
        assert(j != k);
        assert(t0[j] == t1[j]);
        assert(any_fired(t0, dt));
    }
}

/// Runs `dt` milliseconds of release delays over one player's pending
/// movements.
fn player_fire(p: &mut Player, delta_ms: u32)
    ensures
        final(p)@ == player_after_fire(old(p)@, delta_ms),
{
    let ghost q0 = p.queued_movements.0@;
    let mut newq: VecDeque<QueuedMovement> = VecDeque::new();
    let mut fired: bool = false;
    let mut k: usize = 0;
    proof {
        assert(q0.take(0) =~= Seq::<QueuedMovement>::empty());
        assert(newq@ =~= surviving(q0.take(0), delta_ms));
    }
    while k < p.queued_movements.0.len()
        invariant
            p == old(p),
            q0 == p.queued_movements.0@,
            0 <= k <= q0.len(),
            newq@ == surviving(q0.take(k as int), delta_ms),
            fired == any_fired(q0.take(k as int), delta_ms),
        decreases q0.len() - k,
    {
        let m = p.queued_movements.0[k];
        proof {
            assert(q0.take(k as int + 1).drop_last() =~= q0.take(k as int));
            assert(q0.take(k as int + 1).last() == q0[k as int]);
            lemma_any_fired_step(q0, k as int, delta_ms);
        }
        if m.delay_ms <= delta_ms {
            fired = true;
        } else {
            newq.push_back(
                QueuedMovement { direction: m.direction, delay_ms: m.delay_ms - delta_ms },
            );
        }
        k = k + 1;
    }
    proof {
        assert(q0.take(q0.len() as int) =~= q0);
    }
    p.queued_movements.0 = newq;
    if fired {
        p.moving_ms = Some(MOVEMENT_TIME_MS);
    }
}

/// Attempts one step of the room's occupant, applying it authoritatively
/// on success and queueing the visual movement with the given delay.
fn try_move_in_room(room: &mut RoomState, direction: Direction, delay_ms: u32, mark: bool) -> (moved:
    bool)
    requires
        old(room)@.wf(),
    ensures
        moved == room_can_move(old(room)@, direction),
        moved ==> final(room)@ == room_after_move(old(room)@, direction, delay_ms, mark),
        !moved ==> final(room)@ == old(room)@,
        final(room)@.wf(),
{
    let target: GridCoords = match &room.player {
        Some(p) => {
            let unit = direction.unit_grid_coords();
            GridCoords { x: p.grid_coords.x + unit.x, y: p.grid_coords.y + unit.y }
        },
        None => {
            return false;
        },
    };
    let passable: bool = match room.tiles.get(target) {
        Some(TileType::Floor) => true,
        Some(TileType::Goal) => true,
        _ => false,
    };
    if !passable {
        return false;
    }
    match &mut room.player {
        Some(p) => {
            p.grid_coords = target;
            p.queued_movements.0.push_back(QueuedMovement { direction, delay_ms });
        },
        None => {},
    }
    if mark {
        room.is_active = true;
    }
    true
}

impl ActivePuzzle {
    /// The index of the room holding the primary player.
    pub fn find_primary(&self) -> (r: usize)
        requires
            self@.wf(),
        ensures
            self@.is_primary_room(r as int),
            r as int == self@.primary_idx(),
    {
        let ghost rv = self@.rooms;
        let mut i: usize = 0;
        while i < self.rooms.len()
            invariant
                rv == self@.rooms,
                self@.wf(),
                0 <= i <= rv.len(),
                forall|k: int| 0 <= k < i ==> !crate::puzzle::primary_in(rv, k),
            decreases rv.len() - i,
        {
            let has_primary: bool = match &self.rooms[i].player {
                Some(p) => p.is_primary,
                None => false,
            };
            if has_primary {
                proof {
                    assert(self@.rooms[i as int] == self.rooms@[i as int]@);
                    assert(self@.is_primary_room(i as int));
                    assert(self@.is_primary_room(self@.primary_idx()));
                }
                return i;
            }
            i = i + 1;
        }
        proof {
            let w = choose|k: int| crate::puzzle::primary_in(rv, k);
            assert(false);
        }
        0
    }

    /// Resolves one move request from the primary player's input.
    ///
    /// The primary's own room decides first; if it rejects the step,
    /// nothing anywhere changes. If it accepts, the primary's position
    /// updates at once and the identical step is then attempted,
    /// independently, in every room currently neighboring the primary's
    /// room in the meta-grid: each follower that passes its own check
    /// moves with the follower delay and its room is tinted active.
    pub fn try_move(&mut self, direction: Direction) -> (moved: bool)
        requires
            old(self)@.wf(),
        ensures
            final(self)@ == spec_try_move(old(self)@, direction),
            moved == room_can_move(old(self)@.rooms[old(self)@.primary_idx()], direction),
            final(self)@.wf(),
    {
        let ghost v0 = self@;
        let ghost vec0 = self.rooms@;
        let pidx = self.find_primary();
        proof {
            lemma_room_views(vec0, v0.rooms);
        }
        let proom = vec_index_mut(&mut self.rooms, pidx);
        let moved = try_move_in_room(proom, direction, 0, false);
        proof {
            lemma_room_views(self.rooms@, self@.rooms);
        }
        if !moved {
            proof {
                assert(self@.rooms =~= v0.rooms);
                assert(self@ == spec_try_move(v0, direction));
            }
            return false;
        }
        proof {
            assert forall|j: int| 0 <= j < self@.rooms.len() implies #[trigger] self@.rooms[j]
                == (if j == pidx as int {
                room_after_move(v0.rooms[pidx as int], direction, 0, false)
            } else {
                v0.rooms[j]
            }) by {
                assert(self@.rooms[j] == self.rooms@[j]@);
            }
        }
        let ppos = self.rooms[pidx].level_position;
        proof {
            assert(ppos == v0.rooms[pidx as int].level_position);
        }
        let ghost target_rooms = rooms_after_try_move(v0.rooms, pidx as int, direction);
        let mut i: usize = 0;
        while i < self.rooms.len()
            invariant
                0 <= i <= self@.rooms.len(),
                self@.rooms.len() == v0.rooms.len(),
                pidx < v0.rooms.len(),
                v0.wf(),
                room_can_move(v0.rooms[pidx as int], direction),
                pidx as int == v0.primary_idx(),
                ppos == v0.rooms[pidx as int].level_position,
                target_rooms == rooms_after_try_move(v0.rooms, pidx as int, direction),
                self@.meta_level == v0.meta_level,
                self@.move_count == v0.move_count,
                self@.queued_input == v0.queued_input,
                self@.spawn_countdown == v0.spawn_countdown,
                self@.rooms[pidx as int] == target_rooms[pidx as int],
                forall|j: int|
                    0 <= j < i && j != pidx ==> #[trigger] self@.rooms[j] == target_rooms[j],
                forall|j: int|
                    i <= j < v0.rooms.len() && j != pidx ==> #[trigger] self@.rooms[j]
                        == v0.rooms[j],
                forall|j: int| 0 <= j < v0.rooms.len() ==> (#[trigger] self@.rooms[j]).wf(),
            decreases self@.rooms.len() - i,
        {
            if i != pidx {
                let ghost before = self@;
                proof {
                    lemma_room_views(self.rooms@, self@.rooms);
                    assert(self@.rooms[i as int] == v0.rooms[i as int]);
                }
                let is_nb = self.rooms[i].level_position.is_neighbor(ppos);
                if is_nb {
                    let room = vec_index_mut(&mut self.rooms, i);
                    try_move_in_room(room, direction, NEIGHBOR_DELAY_MS, true);
                    proof {
                        lemma_room_views(self.rooms@, self@.rooms);
                        assert forall|j: int|
                            0 <= j < self@.rooms.len() && j != i implies #[trigger] self@.rooms[j]
                            == before.rooms[j] by {
                            assert(self@.rooms[j] == self.rooms@[j]@);
                        }
                    }
                }
                proof {
                    assert(self@.rooms[i as int] == target_rooms[i as int]);
                }
            }
            i = i + 1;
        }
        proof {
            assert(self@.rooms =~= target_rooms);
            assert(self@ == spec_try_move(v0, direction));
            assert forall|j: int| 0 <= j < self@.rooms.len() implies (
            #[trigger] self@.rooms[j]).level_position == v0.rooms[j].level_position && (
            self@.rooms[j].player matches Some(p) && p.is_primary) == (v0.rooms[j].player
                matches Some(p0) && p0.is_primary) by {}
            assert forall|j: int|
                crate::puzzle::primary_in(self@.rooms, j) == crate::puzzle::primary_in(
                    v0.rooms,
                    j,
                ) by {}
            let w = choose|k: int| crate::puzzle::primary_in(v0.rooms, k);
            assert(crate::puzzle::primary_in(self@.rooms, w));
            assert(forall|i: int|
                0 <= i < self@.rooms.len() ==> {
                    &&& 0 <= (#[trigger] self@.rooms[i]).level_position.row
                        < self@.meta_level.meta_grid_height
                    &&& 0 <= self@.rooms[i].level_position.col < self@.meta_level.meta_grid_width
                });
            assert(forall|i: int, j: int|
                0 <= i < j < self@.rooms.len() ==> (#[trigger] self@.rooms[i]).level_position != (
                #[trigger] self@.rooms[j]).level_position);
            assert forall|i: int, j: int|
                crate::puzzle::primary_in(self@.rooms, i) && crate::puzzle::primary_in(
                    self@.rooms,
                    j,
                ) implies i == j by {
                assert((#[trigger] self@.rooms[i]).player is Some);
                assert(self@.rooms[j].player is Some);
                assert(crate::puzzle::primary_in(v0.rooms, i));
                assert(crate::puzzle::primary_in(v0.rooms, j));
            }
            assert(crate::puzzle::rooms_placed(self@.meta_level, self@.rooms));
        }
        true
    }

    /// Advances every playing movement animation by `delta_ms`: locks with
    /// at most that much time left clear, and a follower room whose
    /// animation just finished loses its recently-touched tint.
    pub fn unlock_player_movement(&mut self, delta_ms: u32)
        requires
            old(self)@.wf(),
        ensures
            final(self)@ == spec_unlock(old(self)@, delta_ms),
            final(self)@.wf(),
    {
        let ghost v0 = self@;
        proof {
            lemma_room_views(self.rooms@, self@.rooms);
        }
        let mut i: usize = 0;
        while i < self.rooms.len()
            invariant
                0 <= i <= self@.rooms.len(),
                self@.rooms.len() == v0.rooms.len(),
                v0.wf(),
                self@.meta_level == v0.meta_level,
                self@.move_count == v0.move_count,
                self@.queued_input == v0.queued_input,
                self@.spawn_countdown == v0.spawn_countdown,
                forall|j: int|
                    0 <= j < i ==> #[trigger] self@.rooms[j] == room_after_unlock(
                        v0.rooms[j],
                        delta_ms,
                    ),
                forall|j: int|
                    i <= j < v0.rooms.len() ==> #[trigger] self@.rooms[j] == v0.rooms[j],
            decreases v0.rooms.len() - i,
        {
            let ghost before = self@;
            proof {
                lemma_room_views(self.rooms@, before.rooms);
            }
            let room = vec_index_mut(&mut self.rooms, i);
            match room.player.take() {
                Some(mut p) => {
                    let finishes: bool = match p.moving_ms {
                        Some(rem) => rem <= delta_ms,
                        None => false,
                    };
                    let clear_tint = !p.is_primary && finishes;
                    match p.moving_ms {
                        Some(rem) => {
                            if rem <= delta_ms {
                                p.moving_ms = None;
                            } else {
                                p.moving_ms = Some(rem - delta_ms);
                            }
                        },
                        None => {},
                    }
                    room.player = Some(p);
                    if clear_tint {
                        room.is_active = false;
                    }
                },
                None => {},
            }
            proof {
                lemma_room_views(self.rooms@, self@.rooms);
                assert(self.rooms@[i as int]@.level_position == before.rooms[i as int].level_position);
                assert(self.rooms@[i as int]@.tiles == before.rooms[i as int].tiles);
                assert(self@.rooms[i as int] == self.rooms@[i as int]@);
                assert(self@.rooms[i as int].level_position == v0.rooms[i as int].level_position);
                assert(self@.rooms[i as int] == room_after_unlock(v0.rooms[i as int], delta_ms));
                assert forall|j: int|
                    0 <= j < self@.rooms.len() && j != i implies #[trigger] self@.rooms[j]
                    == before.rooms[j] by {
                    assert(self@.rooms[j] == self.rooms@[j]@);
                }
            }
            i = i + 1;
        }
        proof {
            assert(self@.rooms =~= spec_unlock(v0, delta_ms).rooms);
            assert(self@ == spec_unlock(v0, delta_ms));
            assert forall|j: int| 0 <= j < self@.rooms.len() implies (
            #[trigger] self@.rooms[j]).wf() by {
                assert(self@.rooms[j] == room_after_unlock(v0.rooms[j], delta_ms));
                assert(v0.rooms[j].wf());
            }
            assert forall|j: int|
                0 <= j < self@.rooms.len() implies (#[trigger] self@.rooms[j]).level_position
                == v0.rooms[j].level_position && ((self@.rooms[j].player matches Some(p)
                && p.is_primary) == (v0.rooms[j].player matches Some(p0) && p0.is_primary)) by {}
            crate::puzzle::lemma_placement_preserved(v0.meta_level, v0.rooms, self@.rooms);
        }
    }

    /// Advances every pending movement's release delay by `delta_ms`:
    /// each movement whose delay elapses starts its animation, locking its
    /// player for a full animation time.
    pub fn process_queued_movement(&mut self, delta_ms: u32)
        requires
            old(self)@.wf(),
        ensures
            final(self)@ == spec_process_queued(old(self)@, delta_ms),
            final(self)@.wf(),
    {
        let ghost v0 = self@;
        proof {
            lemma_room_views(self.rooms@, self@.rooms);
        }
        let mut i: usize = 0;
        while i < self.rooms.len()
            invariant
                0 <= i <= self@.rooms.len(),
                self@.rooms.len() == v0.rooms.len(),
                v0.wf(),
                self@.meta_level == v0.meta_level,
                self@.move_count == v0.move_count,
                self@.queued_input == v0.queued_input,
                self@.spawn_countdown == v0.spawn_countdown,
                forall|j: int|
                    0 <= j < i ==> #[trigger] self@.rooms[j] == room_after_fire(
                        v0.rooms[j],
                        delta_ms,
                    ),
                forall|j: int|
                    i <= j < v0.rooms.len() ==> #[trigger] self@.rooms[j] == v0.rooms[j],
            decreases v0.rooms.len() - i,
        {
            let ghost before = self@;
            proof {
                lemma_room_views(self.rooms@, before.rooms);
            }
            let room = vec_index_mut(&mut self.rooms, i);
            match room.player.take() {
                Some(mut p) => {
                    player_fire(&mut p, delta_ms);
                    room.player = Some(p);
                },
                None => {},
            }
            proof {
                lemma_room_views(self.rooms@, self@.rooms);
                assert(self.rooms@[i as int]@.level_position == before.rooms[i as int].level_position);
                assert(self.rooms@[i as int]@.tiles == before.rooms[i as int].tiles);
                assert(self@.rooms[i as int] == self.rooms@[i as int]@);
                assert(self@.rooms[i as int] == room_after_fire(v0.rooms[i as int], delta_ms));
                assert forall|j: int|
                    0 <= j < self@.rooms.len() && j != i implies #[trigger] self@.rooms[j]
                    == before.rooms[j] by {
                    assert(self@.rooms[j] == self.rooms@[j]@);
                }
            }
            i = i + 1;
        }
        proof {
            assert(self@.rooms =~= spec_process_queued(v0, delta_ms).rooms);
            assert(self@ == spec_process_queued(v0, delta_ms));
            assert forall|j: int| 0 <= j < self@.rooms.len() implies (
            #[trigger] self@.rooms[j]).wf() by {
                assert(self@.rooms[j] == room_after_fire(v0.rooms[j], delta_ms));
                assert(v0.rooms[j].wf());
            }
            assert forall|j: int|
                0 <= j < self@.rooms.len() implies (#[trigger] self@.rooms[j]).level_position
                == v0.rooms[j].level_position && ((self@.rooms[j].player matches Some(p)
                && p.is_primary) == (v0.rooms[j].player matches Some(p0) && p0.is_primary)) by {}
            crate::puzzle::lemma_placement_preserved(v0.meta_level, v0.rooms, self@.rooms);
        }
    }

    /// Handles one direction request from the input device. While the
    /// primary's movement lock is set — or earlier requests are still
    /// buffered — the direction is appended to the input buffer rather
    /// than dropped; otherwise the move resolves immediately, updating
    /// positions before any animation plays.
    pub fn request_direction(&mut self, direction: Direction)
        requires
            old(self)@.wf(),
        ensures
            final(self)@ == spec_request_direction(old(self)@, direction),
            final(self)@.wf(),
    {
        let ghost v0 = self@;
        let pidx = self.find_primary();
        let locked: bool = match &self.rooms[pidx].player {
            Some(p) => p.is_moving(),
            None => true,
        };
        proof {
            lemma_room_views(self.rooms@, self@.rooms);
            assert(locked == (v0.rooms[v0.primary_idx()].player->0.moving_ms is Some));
        }
        if locked || self.queued_input.0.len() > 0 {
            self.queued_input.0.push_back(direction);
        } else {
            self.try_move(direction);
        }
    }

    /// Replays buffered input: when the primary is free and directions
    /// are waiting, consumes exactly the oldest one and resolves it as a
    /// move request.
    pub fn replay_queued_input(&mut self)
        requires
            old(self)@.wf(),
        ensures
            final(self)@ == spec_replay(old(self)@),
            final(self)@.wf(),
    {
        let ghost v0 = self@;
        let pidx = self.find_primary();
        let free: bool = match &self.rooms[pidx].player {
            Some(p) => !p.is_moving(),
            None => false,
        };
        proof {
            lemma_room_views(self.rooms@, self@.rooms);
            assert(free == (v0.rooms[v0.primary_idx()].player->0.moving_ms is None));
        }
        if free && self.queued_input.0.len() > 0 {
            let direction = self.queued_input.0.pop_front().unwrap();
            let ghost v1 = self@;
            proof {
                assert(v1.queued_input =~= v0.queued_input.drop_first());
                assert(v1 == (PuzzleView { queued_input: v0.queued_input.drop_first(), ..v0 }));
                assert(v1.wf());
            }
            self.try_move(direction);
        }
    }
}


} // verus!
