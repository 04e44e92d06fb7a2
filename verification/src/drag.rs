//! Meta-grid rearrangement: dragging one room onto another position swaps
//! the two rooms' places. A swap has no adjacency constraint — any two
//! positions in the meta-grid may be exchanged — and moves each room with
//! its tiles and occupant intact.

use crate::level::MetaGridCoords;
use crate::puzzle::{ActivePuzzle, PuzzleView, RoomStateView};
use crate::util::vec_index_mut;
use vstd::prelude::*;

verus! {

/// A drag in progress: the meta-grid position it picked up.
#[derive(Clone, Copy, Debug, PartialEq, Eq, Structural)]
pub struct Dragging {
    /// Where the dragged room was picked up.
    pub from_pos: MetaGridCoords,
}

/// One room after a swap of the two positions: a room at `from_pos` now
/// reports `to_pos`, one at `to_pos` reports `from_pos`, and every other
/// room is untouched. Only the position field changes: the room carries
/// its tiles, goals and occupant along.
pub open spec fn room_after_swap(
    room: RoomStateView,
    from_pos: MetaGridCoords,
    to_pos: MetaGridCoords,
) -> RoomStateView {
    if room.level_position == from_pos {
        RoomStateView { level_position: to_pos, ..room }
    } else {
        if room.level_position == to_pos {
            RoomStateView { level_position: from_pos, ..room }
        } else {
            room
        }
    }
}

/// The stage after a swap request: dropping a room on its own position is
/// a no-op and counts nothing; any other request is accepted, exchanges
/// whatever rooms sit at the two positions (either may be empty), and
/// counts exactly one move.
pub open spec fn spec_request_swap(
    v: PuzzleView,
    from_pos: MetaGridCoords,
    to_pos: MetaGridCoords,
) -> PuzzleView {
    if from_pos == to_pos {
        v
    } else {
        PuzzleView {
            move_count: (v.move_count + 1) as u64,
            rooms: v.rooms.map_values(
                |room: RoomStateView| room_after_swap(room, from_pos, to_pos),
            ),
            ..v
        }
    }
}

/// After a swap of positions `a` and `b`, the room formerly at `a`
/// reports position `b`, the room formerly at `b` reports position `a`,
/// and every other room keeps its position.
pub proof fn lemma_swap_exchanges_positions(
    v: PuzzleView,
    a: MetaGridCoords,
    b: MetaGridCoords,
    i: int,
)
    requires
        a != b,
        0 <= i < v.rooms.len(),
    ensures
        spec_request_swap(v, a, b).rooms.len() == v.rooms.len(),
        v.rooms[i].level_position == a ==> spec_request_swap(v, a, b).rooms[i].level_position == b,
        v.rooms[i].level_position == b ==> spec_request_swap(v, a, b).rooms[i].level_position == a,
        v.rooms[i].level_position != a && v.rooms[i].level_position != b ==> spec_request_swap(
            v,
            a,
            b,
        ).rooms[i] == v.rooms[i],
{
    assert(spec_request_swap(v, a, b).rooms[i] == room_after_swap(v.rooms[i], a, b));
}

/// Swapping `a` and `b` and then `b` and `a` restores every room's
/// position while counting two moves: the swap is its own inverse on
/// positions but not idempotent on the move counter.
pub proof fn lemma_swap_roundtrip(v: PuzzleView, a: MetaGridCoords, b: MetaGridCoords)
    requires
        a != b,
        v.move_count + 2 <= u64::MAX,
    ensures
        spec_request_swap(spec_request_swap(v, a, b), b, a) == (PuzzleView {
            move_count: (v.move_count + 2) as u64,
            ..v
        }),
{
    let v1 = spec_request_swap(v, a, b);
    let v2 = spec_request_swap(v1, b, a);
    assert forall|i: int| 0 <= i < v.rooms.len() implies #[trigger] v2.rooms[i] == v.rooms[i] by {
        assert(v1.rooms[i] == room_after_swap(v.rooms[i], a, b));
        assert(v2.rooms[i] == room_after_swap(v1.rooms[i], b, a));
    }
    assert(v2.rooms =~= v.rooms);
}

impl ActivePuzzle {
    /// Applies a drag-and-drop swap of the rooms at the two positions.
    ///
    /// `request_swap(p, p)` never increments the move counter; any
    /// accepted swap — the positions differ — increments it by exactly 1,
    /// whether or not either position currently holds a room. The two
    /// positions need not be adjacent.
    pub fn request_swap(&mut self, from_pos: MetaGridCoords, to_pos: MetaGridCoords)
        requires
            old(self)@.wf(),
            old(self)@.move_count < u64::MAX,
            0 <= from_pos.row < old(self)@.meta_level.meta_grid_height,
            0 <= from_pos.col < old(self)@.meta_level.meta_grid_width,
            0 <= to_pos.row < old(self)@.meta_level.meta_grid_height,
            0 <= to_pos.col < old(self)@.meta_level.meta_grid_width,
        ensures
            final(self)@ == spec_request_swap(old(self)@, from_pos, to_pos),
            final(self)@.wf(),
    {
        if from_pos == to_pos {
            return;
        }
        let ghost v0 = self@;
        proof {
            crate::player::lemma_room_views(self.rooms@, self@.rooms);
        }
        self.move_count = self.move_count + 1;
        let mut i: usize = 0;
        while i < self.rooms.len()
            invariant
                0 <= i <= self@.rooms.len(),
                self@.rooms.len() == v0.rooms.len(),
                v0.wf(),
                from_pos != to_pos,
                self@.meta_level == v0.meta_level,
                self@.move_count == v0.move_count + 1,
                self@.queued_input == v0.queued_input,
                self@.spawn_countdown == v0.spawn_countdown,
                forall|j: int|
                    0 <= j < i ==> #[trigger] self@.rooms[j] == room_after_swap(
                        v0.rooms[j],
                        from_pos,
                        to_pos,
                    ),
                forall|j: int|
                    i <= j < v0.rooms.len() ==> #[trigger] self@.rooms[j] == v0.rooms[j],
            decreases v0.rooms.len() - i,
        {
            let ghost before = self@;
            proof {
                crate::player::lemma_room_views(self.rooms@, before.rooms);
            }
            let room = vec_index_mut(&mut self.rooms, i);
            if room.level_position == from_pos {
                room.level_position = to_pos;
            } else {
                if room.level_position == to_pos {
                    room.level_position = from_pos;
                }
            }
            proof {
                crate::player::lemma_room_views(self.rooms@, self@.rooms);
                assert(self@.rooms[i as int] == self.rooms@[i as int]@);
                assert(self.rooms@[i as int]@.tiles == before.rooms[i as int].tiles);
                assert(self.rooms@[i as int]@.player == before.rooms[i as int].player);
                assert(self.rooms@[i as int]@.goals == before.rooms[i as int].goals);
                assert(self.rooms@[i as int]@.is_active == before.rooms[i as int].is_active);
                assert(self@.rooms[i as int] == room_after_swap(
                    v0.rooms[i as int],
                    from_pos,
                    to_pos,
                ));
                assert forall|j: int|
                    0 <= j < self@.rooms.len() && j != i implies #[trigger] self@.rooms[j]
                    == before.rooms[j] by {
                    assert(self@.rooms[j] == self.rooms@[j]@);
                }
            }
            i = i + 1;
        }
        proof {
            assert(self@.rooms =~= spec_request_swap(v0, from_pos, to_pos).rooms);
            assert(self@ == spec_request_swap(v0, from_pos, to_pos));
            assert forall|j: int| 0 <= j < self@.rooms.len() implies (
            #[trigger] self@.rooms[j]).wf() by {
                assert(self@.rooms[j] == room_after_swap(v0.rooms[j], from_pos, to_pos));
                assert(v0.rooms[j].wf());
            }
            // positions stay in bounds and remain pairwise distinct: the
            // swap permutes position values injectively
            assert forall|j: int|
                0 <= j < self@.rooms.len() implies {
                &&& 0 <= (#[trigger] self@.rooms[j]).level_position.row
                    < self@.meta_level.meta_grid_height
                &&& 0 <= self@.rooms[j].level_position.col < self@.meta_level.meta_grid_width
            } by {
                assert(self@.rooms[j] == room_after_swap(v0.rooms[j], from_pos, to_pos));
            }
            assert forall|a: int, b: int|
                0 <= a < b < self@.rooms.len() implies (#[trigger] self@.rooms[a]).level_position
                != (#[trigger] self@.rooms[b]).level_position by {
                assert(self@.rooms[a] == room_after_swap(v0.rooms[a], from_pos, to_pos));
                assert(self@.rooms[b] == room_after_swap(v0.rooms[b], from_pos, to_pos));
                assert(v0.rooms[a].level_position != v0.rooms[b].level_position);
            }
            assert forall|j: int|
                crate::puzzle::primary_in(self@.rooms, j) == crate::puzzle::primary_in(
                    v0.rooms,
                    j,
                ) by {
                if 0 <= j < self@.rooms.len() {
                    assert(self@.rooms[j] == room_after_swap(v0.rooms[j], from_pos, to_pos));
                }
            }
            let w = choose|k: int| crate::puzzle::primary_in(v0.rooms, k);
            assert(crate::puzzle::primary_in(self@.rooms, w));
            assert forall|a: int, b: int|
                crate::puzzle::primary_in(self@.rooms, a) && crate::puzzle::primary_in(
                    self@.rooms,
                    b,
                ) implies a == b by {
                assert(crate::puzzle::primary_in(v0.rooms, a));
                assert(crate::puzzle::primary_in(v0.rooms, b));
            }
            assert(crate::puzzle::rooms_placed(self@.meta_level, self@.rooms));
        }
    }
}

} // verus!
