//! Directional boundary arrows: derived wholesale from the current
//! occupant-independent room arrangement every tick. The primary's room
//! shows an "entering" arrow on each edge toward which a meta-grid
//! neighbor slot exists; every other room shows a "leaving" arrow on the
//! one edge facing the primary's room, if it is the primary's neighbor in
//! that direction.

use crate::puzzle::{ActivePuzzle, PuzzleView};
use vstd::prelude::*;

verus! {

/// One of the four edges of a room where arrows can appear.
#[derive(Clone, Copy, Debug, PartialEq, Eq, Structural)]
pub enum BoundaryEdge {
    /// The room's top edge.
    Top,
    /// The room's bottom edge.
    Bottom,
    /// The room's left edge.
    Left,
    /// The room's right edge.
    Right,
}

/// Which way an arrow points relative to the room it sits in.
#[derive(Clone, Copy, Debug, PartialEq, Eq, Structural)]
pub enum ArrowDirection {
    /// The arrow invites movement into this room's neighbors: shown on
    /// the primary's room.
    Entering,
    /// The arrow marks this room as a destination reachable from the
    /// primary's room.
    Leaving,
}

/// Arrow visibility for the four edges of one room.
#[derive(Clone, Copy, Debug, PartialEq, Eq, Structural)]
pub struct EdgeArrows {
    /// Arrows on the top edge.
    pub top: bool,
    /// Arrows on the bottom edge.
    pub bottom: bool,
    /// Arrows on the left edge.
    pub left: bool,
    /// Arrows on the right edge.
    pub right: bool,
}

/// The entering arrows of room `i`: visible only on the primary's room,
/// on each edge with a meta-grid slot on the other side. Rows grow
/// downward, so the top edge faces row - 1.
pub open spec fn spec_entering_arrows(v: PuzzleView, i: int) -> EdgeArrows {
    let p = v.rooms[v.primary_idx()].level_position;
    if i == v.primary_idx() {
        EdgeArrows {
            top: p.row > 0,
            bottom: p.row < v.meta_level.meta_grid_height - 1,
            left: p.col > 0,
            right: p.col < v.meta_level.meta_grid_width - 1,
        }
    } else {
        EdgeArrows { top: false, bottom: false, left: false, right: false }
    }
}

/// The leaving arrows of room `i`: visible only when room `i` is the
/// primary room's neighbor, on the one edge facing the primary's room. A
/// room directly below the primary (one row further down) shows them on
/// its top edge, and so on around.
pub open spec fn spec_leaving_arrows(v: PuzzleView, i: int) -> EdgeArrows {
    let p = v.rooms[v.primary_idx()].level_position;
    let r = v.rooms[i].level_position;
    if i == v.primary_idx() {
        EdgeArrows { top: false, bottom: false, left: false, right: false }
    } else {
        EdgeArrows {
            top: r.row == p.row + 1 && r.col == p.col,
            bottom: r.row == p.row - 1 && r.col == p.col,
            left: r.col == p.col + 1 && r.row == p.row,
            right: r.col == p.col - 1 && r.row == p.row,
        }
    }
}

impl ActivePuzzle {
    /// The entering arrows currently visible on room `room_index`'s
    /// edges, recomputed from scratch.
    pub fn entering_arrows(&self, room_index: usize) -> (r: EdgeArrows)
        requires
            self@.wf(),
            room_index < self@.rooms.len(),
        ensures
            r == spec_entering_arrows(self@, room_index as int),
    {
        let pidx = self.find_primary();
        if room_index != pidx {
            return EdgeArrows { top: false, bottom: false, left: false, right: false };
        }
        let p = self.rooms[pidx].level_position;
        proof {
            crate::player::lemma_room_views(self.rooms@, self@.rooms);
        }
        EdgeArrows {
            top: p.row > 0,
            bottom: p.row < self.meta_level.meta_grid_height - 1,
            left: p.col > 0,
            right: p.col < self.meta_level.meta_grid_width - 1,
        }
    }

    /// The arrows of the given kind currently visible on room
    /// `room_index`'s edges.
    pub fn arrows(&self, room_index: usize, direction: ArrowDirection) -> (r: EdgeArrows)
        requires
            self@.wf(),
            room_index < self@.rooms.len(),
        ensures
            r == (match direction {
                ArrowDirection::Entering => spec_entering_arrows(self@, room_index as int),
                ArrowDirection::Leaving => spec_leaving_arrows(self@, room_index as int),
            }),
    {
        match direction {
            ArrowDirection::Entering => self.entering_arrows(room_index),
            ArrowDirection::Leaving => self.leaving_arrows(room_index),
        }
    }

    /// The leaving arrows currently visible on room `room_index`'s edges,
    /// recomputed from scratch.
    pub fn leaving_arrows(&self, room_index: usize) -> (r: EdgeArrows)
        requires
            self@.wf(),
            room_index < self@.rooms.len(),
        ensures
            r == spec_leaving_arrows(self@, room_index as int),
    {
        let pidx = self.find_primary();
        if room_index == pidx {
            return EdgeArrows { top: false, bottom: false, left: false, right: false };
        }
        let p = self.rooms[pidx].level_position;
        let r = self.rooms[room_index].level_position;
        proof {
            crate::player::lemma_room_views(self.rooms@, self@.rooms);
            assert(0 <= p.row < crate::level::MAX_GRID_DIM);
            assert(0 <= p.col < crate::level::MAX_GRID_DIM);
        }
        EdgeArrows {
            top: r.row == p.row + 1 && r.col == p.col,
            bottom: r.row == p.row - 1 && r.col == p.col,
            left: r.col == p.col + 1 && r.row == p.row,
            right: r.col == p.col - 1 && r.row == p.row,
        }
    }
}

} // verus!
