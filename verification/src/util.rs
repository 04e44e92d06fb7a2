//! Small helpers shared across the crate.

use crate::level::GridCoords;
use vstd::prelude::*;

verus! {

/// A tile position in the renderer's coordinate space, which only admits
/// non-negative coordinates.
#[derive(Clone, Copy, Debug, PartialEq, Eq, Structural, Hash)]
pub struct TilePos {
    /// Tile column.
    pub x: u32,
    /// Tile row.
    pub y: u32,
}

/// Converts room-local grid coordinates to a renderer tile position;
/// yields nothing when either coordinate is negative.
pub fn grid_coords_to_tile_pos(grid_coords: GridCoords) -> (r: Option<TilePos>)
    ensures
        r matches Some(t) ==> grid_coords.x >= 0 && grid_coords.y >= 0 && t.x == grid_coords.x
            && t.y == grid_coords.y,
        r is None <==> grid_coords.x < 0 || grid_coords.y < 0,
{
    if grid_coords.x >= 0 && grid_coords.y >= 0 {
        Some(TilePos { x: grid_coords.x as u32, y: grid_coords.y as u32 })
    } else {
        None
    }
}

/// A mutable borrow of one vector element.
pub fn vec_index_mut<T>(v: &mut Vec<T>, i: usize) -> (element: &mut T)
    requires
        i < old(v).len(),
    ensures
        *element == old(v)@[i as int],
        final(v)@ == old(v)@.update(i as int, *final(element)),
{
    &mut v[i]
}

} // verus!
