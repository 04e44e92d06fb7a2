//! Room swaps, goal satisfaction, stage completion and boundary arrows.

use beside_yourself::boundary::{ArrowDirection, EdgeArrows};
use beside_yourself::drag::Dragging;
use beside_yourself::level::{GridCoords, MetaGridCoords, MetaLevel, TileType};
use beside_yourself::player::{Direction, Player};
use beside_yourself::puzzle::{ActivePuzzle, RoomState, TileGrid, LEVEL_SPAWN_DELAY_MS};

fn meta(width: i32, height: i32) -> MetaLevel {
    MetaLevel {
        level_num: 0,
        meta_grid_width: width,
        meta_grid_height: height,
        level_grid_width: 3,
        level_grid_height: 3,
        initial_placement: Vec::new(),
    }
}

fn grid_with(w: i32, h: i32, spots: &[(i32, i32, TileType)]) -> TileGrid {
    let mut tiles = vec![TileType::Floor; (w * h) as usize];
    for &(x, y, t) in spots {
        tiles[(y * w + x) as usize] = t;
    }
    TileGrid::new(w, h, tiles).unwrap()
}

fn room(row: i32, col: i32, grid: TileGrid, player: Option<Player>) -> RoomState {
    RoomState::new(MetaGridCoords::new(row, col), grid, player).unwrap()
}

fn two_by_two_puzzle() -> ActivePuzzle {
    let rooms = vec![
        room(
            0,
            0,
            grid_with(3, 3, &[]),
            Some(Player::new(GridCoords::new(1, 1), true)),
        ),
        room(
            0,
            1,
            grid_with(3, 3, &[]),
            Some(Player::new(GridCoords::new(1, 1), false)),
        ),
        room(
            1,
            0,
            grid_with(3, 3, &[]),
            Some(Player::new(GridCoords::new(1, 1), false)),
        ),
        room(
            1,
            1,
            grid_with(3, 3, &[]),
            Some(Player::new(GridCoords::new(1, 1), false)),
        ),
    ];
    ActivePuzzle::new(meta(2, 2), rooms).unwrap()
}

#[test]
fn move_counter_starts_at_zero() {
    let p = two_by_two_puzzle();
    assert_eq!(p.move_count, 0);
}

#[test]
fn identity_swap_is_a_counted_no_op_free_of_charge() {
    let mut p = two_by_two_puzzle();
    let a = MetaGridCoords::new(0, 0);
    p.request_swap(a, a);
    assert_eq!(p.move_count, 0);
    assert_eq!(p.rooms[0].level_position, a);
}

#[test]
fn swap_increments_counter_by_exactly_one() {
    let mut p = two_by_two_puzzle();
    p.request_swap(MetaGridCoords::new(0, 0), MetaGridCoords::new(0, 1));
    assert_eq!(p.move_count, 1);
    p.request_swap(MetaGridCoords::new(0, 0), MetaGridCoords::new(1, 0));
    assert_eq!(p.move_count, 2);
}

#[test]
fn swap_exchanges_the_two_positions() {
    let mut p = two_by_two_puzzle();
    let a = MetaGridCoords::new(0, 0);
    let b = MetaGridCoords::new(1, 1);
    p.request_swap(a, b);
    assert_eq!(p.rooms[0].level_position, b);
    assert_eq!(p.rooms[3].level_position, a);
    assert_eq!(p.rooms[1].level_position, MetaGridCoords::new(0, 1));
    assert_eq!(p.rooms[2].level_position, MetaGridCoords::new(1, 0));
    // swapping back restores the arrangement and counts another move
    p.request_swap(b, a);
    assert_eq!(p.rooms[0].level_position, a);
    assert_eq!(p.rooms[3].level_position, b);
    assert_eq!(p.move_count, 2);
}

#[test]
fn non_adjacent_swap_is_permitted() {
    // (0,0) and (1,1) are not meta-grid neighbors; the swap still goes
    // through — movement propagation has an adjacency rule, swaps do not
    let mut p = two_by_two_puzzle();
    let a = MetaGridCoords::new(0, 0);
    let b = MetaGridCoords::new(1, 1);
    assert!(!a.is_neighbor(b));
    p.request_swap(a, b);
    assert_eq!(p.move_count, 1);
    assert_eq!(p.rooms[0].level_position, b);
}

#[test]
fn swap_into_empty_slot_moves_the_room() {
    let rooms = vec![room(
        0,
        0,
        grid_with(3, 3, &[]),
        Some(Player::new(GridCoords::new(1, 1), true)),
    )];
    let mut p = ActivePuzzle::new(meta(2, 2), rooms).unwrap();
    p.request_swap(MetaGridCoords::new(0, 0), MetaGridCoords::new(1, 1));
    assert_eq!(p.rooms[0].level_position, MetaGridCoords::new(1, 1));
    assert_eq!(p.move_count, 1);
}

#[test]
fn swap_carries_occupant_and_tiles_along() {
    let mut p = two_by_two_puzzle();
    p.rooms[0].player.as_mut().unwrap().grid_coords = GridCoords::new(2, 0);
    p.request_swap(MetaGridCoords::new(0, 0), MetaGridCoords::new(0, 1));
    assert_eq!(
        p.rooms[0].player.as_ref().unwrap().grid_coords,
        GridCoords::new(2, 0)
    );
    assert!(p.rooms[0].player.as_ref().unwrap().is_primary);
}

#[test]
fn movement_follows_current_not_initial_neighbors() {
    // after swapping the primary's room to the far corner, its neighbors
    // change: the rooms now beside it follow, the old neighbors do not
    let mut p = two_by_two_puzzle();
    p.request_swap(MetaGridCoords::new(0, 0), MetaGridCoords::new(1, 1));
    assert!(p.try_move(Direction::Right));
    // primary now at (1,1); neighbors are (0,1) [room 1] and (1,0) [room 2]
    assert_eq!(
        p.rooms[1].player.as_ref().unwrap().grid_coords,
        GridCoords::new(2, 1)
    );
    assert_eq!(
        p.rooms[2].player.as_ref().unwrap().grid_coords,
        GridCoords::new(2, 1)
    );
    // the room that moved to (0,0) is now diagonal: untouched
    assert_eq!(
        p.rooms[3].player.as_ref().unwrap().grid_coords,
        GridCoords::new(1, 1)
    );
}

fn goal_puzzle() -> ActivePuzzle {
    // one room, 2 by 1: floor at (0,0), goal at (1,0)
    let g = grid_with(2, 1, &[(1, 0, TileType::Goal)]);
    let mut m = meta(1, 1);
    m.level_grid_width = 2;
    m.level_grid_height = 1;
    let rooms = vec![room(
        0,
        0,
        g,
        Some(Player::new(GridCoords::new(0, 0), true)),
    )];
    ActivePuzzle::new(m, rooms).unwrap()
}

#[test]
fn goal_flag_follows_occupant_position() {
    let mut p = goal_puzzle();
    assert!(!p.rooms[0].goals[0].activated);
    p.try_move(Direction::Right);
    p.update_goal_tile_status();
    assert!(p.rooms[0].goals[0].activated);
    // stepping off clears it again on the next recompute: never sticky
    p.try_move(Direction::Left);
    p.update_goal_tile_status();
    assert!(!p.rooms[0].goals[0].activated);
}

#[test]
fn countdown_starts_only_when_all_goals_are_satisfied() {
    let mut p = goal_puzzle();
    assert_eq!(p.tick(0), None);
    assert!(p.spawn_countdown.is_none());
    p.try_move(Direction::Right);
    assert_eq!(p.tick(0), None);
    let c = p.spawn_countdown.unwrap();
    assert_eq!(c.remaining_ms, LEVEL_SPAWN_DELAY_MS);
    assert_eq!(c.level_num, 1);
}

#[test]
fn countdown_waits_for_every_room() {
    // two rooms, each with a goal; only one occupant reaches its goal
    let g0 = grid_with(2, 1, &[(1, 0, TileType::Goal)]);
    let g1 = grid_with(2, 1, &[(1, 0, TileType::Goal)]);
    let mut m = meta(2, 1);
    m.level_grid_width = 2;
    m.level_grid_height = 1;
    let rooms = vec![
        room(0, 0, g0, Some(Player::new(GridCoords::new(0, 0), true))),
        room(0, 1, g1, Some(Player::new(GridCoords::new(1, 0), false))),
    ];
    let mut p = ActivePuzzle::new(m, rooms).unwrap();
    // the follower sits on its goal, the primary does not: no countdown
    p.tick(0);
    assert!(p.spawn_countdown.is_none());
    // the primary steps onto its goal; the follower room neighbors the
    // primary's room, and its occupant walking off would break the goal —
    // but it is blocked by the grid edge, so both goals hold
    p.try_move(Direction::Right);
    p.tick(0);
    assert!(p.spawn_countdown.is_some());
}

#[test]
fn countdown_fires_once_and_requests_next_stage() {
    let mut p = goal_puzzle();
    p.try_move(Direction::Right);
    p.tick(0);
    assert!(p.spawn_countdown.is_some());
    assert_eq!(p.tick(LEVEL_SPAWN_DELAY_MS - 1), None);
    assert_eq!(p.spawn_countdown.unwrap().remaining_ms, 1);
    assert_eq!(p.tick(1), Some(1));
    // fired once and cleared; the goals are still satisfied, so a fresh
    // countdown starts on the next tick, but the fire is not repeated
    assert_eq!(p.tick(0), None);
}

#[test]
fn countdown_is_not_cancelled_by_breaking_a_goal() {
    // once the countdown runs, goal recomputation continues but the
    // pending advance is not re-validated: it fires even if a goal broke
    let mut p = goal_puzzle();
    p.try_move(Direction::Right);
    p.tick(0);
    assert!(p.spawn_countdown.is_some());
    p.try_move(Direction::Left);
    assert_eq!(p.tick(500), None);
    assert!(!p.rooms[0].goals[0].activated);
    assert!(p.spawn_countdown.is_some());
    assert_eq!(p.tick(500), Some(1));
}

#[test]
fn entering_arrows_point_where_neighbor_slots_exist() {
    let p = two_by_two_puzzle();
    // primary at (0,0): slots exist below and to the right only
    assert_eq!(
        p.entering_arrows(0),
        EdgeArrows { top: false, bottom: true, left: false, right: true }
    );
    // a follower room shows no entering arrows
    assert_eq!(
        p.entering_arrows(1),
        EdgeArrows { top: false, bottom: false, left: false, right: false }
    );
}

#[test]
fn leaving_arrows_face_the_primary_room() {
    let p = two_by_two_puzzle();
    // room at (0,1) is right of the primary: left edge faces it
    assert_eq!(
        p.leaving_arrows(1),
        EdgeArrows { top: false, bottom: false, left: true, right: false }
    );
    // room at (1,0) is below the primary: top edge faces it
    assert_eq!(
        p.leaving_arrows(2),
        EdgeArrows { top: true, bottom: false, left: false, right: false }
    );
    // the diagonal room is no neighbor: no arrows
    assert_eq!(
        p.leaving_arrows(3),
        EdgeArrows { top: false, bottom: false, left: false, right: false }
    );
    // the primary's own room shows no leaving arrows
    assert_eq!(
        p.leaving_arrows(0),
        EdgeArrows { top: false, bottom: false, left: false, right: false }
    );
}

#[test]
fn arrows_follow_swaps() {
    let mut p = two_by_two_puzzle();
    p.request_swap(MetaGridCoords::new(0, 0), MetaGridCoords::new(1, 1));
    // primary now at (1,1): slots exist above and to the left
    assert_eq!(
        p.entering_arrows(0),
        EdgeArrows { top: true, bottom: false, left: true, right: false }
    );
    // the room at (0,1) now sits above the primary: bottom edge faces it
    assert_eq!(
        p.leaving_arrows(1),
        EdgeArrows { top: false, bottom: true, left: false, right: false }
    );
}

#[test]
fn arrow_kinds_dispatch_to_their_rooms() {
    let p = two_by_two_puzzle();
    assert_eq!(p.arrows(0, ArrowDirection::Entering), p.entering_arrows(0));
    assert_eq!(p.arrows(1, ArrowDirection::Leaving), p.leaving_arrows(1));
}

#[test]
fn dimming_spares_primary_and_active_rooms() {
    let mut p = two_by_two_puzzle();
    assert!(!p.room_is_dimmed(0));
    assert!(p.room_is_dimmed(1));
    p.mark_active(1);
    assert!(!p.room_is_dimmed(1));
    p.clear_active(1);
    assert!(p.room_is_dimmed(1));
}

#[test]
fn dragging_remembers_its_origin() {
    let d = Dragging { from_pos: MetaGridCoords::new(1, 0) };
    assert_eq!(d.from_pos, MetaGridCoords::new(1, 0));
}

#[test]
fn rebuilding_the_stage_clears_transient_state() {
    let mut p = goal_puzzle();
    p.request_direction(Direction::Right);
    p.tick(0);
    p.request_direction(Direction::Left);
    assert!(p.spawn_countdown.is_some() || !p.queued_input.0.is_empty());
    // a stage (re)load builds a fresh value: queued input, pending
    // movements and any countdown are gone
    let fresh = goal_puzzle();
    assert!(fresh.queued_input.0.is_empty());
    assert!(fresh.spawn_countdown.is_none());
    assert_eq!(fresh.move_count, 0);
    assert_eq!(
        fresh.rooms[0].player.as_ref().unwrap().grid_coords,
        GridCoords::new(0, 0)
    );
}
