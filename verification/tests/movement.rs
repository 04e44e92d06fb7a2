//! The movement engine: blocked and accepted moves, synchronous position
//! updates, the input buffer and movement lock, follower propagation and
//! the tick cycle.

use beside_yourself::level::{GridCoords, MetaGridCoords, MetaLevel, TileType};
use beside_yourself::player::{Direction, Player, MOVEMENT_TIME_MS, NEIGHBOR_DELAY_MS};
use beside_yourself::puzzle::{ActivePuzzle, RoomState, TileGrid};

fn meta(width: i32, height: i32) -> MetaLevel {
    MetaLevel {
        level_num: 0,
        meta_grid_width: width,
        meta_grid_height: height,
        level_grid_width: 3,
        level_grid_height: 3,
        initial_placement: Vec::new(),
    }
}

fn floor_grid(w: i32, h: i32) -> TileGrid {
    TileGrid::new(w, h, vec![TileType::Floor; (w * h) as usize]).unwrap()
}

fn grid_with(w: i32, h: i32, spots: &[(i32, i32, TileType)]) -> TileGrid {
    let mut tiles = vec![TileType::Floor; (w * h) as usize];
    for &(x, y, t) in spots {
        tiles[(y * w + x) as usize] = t;
    }
    TileGrid::new(w, h, tiles).unwrap()
}

fn room(row: i32, col: i32, grid: TileGrid, player: Option<Player>) -> RoomState {
    RoomState::new(MetaGridCoords::new(row, col), grid, player).unwrap()
}

fn single_room_puzzle(grid: TileGrid, at: GridCoords) -> ActivePuzzle {
    let rooms = vec![room(0, 0, grid, Some(Player::new(at, true)))];
    ActivePuzzle::new(meta(1, 1), rooms).unwrap()
}

fn player_pos(p: &ActivePuzzle, i: usize) -> GridCoords {
    p.rooms[i].player.as_ref().unwrap().grid_coords
}

#[test]
fn move_onto_wall_is_rejected() {
    let g = grid_with(2, 1, &[(1, 0, TileType::Wall)]);
    let mut p = single_room_puzzle(g, GridCoords::new(0, 0));
    assert!(!p.try_move(Direction::Right));
    assert_eq!(player_pos(&p, 0), GridCoords::new(0, 0));
    assert_eq!(p.rooms[0].player.as_ref().unwrap().queued_movements.0.len(), 0);
}

#[test]
fn move_onto_boundary_is_rejected() {
    let g = grid_with(2, 1, &[(1, 0, TileType::Boundary)]);
    let mut p = single_room_puzzle(g, GridCoords::new(0, 0));
    assert!(!p.try_move(Direction::Right));
    assert_eq!(player_pos(&p, 0), GridCoords::new(0, 0));
}

#[test]
fn move_out_of_bounds_is_rejected() {
    let g = floor_grid(2, 1);
    let mut p = single_room_puzzle(g, GridCoords::new(0, 0));
    assert!(!p.try_move(Direction::Left));
    assert!(!p.try_move(Direction::Up));
    assert!(!p.try_move(Direction::Down));
    assert_eq!(player_pos(&p, 0), GridCoords::new(0, 0));
}

#[test]
fn move_onto_goal_is_permitted() {
    let g = grid_with(2, 1, &[(1, 0, TileType::Goal)]);
    let mut p = single_room_puzzle(g, GridCoords::new(0, 0));
    assert!(p.try_move(Direction::Right));
    assert_eq!(player_pos(&p, 0), GridCoords::new(1, 0));
}

#[test]
fn accepted_move_updates_position_synchronously() {
    let g = floor_grid(3, 1);
    let mut p = single_room_puzzle(g, GridCoords::new(0, 0));
    // two resolutions back to back, with no tick and no animation clock
    // in between: the authoritative position still updates each time
    assert!(p.try_move(Direction::Right));
    assert_eq!(player_pos(&p, 0), GridCoords::new(1, 0));
    assert!(p.try_move(Direction::Right));
    assert_eq!(player_pos(&p, 0), GridCoords::new(2, 0));
    let q = &p.rooms[0].player.as_ref().unwrap().queued_movements.0;
    assert_eq!(q.len(), 2);
    assert_eq!(q[0].delay_ms, 0);
}

#[test]
fn locked_primary_queues_input_and_replays_one_per_tick() {
    let g = floor_grid(5, 1);
    let mut p = single_room_puzzle(g, GridCoords::new(0, 0));
    p.request_direction(Direction::Right);
    assert_eq!(player_pos(&p, 0), GridCoords::new(1, 0));
    // the tick fires the zero-delay movement: the lock engages
    assert_eq!(p.tick(0), None);
    assert!(p.rooms[0].player.as_ref().unwrap().is_moving());
    // requests while locked are appended, not lost
    p.request_direction(Direction::Right);
    p.request_direction(Direction::Right);
    assert_eq!(player_pos(&p, 0), GridCoords::new(1, 0));
    assert_eq!(p.queued_input.0.len(), 2);
    // the animation finishes during this tick and one buffered direction
    // replays — exactly one; its own animation starts on the next tick
    p.tick(MOVEMENT_TIME_MS);
    assert_eq!(player_pos(&p, 0), GridCoords::new(2, 0));
    assert_eq!(p.queued_input.0.len(), 1);
    // this tick only starts the replayed move's animation
    p.tick(MOVEMENT_TIME_MS);
    assert_eq!(player_pos(&p, 0), GridCoords::new(2, 0));
    assert_eq!(p.queued_input.0.len(), 1);
    // the lock clears again: the next buffered direction replays
    p.tick(MOVEMENT_TIME_MS);
    assert_eq!(player_pos(&p, 0), GridCoords::new(3, 0));
    assert_eq!(p.queued_input.0.len(), 0);
}

#[test]
fn free_primary_with_empty_buffer_moves_at_once() {
    let g = floor_grid(3, 1);
    let mut p = single_room_puzzle(g, GridCoords::new(0, 0));
    p.request_direction(Direction::Right);
    assert_eq!(player_pos(&p, 0), GridCoords::new(1, 0));
    assert_eq!(p.queued_input.0.len(), 0);
}

fn two_by_two_puzzle() -> ActivePuzzle {
    // primary in (0,0) at local (1,1); followers in the other three rooms
    let rooms = vec![
        room(
            0,
            0,
            floor_grid(3, 3),
            Some(Player::new(GridCoords::new(1, 1), true)),
        ),
        room(
            0,
            1,
            floor_grid(3, 3),
            Some(Player::new(GridCoords::new(1, 1), false)),
        ),
        room(
            1,
            0,
            floor_grid(3, 3),
            Some(Player::new(GridCoords::new(1, 1), false)),
        ),
        room(
            1,
            1,
            floor_grid(3, 3),
            Some(Player::new(GridCoords::new(1, 1), false)),
        ),
    ];
    ActivePuzzle::new(meta(2, 2), rooms).unwrap()
}

#[test]
fn neighbors_follow_with_stagger_delay() {
    let mut p = two_by_two_puzzle();
    assert!(p.try_move(Direction::Right));
    // the primary moved with no delay
    assert_eq!(player_pos(&p, 0), GridCoords::new(2, 1));
    let q0 = &p.rooms[0].player.as_ref().unwrap().queued_movements.0;
    assert_eq!(q0[0].delay_ms, 0);
    assert_eq!(q0[0].direction, Direction::Right);
    // the rooms at (0,1) and (1,0) neighbor the primary's room: their
    // occupants moved too, with the follower stagger
    for i in [1, 2] {
        assert_eq!(player_pos(&p, i), GridCoords::new(2, 1));
        let q = &p.rooms[i].player.as_ref().unwrap().queued_movements.0;
        assert_eq!(q[0].delay_ms, NEIGHBOR_DELAY_MS);
        assert!(p.rooms[i].is_active);
    }
    // the diagonal room at (1,1) is no neighbor: untouched
    assert_eq!(player_pos(&p, 3), GridCoords::new(1, 1));
    assert_eq!(p.rooms[3].player.as_ref().unwrap().queued_movements.0.len(), 0);
}

#[test]
fn follower_can_fail_independently() {
    let mut p = two_by_two_puzzle();
    let blocked = grid_with(3, 3, &[(2, 1, TileType::Wall)]);
    p.rooms[1] = room(0, 1, blocked, Some(Player::new(GridCoords::new(1, 1), false)));
    assert!(p.try_move(Direction::Right));
    assert_eq!(player_pos(&p, 0), GridCoords::new(2, 1));
    // the blocked follower stays, the other follower still moves
    assert_eq!(player_pos(&p, 1), GridCoords::new(1, 1));
    assert_eq!(player_pos(&p, 2), GridCoords::new(2, 1));
}

#[test]
fn rejected_primary_move_changes_nothing_anywhere() {
    let mut p = two_by_two_puzzle();
    let blocked = grid_with(3, 3, &[(1, 2, TileType::Wall)]);
    p.rooms[0] = room(0, 0, blocked, Some(Player::new(GridCoords::new(1, 1), true)));
    assert!(!p.try_move(Direction::Up));
    for i in 0..4 {
        assert_eq!(player_pos(&p, i), GridCoords::new(1, 1));
        assert_eq!(p.rooms[i].player.as_ref().unwrap().queued_movements.0.len(), 0);
    }
}

#[test]
fn follower_room_without_occupant_is_a_no_op() {
    let mut p = two_by_two_puzzle();
    p.rooms[1] = room(0, 1, floor_grid(3, 3), None);
    assert!(p.try_move(Direction::Right));
    assert!(p.rooms[1].player.is_none());
    assert_eq!(player_pos(&p, 2), GridCoords::new(2, 1));
}

#[test]
fn movement_lock_runs_for_the_animation_time() {
    let g = floor_grid(3, 1);
    let mut p = single_room_puzzle(g, GridCoords::new(0, 0));
    p.try_move(Direction::Right);
    p.tick(0);
    assert!(p.rooms[0].player.as_ref().unwrap().is_moving());
    p.tick(MOVEMENT_TIME_MS - 1);
    assert!(p.rooms[0].player.as_ref().unwrap().is_moving());
    p.tick(1);
    assert!(!p.rooms[0].player.as_ref().unwrap().is_moving());
}

#[test]
fn follower_delay_holds_back_animation_and_tint() {
    let mut p = two_by_two_puzzle();
    p.try_move(Direction::Right);
    // delays have not elapsed: followers are not animating yet
    p.tick(NEIGHBOR_DELAY_MS - 1);
    assert!(!p.rooms[1].player.as_ref().unwrap().is_moving());
    assert_eq!(
        p.rooms[1].player.as_ref().unwrap().queued_movements.0[0].delay_ms,
        1
    );
    // one more millisecond releases the follower movement
    p.tick(1);
    assert!(p.rooms[1].player.as_ref().unwrap().is_moving());
    assert_eq!(p.rooms[1].player.as_ref().unwrap().queued_movements.0.len(), 0);
    assert!(p.rooms[1].is_active);
    // when the follower's animation completes, its room's tint clears
    p.tick(MOVEMENT_TIME_MS);
    assert!(!p.rooms[1].player.as_ref().unwrap().is_moving());
    assert!(!p.rooms[1].is_active);
}

#[test]
fn primary_room_tint_survives_animation() {
    let mut p = two_by_two_puzzle();
    assert!(p.rooms[0].is_active);
    p.try_move(Direction::Right);
    p.tick(0);
    p.tick(MOVEMENT_TIME_MS);
    assert!(p.rooms[0].is_active);
    assert!(!p.room_is_dimmed(0));
}

#[test]
fn queries_room_at_and_neighbors() {
    let p = two_by_two_puzzle();
    assert_eq!(p.room_at(MetaGridCoords::new(0, 1)), Some(1));
    assert_eq!(p.room_at(MetaGridCoords::new(2, 2)), None);
    let n = p.neighbors_of(MetaGridCoords::new(0, 0));
    assert_eq!(n, vec![1, 2]);
}

#[test]
fn direction_units() {
    assert_eq!(Direction::Up.unit_grid_coords(), GridCoords::new(0, 1));
    assert_eq!(Direction::Down.unit_grid_coords(), GridCoords::new(0, -1));
    assert_eq!(Direction::Left.unit_grid_coords(), GridCoords::new(-1, 0));
    assert_eq!(Direction::Right.unit_grid_coords(), GridCoords::new(1, 0));
    assert_eq!(Direction::Up.unit_vec(), (0, 32));
    assert_eq!(Direction::Left.unit_vec(), (-32, 0));
}
