//! The stage catalog: coordinate math, tile kinds, pixel placement and
//! loading stages from room declarations.

use beside_yourself::level::{
    load_all_meta_levels, load_meta_level, GridCoords, MetaGridCoords, MetaLevel, RoomDeclaration,
    StageLoadError, TileType,
};
use beside_yourself::util::{grid_coords_to_tile_pos, TilePos};

fn decl(iid: &str, level_num: i32, row: i32, col: i32) -> RoomDeclaration {
    RoomDeclaration {
        iid: String::from(iid),
        level_num: Some(level_num),
        grid_row: Some(row),
        grid_col: Some(col),
        px_wid: 96,
        px_hei: 96,
    }
}

#[test]
fn neighbor_is_manhattan_distance_one() {
    let a = MetaGridCoords::new(0, 0);
    assert!(a.is_neighbor(MetaGridCoords::new(0, 1)));
    assert!(a.is_neighbor(MetaGridCoords::new(1, 0)));
    assert!(a.is_neighbor(MetaGridCoords::new(-1, 0)));
    assert!(!a.is_neighbor(MetaGridCoords::new(1, 1)));
    assert!(!a.is_neighbor(a));
    assert!(!a.is_neighbor(MetaGridCoords::new(0, 2)));
}

#[test]
fn neighbor_handles_extreme_coordinates() {
    let a = MetaGridCoords::new(i32::MAX, 0);
    assert!(a.is_neighbor(MetaGridCoords::new(i32::MAX - 1, 0)));
    assert!(!a.is_neighbor(MetaGridCoords::new(i32::MIN, 0)));
}

#[test]
fn tile_kind_from_cell_value() {
    assert_eq!(TileType::from_cell_value(1), Some(TileType::Floor));
    assert_eq!(TileType::from_cell_value(2), Some(TileType::Goal));
    assert_eq!(TileType::from_cell_value(3), Some(TileType::Wall));
    assert_eq!(TileType::from_cell_value(4), Some(TileType::Boundary));
    assert_eq!(TileType::from_cell_value(0), None);
    assert_eq!(TileType::from_cell_value(5), None);
    assert_eq!(TileType::from_cell_value(-1), None);
}

#[test]
fn grid_coords_to_tile_pos_rejects_negative() {
    assert_eq!(
        grid_coords_to_tile_pos(GridCoords::new(3, 4)),
        Some(TilePos { x: 3, y: 4 })
    );
    assert_eq!(grid_coords_to_tile_pos(GridCoords::new(-1, 0)), None);
    assert_eq!(grid_coords_to_tile_pos(GridCoords::new(0, -7)), None);
}

#[test]
fn loads_a_two_room_stage() {
    let rooms = vec![decl("a", 0, 0, 0), decl("b", 0, 0, 1)];
    let m = load_meta_level(0, &rooms).unwrap();
    assert_eq!(m.level_num, 0);
    assert_eq!(m.meta_grid_width, 2);
    assert_eq!(m.meta_grid_height, 1);
    assert_eq!(m.level_grid_width, 3);
    assert_eq!(m.level_grid_height, 3);
    assert_eq!(m.initial_placement.len(), 2);
    assert_eq!(m.initial_placement[0].0, MetaGridCoords::new(0, 0));
    assert_eq!(m.initial_placement[0].1, "a");
    assert_eq!(m.initial_placement[1].0, MetaGridCoords::new(0, 1));
    assert_eq!(m.initial_placement[1].1, "b");
}

#[test]
fn stage_dimensions_are_maxima_over_rooms() {
    let mut rooms = vec![decl("a", 0, 0, 0), decl("b", 0, 2, 1)];
    rooms[1].px_wid = 160;
    rooms[1].px_hei = 64;
    let m = load_meta_level(0, &rooms).unwrap();
    assert_eq!(m.meta_grid_width, 2);
    assert_eq!(m.meta_grid_height, 3);
    assert_eq!(m.level_grid_width, 5);
    assert_eq!(m.level_grid_height, 3);
}

#[test]
fn other_stages_rooms_are_ignored() {
    let rooms = vec![decl("a", 0, 0, 0), decl("b", 1, 0, 0), decl("c", 1, 0, 1)];
    let m = load_meta_level(1, &rooms).unwrap();
    assert_eq!(m.initial_placement.len(), 2);
    assert_eq!(m.initial_placement[0].1, "b");
}

#[test]
fn missing_placement_tag_is_malformed() {
    let mut rooms = vec![decl("a", 0, 0, 0)];
    rooms[0].grid_row = None;
    assert!(matches!(
        load_meta_level(0, &rooms),
        Err(StageLoadError::MalformedStage)
    ));
    let mut rooms = vec![decl("a", 0, 0, 0)];
    rooms[0].grid_col = None;
    assert!(matches!(
        load_meta_level(0, &rooms),
        Err(StageLoadError::MalformedStage)
    ));
}

#[test]
fn duplicate_position_is_malformed() {
    let rooms = vec![decl("a", 0, 0, 0), decl("b", 0, 0, 0)];
    assert!(matches!(
        load_meta_level(0, &rooms),
        Err(StageLoadError::MalformedStage)
    ));
}

#[test]
fn negative_placement_tag_is_malformed() {
    let rooms = vec![decl("a", 0, -1, 0)];
    assert!(matches!(
        load_meta_level(0, &rooms),
        Err(StageLoadError::MalformedStage)
    ));
}

#[test]
fn absent_stage_is_not_found() {
    let rooms = vec![decl("a", 0, 0, 0)];
    assert!(matches!(load_meta_level(5, &rooms), Err(StageLoadError::StageNotFound)));
    let empty: Vec<RoomDeclaration> = Vec::new();
    assert!(matches!(load_meta_level(0, &empty), Err(StageLoadError::StageNotFound)));
}

#[test]
fn catalog_stops_at_first_gap() {
    let rooms = vec![decl("a", 0, 0, 0), decl("b", 1, 0, 0), decl("d", 3, 0, 0)];
    let all = load_all_meta_levels(&rooms).unwrap();
    assert_eq!(all.0.len(), 2);
    assert_eq!(all.0[0].level_num, 0);
    assert_eq!(all.0[1].level_num, 1);
}

#[test]
fn catalog_fails_on_any_malformed_stage() {
    let mut rooms = vec![decl("a", 0, 0, 0), decl("b", 1, 0, 0)];
    rooms[1].grid_row = None;
    assert!(matches!(
        load_all_meta_levels(&rooms),
        Err(StageLoadError::MalformedStage)
    ));
}

#[test]
fn select_wraps_to_first_stage() {
    let rooms = vec![decl("a", 0, 0, 0), decl("b", 1, 0, 0)];
    let all = load_all_meta_levels(&rooms).unwrap();
    assert_eq!(all.select(1).level_num, 1);
    assert_eq!(all.select(2).level_num, 0);
    assert_eq!(all.select(-3).level_num, 0);
}

#[test]
fn initial_position_of_finds_room() {
    let rooms = vec![decl("a", 0, 0, 0), decl("b", 0, 0, 1)];
    let m = load_meta_level(0, &rooms).unwrap();
    assert_eq!(
        m.initial_position_of(&String::from("b")),
        Some(MetaGridCoords::new(0, 1))
    );
    assert_eq!(m.initial_position_of(&String::from("zz")), None);
}

fn sample_level() -> MetaLevel {
    MetaLevel {
        level_num: 0,
        meta_grid_width: 2,
        meta_grid_height: 2,
        level_grid_width: 10,
        level_grid_height: 8,
        initial_placement: Vec::new(),
    }
}

#[test]
fn pixel_sizes() {
    let m = sample_level();
    assert_eq!(m.level_width_px(), 320);
    assert_eq!(m.level_height_px(), 256);
    assert_eq!(m.total_width_px(), 640);
    assert_eq!(m.total_height_px(), 512);
    assert_eq!(m.unpadded_item_width_px(), 288);
    assert_eq!(m.unpadded_item_height_px(), 224);
}

#[test]
fn translation_centers_rooms_in_half_pixels() {
    let m = sample_level();
    // room (0,0): -160 px - 160 px centering = -320 px; rows flip, so
    // row 0 sits above the origin by half a room height exactly
    assert_eq!(m.get_translation(MetaGridCoords::new(0, 0)), (-640, 0));
    assert_eq!(m.get_translation(MetaGridCoords::new(0, 1)), (0, 0));
    assert_eq!(m.get_translation(MetaGridCoords::new(1, 0)), (-640, -512));
    assert_eq!(m.get_translation(MetaGridCoords::new(1, 1)), (0, -512));
}

#[test]
fn texture_center_translation_in_half_pixels() {
    let m = sample_level();
    assert_eq!(
        m.get_center_translation_for_texture(MetaGridCoords::new(0, 0)),
        (640, 464)
    );
    assert_eq!(
        m.get_center_translation_for_texture(MetaGridCoords::new(1, 1)),
        (1280, 976)
    );
}

#[test]
fn tile_pixel_translation() {
    let m = sample_level();
    assert_eq!(m.grid_coords_to_translation(GridCoords::new(3, 2)), (96, 64));
    assert_eq!(m.grid_coords_to_translation(GridCoords::new(0, 0)), (0, 0));
}

#[test]
fn drag_areas_tile_the_grid_with_margin() {
    let m = sample_level();
    assert_eq!(
        m.drag_area_rect(MetaGridCoords::new(0, 0)),
        (-16, -16, 288, 224)
    );
    assert_eq!(
        m.drag_area_rect(MetaGridCoords::new(1, 1)),
        (304, 240, 288, 224)
    );
}

#[test]
fn boundary_edge_coordinates_skip_corners() {
    let mut m = sample_level();
    m.level_grid_width = 4;
    m.level_grid_height = 3;
    let top = m.top_boundary_coords();
    assert_eq!(top, vec![GridCoords::new(1, 2), GridCoords::new(2, 2)]);
    let bottom = m.bottom_boundary_coords();
    assert_eq!(bottom, vec![GridCoords::new(1, 0), GridCoords::new(2, 0)]);
    let left = m.left_boundary_coords();
    assert_eq!(left, vec![GridCoords::new(0, 1)]);
    let right = m.right_boundary_coords();
    assert_eq!(right, vec![GridCoords::new(3, 1)]);
}
