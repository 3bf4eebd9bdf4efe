use pcstone::geometry::{check_collision, coord, map_to_grid, map_to_pixel, GRID_SIZE};

#[test]
fn boxes_that_share_area_overlap() {
    assert!(check_collision(0, 0, 10, 10, 5, 5, 10, 10));
    assert!(check_collision(5, 5, 10, 10, 0, 0, 10, 10));
    assert!(check_collision(2, 2, 1, 1, 0, 0, 10, 10));
}

#[test]
fn boxes_that_only_touch_do_not_overlap() {
    assert!(!check_collision(0, 0, 10, 10, 10, 0, 10, 10));
    assert!(!check_collision(10, 0, 10, 10, 0, 0, 10, 10));
    assert!(!check_collision(0, 0, 10, 10, 0, 10, 10, 10));
    assert!(!check_collision(0, 10, 10, 10, 0, 0, 10, 10));
    assert!(check_collision(0, 0, 10, 10, 9, 9, 10, 10));
}

#[test]
fn boxes_apart_on_one_axis_do_not_overlap() {
    assert!(!check_collision(0, 0, 10, 10, 50, 0, 10, 10));
    assert!(!check_collision(0, 0, 10, 10, 0, 50, 10, 10));
}

#[test]
fn empty_box_overlaps_only_where_it_lies_inside() {
    assert!(!check_collision(0, 0, 0, 0, 0, 0, 10, 10));
    assert!(check_collision(1, 1, 0, 0, 0, 0, 10, 10));
    assert!(!check_collision(10, 10, 0, 0, 0, 0, 10, 10));
}

#[test]
fn overlap_at_the_ends_of_the_coordinate_range() {
    assert!(check_collision(i32::MAX, i32::MAX, u32::MAX, u32::MAX, i32::MAX, i32::MAX, 1, 1));
    assert!(!check_collision(i32::MIN, 0, 1, 1, i32::MAX, 0, u32::MAX, 1));
    assert!(check_collision(i32::MIN, 0, u32::MAX, 1, i32::MAX - 1, 0, 5, 1));
}

#[test]
fn coordinates_saturate() {
    assert_eq!(coord(0), 0);
    assert_eq!(coord(-7), -7);
    assert_eq!(coord(i32::MAX as i64), i32::MAX);
    assert_eq!(coord(i32::MAX as i64 + 1), i32::MAX);
    assert_eq!(coord(i32::MIN as i64 - 1), i32::MIN);
    assert_eq!(coord(i64::MAX), i32::MAX);
    assert_eq!(coord(i64::MIN), i32::MIN);
}

#[test]
fn pixels_map_to_their_cell() {
    assert_eq!(GRID_SIZE, 16);
    assert_eq!(map_to_grid((0, 0)), (0, 0));
    assert_eq!(map_to_grid((15, 16)), (0, 1));
    assert_eq!(map_to_grid((255, 143)), (15, 8));
}

#[test]
fn cells_map_to_their_corner() {
    assert_eq!(map_to_pixel((0, 0)), (0, 0));
    assert_eq!(map_to_pixel((3, 2)), (48, 32));
    assert_eq!(map_to_grid(map_to_pixel((7, 5))), (7, 5));
}
