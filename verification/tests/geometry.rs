use piw_pew::geometry::{
    cell_of, check_collision_circle_rec, is_in_world, nearest_in_span, WORLD_MAX, WORLD_MIN,
};
use piw_pew::utils::center;

#[test]
fn center_halves_both_extents() {
    assert_eq!(center(950u64, 650u64), (475, 325));
    assert_eq!(center(7u64, 1u64), (3, 0));
    assert_eq!(center(0u128, 9u128), (0, 4));
}

#[test]
fn cell_of_rounds_to_the_nearest_cell() {
    assert_eq!(cell_of(0), 0);
    assert_eq!(cell_of(34_999), 0);
    assert_eq!(cell_of(35_000), 1);
    assert_eq!(cell_of(70_000), 1);
    assert_eq!(cell_of(104_999), 1);
    assert_eq!(cell_of(105_000), 2);
    assert_eq!(cell_of(-1), 0);
    assert_eq!(cell_of(-35_000), 0);
    assert_eq!(cell_of(-35_001), -1);
    assert_eq!(cell_of(-105_000), -1);
    assert_eq!(cell_of(-105_001), -2);
    assert_eq!(cell_of(WORLD_MAX), i32::MAX as i64);
    assert_eq!(cell_of(WORLD_MIN), i32::MIN as i64);
}

#[test]
fn world_bounds_are_inclusive() {
    assert!(is_in_world(0));
    assert!(is_in_world(WORLD_MAX));
    assert!(is_in_world(WORLD_MIN));
    assert!(!is_in_world(WORLD_MAX + 1));
    assert!(!is_in_world(WORLD_MIN - 1));
}

#[test]
fn nearest_point_of_a_span() {
    assert_eq!(nearest_in_span(5, 10, 20), 10);
    assert_eq!(nearest_in_span(10, 10, 20), 10);
    assert_eq!(nearest_in_span(15, 10, 20), 15);
    assert_eq!(nearest_in_span(20, 10, 20), 20);
    assert_eq!(nearest_in_span(25, 10, 20), 20);
}

#[test]
fn circle_inside_the_box_meets_it() {
    assert!(check_collision_circle_rec(35_000, 35_000, 2_000, 0, 0, 70_000, 70_000));
}

#[test]
fn circle_touching_an_edge_meets_it() {
    assert!(check_collision_circle_rec(-2_000, 10_000, 2_000, 0, 0, 70_000, 70_000));
    assert!(!check_collision_circle_rec(-2_001, 10_000, 2_000, 0, 0, 70_000, 70_000));
    assert!(check_collision_circle_rec(72_000, 10_000, 2_000, 0, 0, 70_000, 70_000));
    assert!(!check_collision_circle_rec(72_001, 10_000, 2_000, 0, 0, 70_000, 70_000));
    assert!(check_collision_circle_rec(10_000, 72_000, 2_000, 0, 0, 70_000, 70_000));
    assert!(!check_collision_circle_rec(10_000, -2_001, 2_000, 0, 0, 70_000, 70_000));
}

#[test]
fn circle_near_a_corner_is_measured_to_the_corner() {
    // 1200^2 + 1600^2 = 2000^2
    assert!(check_collision_circle_rec(-1_200, -1_600, 2_000, 0, 0, 70_000, 70_000));
    assert!(!check_collision_circle_rec(-1_201, -1_600, 2_000, 0, 0, 70_000, 70_000));
    assert!(!check_collision_circle_rec(-2_000, -2_000, 2_000, 0, 0, 70_000, 70_000));
    assert!(check_collision_circle_rec(71_200, 71_600, 2_000, 0, 0, 70_000, 70_000));
    assert!(!check_collision_circle_rec(71_200, 71_601, 2_000, 0, 0, 70_000, 70_000));
}

#[test]
fn point_circle_and_empty_box() {
    assert!(check_collision_circle_rec(5, 5, 0, 5, 5, 0, 0));
    assert!(!check_collision_circle_rec(5, 6, 0, 5, 5, 0, 0));
    assert!(check_collision_circle_rec(5, 6, 1, 5, 5, 0, 0));
}
