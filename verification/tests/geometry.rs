use world_core::geometry::{chunk_coordinate, is_farther_than, shifted_x, Point3, UNIT};

fn at(x: i32, y: i32, z: i32) -> Point3 {
    Point3 { x, y, z }
}

#[test]
fn unit_is_a_thousand_sub_units() {
    assert_eq!(UNIT, 1000);
}

#[test]
fn a_point_at_the_threshold_is_not_farther() {
    assert!(!is_farther_than(at(0, 0, 0), at(3, 4, 0), 5));
    assert!(is_farther_than(at(0, 0, 0), at(3, 4, 1), 5));
    assert!(!is_farther_than(at(0, 0, 0), at(3, 3, 0), 5));
    assert!(!is_farther_than(at(7, 7, 7), at(7, 7, 7), 0));
    assert!(is_farther_than(at(7, 7, 7), at(7, 8, 7), 0));
}

#[test]
fn distance_counts_all_three_axes() {
    assert!(!is_farther_than(at(1, 2, 3), at(3, 5, 9), 7));
    assert!(is_farther_than(at(1, 2, 3), at(3, 5, 9), 6));
    assert!(is_farther_than(at(0, 0, 0), at(0, 0, 50_001), 50_000));
    assert!(is_farther_than(at(0, 50_001, 0), at(0, 0, 0), 50_000));
}

#[test]
fn distance_is_exact_at_the_ends_of_the_range() {
    let low = at(i32::MIN, i32::MIN, i32::MIN);
    let high = at(i32::MAX, i32::MAX, i32::MAX);
    assert!(is_farther_than(low, high, u32::MAX));
    assert!(!is_farther_than(at(i32::MIN, 0, 0), at(i32::MAX, 0, 0), u32::MAX));
    assert!(is_farther_than(at(i32::MIN, 0, 0), at(i32::MAX, 0, 0), u32::MAX - 1));
}

#[test]
fn chunk_coordinate_is_the_floor() {
    assert_eq!(chunk_coordinate(25_000, 50), 0);
    assert_eq!(chunk_coordinate(0, 50), 0);
    assert_eq!(chunk_coordinate(49_999, 50), 0);
    assert_eq!(chunk_coordinate(50_000, 50), 1);
    assert_eq!(chunk_coordinate(-1, 50), -1);
    assert_eq!(chunk_coordinate(-50_000, 50), -1);
    assert_eq!(chunk_coordinate(-50_001, 50), -2);
    assert_eq!(chunk_coordinate(i32::MAX, 50), 42_949);
    assert_eq!(chunk_coordinate(i32::MIN, 50), -42_950);
    assert_eq!(chunk_coordinate(i32::MIN, 1), -2_147_484);
    assert_eq!(chunk_coordinate(-7, 2_147_483), -1);
}

#[test]
fn shifted_x_moves_along_x_only_and_stops_at_the_range() {
    assert_eq!(shifted_x(at(10, 20, 30), 550), at(560, 20, 30));
    assert_eq!(shifted_x(at(10, 20, 30), -550), at(-540, 20, 30));
    assert_eq!(shifted_x(at(i32::MAX - 5, 1, 2), 550), at(i32::MAX, 1, 2));
    assert_eq!(shifted_x(at(i32::MIN + 5, 1, 2), -550), at(i32::MIN, 1, 2));
}
