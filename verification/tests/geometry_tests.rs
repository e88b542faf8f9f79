use engine_behavior::geometry::{
    asteroid_fragment_points_i32, asteroid_radius_i32, asteroid_score_i32, rotate_points_i32,
    ship_points_i32, sin32_i32, to_i32,
};

#[test]
fn sine_table_quarter_points() {
    assert_eq!(sin32_i32(0), 0);
    assert_eq!(sin32_i32(8), 1024);
    assert_eq!(sin32_i32(16), 0);
    assert_eq!(sin32_i32(24), -1024);
    assert_eq!(sin32_i32(-8), -1024);
}

#[test]
fn asteroid_size_tables() {
    assert_eq!(asteroid_radius_i32(-3), 4);
    assert_eq!(asteroid_radius_i32(3), 15);
    assert_eq!(asteroid_score_i32(0), 35);
    assert_eq!(asteroid_score_i32(2), 15);
}

#[test]
fn ship_outline_pointing_up() {
    assert_eq!(ship_points_i32(0), vec![[0, -7], [-3, 3], [0, 1], [3, 3]]);
}

#[test]
fn rotation_floors_toward_negative_infinity() {
    assert_eq!(rotate_points_i32(&[[10, 0]], 8), vec![[0, 10]]);
    assert_eq!(rotate_points_i32(&[[1, 1]], 4), vec![[0, 1]]);
    assert_eq!(rotate_points_i32(&[[-1, 0]], 1), vec![[-1, -1]]);
}

#[test]
fn asteroid_fragments_are_closed_wedges() {
    assert_eq!(
        asteroid_fragment_points_i32(0, 3, 0),
        vec![[0, 0], [0, -12], [9, -7], [12, 1], [0, 0]]
    );
    assert_eq!(
        asteroid_fragment_points_i32(0, 3, -1),
        vec![[0, 0], [-4, 10], [-12, 2], [-9, -8], [0, -12], [0, 0]]
    );
}

#[test]
fn script_integers_clamp_to_32_bits() {
    assert_eq!(to_i32(i64::MAX), i32::MAX);
    assert_eq!(to_i32(i64::MIN), i32::MIN);
    assert_eq!(to_i32(-5), -5);
}
