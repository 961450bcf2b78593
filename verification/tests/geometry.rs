use flocksim::component::{Heading, Position, Velocity};
use flocksim::geometry::{
    distance_squared, isqrt, normalize, scale_toward_zero, BoundingBox, Vec2, COORD_LIMIT, UNIT,
    WORLD_SIZE,
};

#[test]
fn isqrt_rounds_down() {
    assert_eq!(isqrt(0), 0);
    assert_eq!(isqrt(1), 1);
    assert_eq!(isqrt(3), 1);
    assert_eq!(isqrt(4), 2);
    assert_eq!(isqrt(24), 4);
    assert_eq!(isqrt(25), 5);
    assert_eq!(isqrt(1_000_000_000_000), 1_000_000);
    assert_eq!(isqrt(999_999_999_999), 999_999);
    assert_eq!(isqrt(u128::MAX), u64::MAX);
    assert_eq!(isqrt((u64::MAX as u128) * (u64::MAX as u128) - 1), u64::MAX - 1);
}

#[test]
fn distance_squared_of_bounded_points() {
    assert_eq!(distance_squared(Vec2::new(0, 0), Vec2::new(3, 4)), 25);
    assert_eq!(distance_squared(Vec2::new(-3, 4), Vec2::new(3, -4)), 100);
    assert_eq!(distance_squared(Vec2::new(7, 7), Vec2::new(7, 7)), 0);
    assert_eq!(
        distance_squared(
            Vec2::new(COORD_LIMIT, COORD_LIMIT),
            Vec2::new(-COORD_LIMIT, -COORD_LIMIT)
        ),
        8_000_000_000_000_000_000
    );
}

#[test]
fn bounds_and_world() {
    assert!(Vec2::new(COORD_LIMIT, -COORD_LIMIT).is_bounded());
    assert!(!Vec2::new(COORD_LIMIT + 1, 0).is_bounded());
    assert!(!Vec2::new(0, -COORD_LIMIT - 1).is_bounded());
    assert!(Vec2::new(1, 1).is_in_world());
    assert!(Vec2::new(WORLD_SIZE - 1, WORLD_SIZE - 1).is_in_world());
    // The world box is open.
    assert!(!Vec2::new(0, 5).is_in_world());
    assert!(!Vec2::new(5, 0).is_in_world());
    assert!(!Vec2::new(WORLD_SIZE, 5).is_in_world());
    assert!(!Vec2::new(5, WORLD_SIZE).is_in_world());
    assert_eq!(WORLD_SIZE, 80 * UNIT);
}

#[test]
fn scale_toward_zero_rounds_toward_zero() {
    assert_eq!(scale_toward_zero(7, 3, 2), 10);
    assert_eq!(scale_toward_zero(-7, 3, 2), -10);
    assert_eq!(scale_toward_zero(0, 3, 2), 0);
    assert_eq!(scale_toward_zero(-1, 1, 2), 0);
}

#[test]
fn normalize_scales_to_unit_length() {
    assert_eq!(normalize(0, 0), None);
    assert_eq!(normalize(3, 4), Some(Vec2::new(600_000, 800_000)));
    assert_eq!(normalize(-3, 4), Some(Vec2::new(-600_000, 800_000)));
    assert_eq!(normalize(-7, 0), Some(Vec2::new(-1_000_000, 0)));
    assert_eq!(normalize(2_000_000, 3_000_000), Some(Vec2::new(554_700, 832_050)));
    assert_eq!(normalize(0, -123_456_789_012), Some(Vec2::new(0, -1_000_000)));
}

#[test]
fn heading_new() {
    assert_eq!(Heading::east().r, Vec2::new(UNIT, 0));
    assert_eq!(Heading::new(0, 0), None);
    assert_eq!(Heading::new(5, 0), Some(Heading::east()));
    assert_eq!(Heading::new(3_000, -4_000).map(|h| h.r), Some(Vec2::new(600_000, -800_000)));
    assert_eq!(Heading::new(i64::MAX, 1), None);
    assert_eq!(Heading::new(1, i64::MIN), None);
}

#[test]
fn component_constructors() {
    assert_eq!(Position::new(3, -4).v, Vec2::new(3, -4));
    assert_eq!(Velocity::new(150_000, 0).v, Vec2::new(150_000, 0));
}

#[test]
fn bounding_box_is_closed() {
    let b = BoundingBox { min_x: -5, max_x: 10, min_y: 0, max_y: 3 };
    assert!(b.contains(Vec2::new(-5, 0)));
    assert!(b.contains(Vec2::new(10, 3)));
    assert!(b.contains(Vec2::new(0, 1)));
    assert!(!b.contains(Vec2::new(-6, 1)));
    assert!(!b.contains(Vec2::new(11, 1)));
    assert!(!b.contains(Vec2::new(0, -1)));
    assert!(!b.contains(Vec2::new(0, 4)));
}
