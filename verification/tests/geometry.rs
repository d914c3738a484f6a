use tokyo::geom::{
    isqrt, saturate_wide, Heading, Position, Velocity, COORD_MAX, COS_30_DEGREES, COS_5_DEGREES,
    COS_TENTH_DEGREE, HEADING_ONE,
};

fn heading(dx: i32, dy: i32) -> Heading {
    Heading::new(dx, dy).unwrap()
}

#[test]
fn isqrt_rounds_down() {
    assert_eq!(isqrt(0), 0);
    assert_eq!(isqrt(1), 1);
    assert_eq!(isqrt(15), 3);
    assert_eq!(isqrt(16), 4);
    assert_eq!(isqrt(17), 4);
    assert_eq!(isqrt(1_000_000_000_000_000_000), 1_000_000_000);
    assert_eq!(isqrt(999_999_999_999_999_999), 999_999_999);
    assert_eq!(isqrt((1u128 << 126) - 1), (1u64 << 63) - 1);
}

#[test]
fn saturate_wide_stops_at_the_ends() {
    assert_eq!(saturate_wide(0), 0);
    assert_eq!(saturate_wide(-17), -17);
    assert_eq!(saturate_wide(COORD_MAX as i128), COORD_MAX);
    assert_eq!(saturate_wide(COORD_MAX as i128 + 1), COORD_MAX);
    assert_eq!(saturate_wide(-(COORD_MAX as i128) - 1), -COORD_MAX);
    assert_eq!(saturate_wide(i128::MIN), -COORD_MAX);
    assert_eq!(saturate_wide(i128::MAX), COORD_MAX);
}

#[test]
fn heading_is_at_most_a_unit_long() {
    assert!(Heading::new(HEADING_ONE, 0).is_some());
    assert!(Heading::new(0, -HEADING_ONE).is_some());
    assert!(Heading::new(600_000_000, 800_000_000).is_some());
    assert!(Heading::new(0, 0).is_some());
    assert!(Heading::new(HEADING_ONE, 1).is_none());
    assert!(Heading::new(600_000_001, 800_000_000).is_none());
    assert!(Heading::new(i32::MIN, i32::MIN).is_none());
    let h = heading(-600_000_000, 800_000_000);
    assert_eq!(h.dx(), -600_000_000);
    assert_eq!(h.dy(), 800_000_000);
}

#[test]
fn east_is_angle_zero() {
    assert_eq!(Heading::east(), heading(HEADING_ONE, 0));
}

#[test]
fn toward_rescales_to_a_unit() {
    assert_eq!(Heading::toward(3, 4), heading(600_000_000, 800_000_000));
    assert_eq!(Heading::toward(-3_000, 4_000), heading(-600_000_000, 800_000_000));
    assert_eq!(Heading::toward(-5, 0), heading(-HEADING_ONE, 0));
    assert_eq!(Heading::toward(0, -7), heading(0, -HEADING_ONE));
    assert_eq!(Heading::toward(1, 1), heading(707_106_781, 707_106_781));
    assert_eq!(Heading::toward(1, -2), heading(447_213_595, -894_427_190));
    assert_eq!(Heading::toward(0x1_0000_0000, -0x1_0000_0000), heading(707_106_781, -707_106_781));
}

#[test]
fn toward_nothing_is_east() {
    assert_eq!(Heading::toward(0, 0), Heading::east());
}

#[test]
fn tangent_is_a_quarter_turn_to_the_left() {
    assert_eq!(Heading::east().tangent(), heading(0, HEADING_ONE));
    assert_eq!(Heading::east().tangent().tangent(), heading(-HEADING_ONE, 0));
    assert_eq!(heading(600_000_000, 800_000_000).tangent(), heading(-800_000_000, 600_000_000));
}

#[test]
fn dot_is_the_scaled_cosine() {
    let east = Heading::east();
    let north = east.tangent();
    assert_eq!(east.dot(&east), 1_000_000_000_000_000_000);
    assert_eq!(east.dot(&north), 0);
    assert_eq!(east.dot(&north.tangent()), -1_000_000_000_000_000_000);
    assert_eq!(
        heading(600_000_000, 800_000_000).dot(&heading(800_000_000, -600_000_000)),
        0
    );
    assert_eq!(heading(600_000_000, 800_000_000).dot(&east), 600_000_000_000_000_000);
}

#[test]
fn within_compares_with_the_cosine_of_the_margin() {
    let east = Heading::east();
    let five_degrees = heading(996_194_698, 87_155_742);
    let six_degrees = heading(994_521_895, 104_528_463);
    assert!(east.within(&east, COS_TENTH_DEGREE));
    assert!(east.within(&five_degrees, COS_5_DEGREES));
    assert!(!east.within(&six_degrees, COS_5_DEGREES));
    assert!(!east.within(&five_degrees, COS_TENTH_DEGREE));
    assert!(east.within(&six_degrees, COS_30_DEGREES));
    assert!(!east.within(&east.tangent(), COS_30_DEGREES));
}

#[test]
fn distance_between_points() {
    let a = Position { x: 1_000, y: 2_000 };
    let b = Position { x: 4_000, y: -2_000 };
    assert_eq!(a.distance_squared(&b), 25_000_000);
    assert_eq!(a.distance(&b), 5_000);
    assert_eq!(b.distance(&a), 5_000);
    assert_eq!(a.distance(&a), 0);
    assert_eq!(Position { x: 0, y: 0 }.distance(&Position { x: 1, y: 1 }), 1);
    let far = Position { x: i32::MIN, y: i32::MIN };
    let farther = Position { x: i32::MAX, y: i32::MAX };
    assert_eq!(far.distance_squared(&farther), 2 * 0xffff_ffffu128 * 0xffff_ffffu128);
    assert_eq!(far.distance(&farther), 6_074_000_998);
}

#[test]
fn angle_to_points_at_the_other() {
    let a = Position { x: 10_000, y: 10_000 };
    assert_eq!(a.angle_to(&Position { x: 13_000, y: 14_000 }), heading(600_000_000, 800_000_000));
    assert_eq!(a.angle_to(&Position { x: 10_000, y: 0 }), heading(0, -HEADING_ONE));
    assert_eq!(a.angle_to(&a), Heading::east());
}

#[test]
fn velocity_to_divides_the_way_by_the_time() {
    let a = Position { x: 0, y: 0 };
    let b = Position { x: 1_500, y: -3_000 };
    assert_eq!(a.velocity_to(&b, 100), Velocity { dx: 15_000, dy: -30_000 });
    assert_eq!(a.velocity_to(&b, 1_000), Velocity { dx: 1_500, dy: -3_000 });
    assert_eq!(a.velocity_to(&b, 7_000), Velocity { dx: 214, dy: -428 });
    assert_eq!(a.velocity_to(&b, 0), Velocity { dx: 0, dy: 0 });
    let far = Position { x: i32::MAX, y: i32::MIN };
    assert_eq!(a.velocity_to(&far, 1), Velocity { dx: COORD_MAX, dy: -COORD_MAX });
}

#[test]
fn project_moves_along_the_velocity() {
    let a = Position { x: 1_000, y: 1_000 };
    let v = Velocity { dx: 300_000, dy: -150_000 };
    assert_eq!(a.project(&v, 10), Position { x: 4_000, y: -500 });
    assert_eq!(a.project(&v, 0), a);
    assert_eq!(a.project(&Velocity { dx: -1, dy: 1 }, 999), a);
    assert_eq!(a.project(&Velocity { dx: -1, dy: 1 }, 1_000), Position { x: 999, y: 1_001 });
    assert_eq!(
        a.project(&v, u64::MAX),
        Position { x: COORD_MAX, y: -COORD_MAX }
    );
}

#[test]
fn velocity_along_a_heading() {
    let north = Heading::east().tangent();
    assert_eq!(Velocity::with_angle_speed(&north, 300_000), Velocity { dx: 0, dy: 300_000 });
    assert_eq!(
        Velocity::with_angle_speed(&heading(-600_000_000, 800_000_000), 1_000),
        Velocity { dx: -600, dy: 800 }
    );
    assert_eq!(
        Velocity::with_angle_speed(&heading(707_106_781, -707_106_781), 1_000),
        Velocity { dx: 707, dy: -707 }
    );
    assert_eq!(Velocity::zero(), Velocity { dx: 0, dy: 0 });
}

#[test]
fn velocity_magnitudes_and_speed() {
    let v = Velocity { dx: -3_000, dy: 4_000 };
    assert_eq!(v.abs(), Velocity { dx: 3_000, dy: 4_000 });
    assert_eq!(v.length_squared(), 25_000_000);
    assert_eq!(Velocity { dx: i32::MIN, dy: 0 }.abs(), Velocity { dx: COORD_MAX, dy: 0 });
    assert_eq!(
        Velocity { dx: i32::MIN, dy: i32::MIN }.length_squared(),
        2 * 0x8000_0000u64 * 0x8000_0000u64
    );
}

#[test]
fn velocity_tangent_steps_aside() {
    assert_eq!(Velocity { dx: 300_000, dy: 0 }.tangent(), heading(0, HEADING_ONE));
    assert_eq!(Velocity { dx: -300_000, dy: 0 }.tangent(), heading(0, -HEADING_ONE));
    assert_eq!(Velocity { dx: 3, dy: 4 }.tangent(), heading(-800_000_000, 600_000_000));
    assert_eq!(Velocity { dx: 0, dy: 0 }.tangent(), Heading::east());
}
