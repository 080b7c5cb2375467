use tag::geometry::{div_toward_zero, euclid_mod, isqrt, Position, Velocity};

#[test]
fn isqrt_exact_values() {
    assert_eq!(isqrt(0), 0);
    assert_eq!(isqrt(1), 1);
    assert_eq!(isqrt(3), 1);
    assert_eq!(isqrt(4), 2);
    assert_eq!(isqrt(999_999), 999);
    assert_eq!(isqrt(1_000_000), 1000);
    assert_eq!(isqrt(i64::MAX), 3_037_000_499);
}

#[test]
fn euclid_mod_wraps_negatives() {
    assert_eq!(euclid_mod(7, 5), 2);
    assert_eq!(euclid_mod(-1, 5), 4);
    assert_eq!(euclid_mod(-5, 5), 0);
    assert_eq!(euclid_mod(-1000, 1_024_000), 1_023_000);
    assert_eq!(euclid_mod(1_024_500, 1_024_000), 500);
}

#[test]
fn div_toward_zero_truncates() {
    assert_eq!(div_toward_zero(7, 2), 3);
    assert_eq!(div_toward_zero(-7, 2), -3);
    assert_eq!(div_toward_zero(0, 9), 0);
}

#[test]
fn distance_between_points() {
    let a = Position::new(0, 0);
    let b = Position::new(3000, 4000);
    assert_eq!(a.distance2_to(&b), 25_000_000);
    assert_eq!(a.distance_to(&b), 5000);
    assert_eq!(b.distance_to(&a), 5000);
}

#[test]
fn magnitude_of_velocity() {
    let v = Velocity::new(3000, 4000);
    assert_eq!(v.mag2(), 25_000_000);
    assert_eq!(v.magnitude(), 5000);
}

#[test]
fn normalize_scales_to_unit() {
    let v = Velocity::new(3000, 4000);
    let n = v.normalize();
    assert_eq!((n.x, n.y), (600, 800));
    let z = Velocity::new(0, 0).normalize();
    assert_eq!((z.x, z.y), (0, 0));
}

#[test]
fn velocity_facing_is_normalized_delta() {
    let a = Position::new(1000, 1000);
    let b = Position::new(4000, 5000);
    let f = a.velocity_facing(&b);
    assert_eq!((f.x, f.y), (600, 800));
    let same = a.velocity_facing(&a);
    assert_eq!((same.x, same.y), (0, 0));
}

#[test]
fn negate_velocity_flips_both_components() {
    let v = Velocity::new(2, -3);
    let n = v.negate_velocity();
    assert_eq!((n.x, n.y), (-2, 3));
}

// Steering regression: velocity (1, 1) steered at the direction of
// (-7, 7) must point exactly along (-1, 1) with the speed preserved
// (tolerance of one milli-unit).
#[test]
fn steering_reproduces_target_direction() {
    let v = Velocity::new(1000, 1000);
    let target_dir = Velocity::new(-7000, 7000).normalize();
    assert_eq!((target_dir.x, target_dir.y), (-707, 707));
    let steered = v.rotate_toward(&target_dir);
    assert_eq!((steered.x, steered.y), (-1000, 1000));
    // Speed is preserved exactly in this case.
    assert_eq!(steered.mag2(), v.mag2());
}

#[test]
fn steering_never_raises_speed() {
    let cases = [
        (1000i64, 0i64, 333i64, 333i64),
        (250, -750, -1000, 1),
        (5, 5, 1000, -1000),
        (0, 0, 700, 300),
    ];
    for (vx, vy, dx, dy) in cases {
        let v = Velocity::new(vx, vy);
        let d = Velocity::new(dx, dy);
        let r = v.rotate_toward(&d);
        assert!(r.mag2() <= v.mag2());
    }
}

#[test]
fn steering_with_zero_direction_is_identity() {
    let v = Velocity::new(123, -456);
    let r = v.rotate_toward(&Velocity::new(0, 0));
    assert_eq!((r.x, r.y), (123, -456));
}
