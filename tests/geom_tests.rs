use canvas_sim::geom::{clamp_i64, dist_sq, isqrt_ceil, limit_speed_i64, pull, scale_i64};

#[test]
fn ceiling_square_roots() {
    assert_eq!(isqrt_ceil(0), 0);
    assert_eq!(isqrt_ceil(1), 1);
    assert_eq!(isqrt_ceil(2), 2);
    assert_eq!(isqrt_ceil(16), 4);
    assert_eq!(isqrt_ceil(17), 5);
    assert_eq!(isqrt_ceil(25_000_000), 5000);
}

#[test]
fn speed_is_limited_keeping_direction() {
    assert_eq!(limit_speed_i64(3000, -4000, 1500), (900, -1200));
    assert_eq!(limit_speed_i64(300, 400, 1500), (300, 400));
    let (x, y) = limit_speed_i64(1001, 1001, 1000);
    assert!(x * x + y * y <= 1000 * 1000);
    assert_eq!(x, y);
}

#[test]
fn scaling_rounds_toward_zero() {
    assert_eq!(scale_i64(-7, 1, 2), -3);
    assert_eq!(scale_i64(7, 1, 2), 3);
    assert_eq!(scale_i64(100, 99, 100), 99);
}

#[test]
fn distances_and_pulls() {
    assert_eq!(dist_sq(0, 0, 3, 4), 25);
    assert_eq!(clamp_i64(-5, 0, 10), 0);
    assert_eq!(pull(3, 500, 25), 60);
    assert_eq!(pull(-3, 500, 25), -60);
}
