use trametes::{lerp, rectangle_circle_intersection_slow, square_circle_intersection, COVERAGE_FULL};

#[test]
fn lerp_endpoints_and_midpoints() {
    assert_eq!(lerp(0, 10, 200), 10);
    assert_eq!(lerp(COVERAGE_FULL, 10, 200), 200);
    assert_eq!(lerp(5000, 0, 255), 128);
    assert_eq!(lerp(2500, 255, 0), 191);
}

#[test]
fn square_inside_circle_is_full() {
    assert_eq!(square_circle_intersection((0, 0), 1000, (0, 0), 256), COVERAGE_FULL);
    assert_eq!(square_circle_intersection((300, -200), 5000, (100, 100), 256), COVERAGE_FULL);
}

#[test]
fn circle_apart_from_square_is_zero() {
    assert_eq!(square_circle_intersection((0, 0), 100, (1000, 0), 256), 0);
    assert_eq!(square_circle_intersection((-5000, 7000), 300, (0, 0), 256), 0);
}

#[test]
fn small_circle_at_square_centre_counts_as_full() {
    // The first test squares (r - s*sqrt(2)/2), so a circle much smaller than
    // the square, sitting at its centre, passes it.
    assert_eq!(square_circle_intersection((0, 0), 64, (0, 0), 256), COVERAGE_FULL);
}

#[test]
fn partial_overlap_is_sampled() {
    assert_eq!(square_circle_intersection((0, 0), 128, (128, 0), 256), 3896);
    assert_eq!(
        square_circle_intersection((102400, 76800), 2560, (390 * 256 + 128, 300 * 256 + 128), 256),
        9776
    );
}

#[test]
fn slow_estimate_counts_grid_points() {
    assert_eq!(rectangle_circle_intersection_slow((0, 0), 100, 0, 0, 100, 100), 7789);
    assert_eq!(rectangle_circle_intersection_slow((0, 0), 1000, 0, 0, 100, 100), COVERAGE_FULL);
    assert_eq!(rectangle_circle_intersection_slow((5000, 5000), 10, 0, 0, 100, 100), 0);
}

#[test]
fn coverage_is_mirror_symmetric() {
    let a = square_circle_intersection((0, 0), 128, (128, 0), 256);
    assert_eq!(square_circle_intersection((256, 0), 128, (128, 0), 256), a);
    let b = square_circle_intersection((10, 40), 150, (128, 90), 256);
    assert_eq!(square_circle_intersection((246, 40), 150, (128, 90), 256), b);
    assert_eq!(square_circle_intersection((10, 140), 150, (128, 90), 256), b);
    assert_eq!(square_circle_intersection((10, 40), 150, (-108, 90), 256), b);
    // Across the diagonal through the square's centre: offsets trade places.
    assert_eq!(square_circle_intersection((78, -28), 150, (128, 90), 256), b);
}

#[test]
fn coverage_never_exceeds_full() {
    for dx in [-300i64, -130, -64, 0, 17, 90, 200] {
        for r in [0i64, 30, 128, 181, 400] {
            let c = square_circle_intersection((dx, dx / 2), r, (0, 0), 256);
            assert!(c <= COVERAGE_FULL);
        }
    }
}
