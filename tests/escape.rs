use mandelbrot::escape::{fractal_iterations, Point, SCALE};

fn point(re: i64, im: i64) -> Point {
    Point { re, im }
}

#[test]
fn origin_never_escapes() {
    for n in [0usize, 1, 2, 10, 100, 1000] {
        assert_eq!(fractal_iterations(point(0, 0), n), n);
    }
}

#[test]
fn three_escapes_at_step_zero() {
    for n in [1usize, 2, 10, 500] {
        assert_eq!(fractal_iterations(point(3 * SCALE, 0), n), 0);
    }
    assert_eq!(fractal_iterations(point(3 * SCALE, 0), 0), 0);
}

#[test]
fn one_escapes_at_step_two() {
    // 1, 2, 5: the third iterate is the first outside the disc.
    assert_eq!(fractal_iterations(point(SCALE, 0), 1), 1);
    assert_eq!(fractal_iterations(point(SCALE, 0), 2), 2);
    assert_eq!(fractal_iterations(point(SCALE, 0), 3), 2);
    assert_eq!(fractal_iterations(point(SCALE, 0), 50), 2);
}

#[test]
fn minus_one_cycles_forever() {
    assert_eq!(fractal_iterations(point(-SCALE, 0), 200), 200);
}

#[test]
fn escape_time_within_bound_and_monotonic() {
    let points = [
        point(0, 0),
        point(SCALE / 4, SCALE / 2),
        point(-3 * SCALE / 4, SCALE / 8),
        point(SCALE / 2, SCALE / 2),
        point(-2 * SCALE, 0),
        point(-SCALE / 10, SCALE),
        point(2 * SCALE, 2 * SCALE),
    ];
    for p in points {
        let mut prev = 0usize;
        for n in 0usize..60 {
            let t = fractal_iterations(p, n);
            assert!(t <= n);
            assert!(t >= prev);
            prev = t;
        }
    }
}

#[test]
fn bailout_is_strictly_greater_than_four() {
    // |2|^2 == 4 is still inside; the next iterate 6 is outside.
    assert_eq!(fractal_iterations(point(2 * SCALE, 0), 10), 1);
}

#[test]
fn conjugate_points_escape_together() {
    let points = [
        (SCALE / 4, SCALE / 2 + 12345),
        (-3 * SCALE / 4, SCALE / 8 + 7),
        (-SCALE / 10 - 3, SCALE - 1),
        (SCALE / 3, SCALE / 3),
        (-1_234_567_890_123, 98_765_432_109),
    ];
    for (re, im) in points {
        for n in [0usize, 1, 5, 50, 500] {
            assert_eq!(fractal_iterations(point(re, -im), n), fractal_iterations(point(re, im), n));
        }
    }
}
