use mandelbrot::escape::{Point, SCALE};
use mandelbrot::cells::IterationGrid;
use mandelbrot::error::RenderError;
use mandelbrot::grid::iterate_points;
use mandelbrot::view::{axis_radii, pixel_to_point, ViewWindow};

fn window(re: i64, im: i64, r: i64) -> ViewWindow {
    ViewWindow { center: Point { re, im }, minor_radius: r }
}

#[test]
fn radii_follow_the_aspect_ratio() {
    assert_eq!(axis_radii(8, 4, 100), (200, 100));
    assert_eq!(axis_radii(4, 8, 100), (100, 200));
    assert_eq!(axis_radii(5, 5, 100), (100, 100));
    assert_eq!(axis_radii(640, 480, 3), (4, 3));
}

#[test]
fn corner_pixels_of_a_square_image() {
    let w = window(-SCALE / 2, 0, 3 * SCALE / 2);
    let r = 3 * SCALE / 2;
    assert_eq!(pixel_to_point(4, 4, &w, 0, 0), Point { re: -SCALE / 2 - r, im: -r });
    // Three quarters of the way across: one pixel short of the high corner.
    assert_eq!(pixel_to_point(4, 4, &w, 3, 3), Point { re: -SCALE / 2 + r / 2, im: r / 2 });
}

#[test]
fn corner_pixels_of_a_wide_image() {
    let w = window(100, -100, 1000);
    // radii (2000, 1000); pixel width 4000 / 8 = 500 on both axes.
    assert_eq!(pixel_to_point(8, 4, &w, 0, 0), Point { re: 100 - 2000, im: -100 - 1000 });
    assert_eq!(pixel_to_point(8, 4, &w, 7, 3), Point { re: 100 + 2000 - 500, im: -100 + 1000 - 500 });
    assert_eq!(pixel_to_point(8, 4, &w, 4, 2), Point { re: 100, im: -100 });
}

#[test]
fn grid_is_row_major() {
    let w = window(-SCALE / 2, 0, 3 * SCALE / 2);
    let mut cells = IterationGrid::new(4, 3).unwrap();
    assert_eq!(cells.to_vec(), vec![0; 12]);
    iterate_points(&w, 10, &mut cells);
    let grid = cells.to_vec();
    assert_eq!(grid.len(), 12);
    for y in 0..3usize {
        for x in 0..4usize {
            let p = pixel_to_point(4, 3, &w, x, y);
            assert_eq!(grid[y * 4 + x], mandelbrot::escape::fractal_iterations(p, 10));
        }
    }
    assert!(grid.iter().all(|&v| v <= 10));
}

#[test]
fn grid_sizes_are_checked() {
    assert_eq!(IterationGrid::new(0, 3).err(), Some(RenderError::InvalidDimensions));
    assert_eq!(IterationGrid::new(3, 0).err(), Some(RenderError::InvalidDimensions));
    assert_eq!(IterationGrid::new(usize::MAX, 2).err(), Some(RenderError::InvalidDimensions));
    assert_eq!(IterationGrid::new(1, 1).unwrap().to_vec(), vec![0]);
}

#[test]
fn origin_centred_grid_holds_the_bound_at_the_centre() {
    // 4 by 4 around the origin: pixel (2, 2) samples 0 + 0i exactly.
    let w = window(0, 0, 3 * SCALE / 2);
    let mut cells = IterationGrid::new(4, 4).unwrap();
    iterate_points(&w, 25, &mut cells);
    let grid = cells.to_vec();
    assert_eq!(pixel_to_point(4, 4, &w, 2, 2), Point { re: 0, im: 0 });
    assert_eq!(grid[2 * 4 + 2], 25);
}
