use mandelbrot::error::RenderError;
use mandelbrot::escape::{Point, COORD_LIMIT, SCALE};
use mandelbrot::gradient::ColorGradient;
use mandelbrot::cells::IterationGrid;
use mandelbrot::grid::iterate_points;
use mandelbrot::histogram::gen_histogram;
use mandelbrot::render::render;
use mandelbrot::view::ViewWindow;

fn window(re: i64, im: i64, r: i64) -> ViewWindow {
    ViewWindow { center: Point { re, im }, minor_radius: r }
}

fn black_to_white() -> ColorGradient {
    ColorGradient::new(vec![vec![0, 0, 0], vec![255, 255, 255]]).unwrap()
}

#[test]
fn four_by_four_end_to_end() {
    let w = window(-SCALE / 2, 0, 3 * SCALE / 2);
    let mut cells = IterationGrid::new(4, 4).unwrap();
    iterate_points(&w, 10, &mut cells);
    let grid = cells.to_vec();
    assert_eq!(grid.len(), 16);
    assert!(grid.iter().all(|&v| v <= 10));
    let hist = gen_histogram(&grid, 10);
    assert_eq!(hist.len(), 11);
    assert!(hist.windows(2).all(|p| p[0] <= p[1]));
    assert_eq!(hist[10], 16);
    let buf = render(4, 4, &w, 10, &black_to_white()).unwrap();
    assert_eq!(buf.len(), 4 * 4 * 3);
    // Each pixel is grey: black to white keeps the three channels equal.
    for px in buf.chunks(3) {
        assert_eq!(px[0], px[1]);
        assert_eq!(px[1], px[2]);
    }
    // The cells with the largest escape time are coloured white.
    let top = *grid.iter().max().unwrap();
    for (i, &v) in grid.iter().enumerate() {
        if v == top {
            assert_eq!(buf[3 * i], 255);
        }
    }
}

#[test]
fn zero_iterations_give_a_white_image() {
    let w = window(0, 0, SCALE);
    let buf = render(3, 2, &w, 0, &black_to_white()).unwrap();
    assert_eq!(buf, vec![255; 18]);
}

#[test]
fn render_refuses_empty_images() {
    let w = window(0, 0, SCALE);
    assert_eq!(render(0, 4, &w, 10, &black_to_white()), Err(RenderError::InvalidDimensions));
    assert_eq!(render(4, 0, &w, 10, &black_to_white()), Err(RenderError::InvalidDimensions));
    assert_eq!(render(usize::MAX, 2, &w, 10, &black_to_white()), Err(RenderError::InvalidDimensions));
    assert_eq!(render(1usize << 62, 2, &w, 10, &black_to_white()), Err(RenderError::InvalidDimensions));
}

#[test]
fn render_refuses_non_positive_radius() {
    assert_eq!(render(4, 4, &window(0, 0, 0), 10, &black_to_white()), Err(RenderError::InvalidRadius));
    assert_eq!(render(4, 4, &window(0, 0, -5), 10, &black_to_white()), Err(RenderError::InvalidRadius));
}

#[test]
fn render_refuses_windows_out_of_range() {
    let w = window(COORD_LIMIT, 0, SCALE);
    assert_eq!(render(4, 4, &w, 10, &black_to_white()), Err(RenderError::WindowOutOfRange));
    let wide = window(0, 0, COORD_LIMIT / 2);
    assert_eq!(render(8, 2, &wide, 10, &black_to_white()), Err(RenderError::WindowOutOfRange));
    assert!(render(4, 2, &wide, 10, &black_to_white()).is_ok());
}

#[test]
fn render_refuses_bad_gradients() {
    let w = window(0, 0, SCALE);
    let bad = ColorGradient { stops: vec![vec![1, 2]] };
    assert_eq!(render(4, 4, &w, 10, &bad), Err(RenderError::InvalidGradient));
    let five = ColorGradient::new(vec![vec![0; 5], vec![9; 5]]).unwrap();
    assert_eq!(render(4, 4, &w, 10, &five), Err(RenderError::UnsupportedChannelCount));
}

#[test]
fn render_refuses_unbounded_iterations() {
    let w = window(0, 0, SCALE);
    assert_eq!(render(4, 4, &w, usize::MAX, &black_to_white()), Err(RenderError::TooManyIterations));
}

#[test]
fn grey_gradient_has_one_channel_per_pixel() {
    let g = ColorGradient::new(vec![vec![0], vec![100]]).unwrap();
    let buf = render(5, 3, &window(-SCALE / 2, 0, SCALE), 20, &g).unwrap();
    assert_eq!(buf.len(), 15);
    assert!(buf.iter().all(|&b| b <= 100));
}
