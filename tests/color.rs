use mandelbrot::error::RenderError;
use mandelbrot::gradient::{lerp_colors, ColorGradient};
use mandelbrot::histogram::gen_histogram;
use mandelbrot::render::{color_kind, colorize, ColorKind};

fn gradient(stops: Vec<Vec<u8>>) -> ColorGradient {
    ColorGradient::new(stops).unwrap()
}

#[test]
fn histogram_counts_values_at_most_each_bucket() {
    assert_eq!(gen_histogram(&vec![0, 1, 1, 3], 3), vec![1, 3, 3, 4]);
    assert_eq!(gen_histogram(&vec![2, 2, 2], 4), vec![0, 0, 3, 3, 3]);
}

#[test]
fn histogram_with_zero_iterations_has_one_full_entry() {
    assert_eq!(gen_histogram(&vec![0, 0, 0], 0), vec![3]);
}

#[test]
fn histogram_is_monotonic_and_ends_at_total() {
    let values = vec![5, 0, 9, 9, 3, 7, 1, 0, 10, 4];
    let h = gen_histogram(&values, 10);
    assert_eq!(h.len(), 11);
    assert!(h.windows(2).all(|p| p[0] <= p[1]));
    assert_eq!(h[10], values.len());
}

#[test]
fn gradient_ends_are_exact() {
    let g = gradient(vec![vec![1, 4, 13], vec![1, 16, 39], vec![8, 57, 100]]);
    assert_eq!(lerp_colors(&g, 0, 7), vec![1, 4, 13]);
    assert_eq!(lerp_colors(&g, 7, 7), vec![8, 57, 100]);
    assert_eq!(lerp_colors(&g, 1, 2), vec![1, 16, 39]);
}

#[test]
fn black_to_white_midpoint() {
    let g = gradient(vec![vec![0, 0, 0], vec![255, 255, 255]]);
    assert_eq!(lerp_colors(&g, 1, 2), vec![127, 127, 127]);
    assert_eq!(lerp_colors(&g, 0, 2), vec![0, 0, 0]);
    assert_eq!(lerp_colors(&g, 2, 2), vec![255, 255, 255]);
}

#[test]
fn interpolation_within_a_segment() {
    let g = gradient(vec![vec![0], vec![100], vec![200]]);
    assert_eq!(lerp_colors(&g, 1, 4), vec![50]);
    assert_eq!(lerp_colors(&g, 3, 4), vec![150]);
    // Falling colours round down as well.
    let d = gradient(vec![vec![200], vec![0]]);
    assert_eq!(lerp_colors(&d, 1, 3), vec![133]);
}

#[test]
fn malformed_gradients_are_refused() {
    assert_eq!(ColorGradient::new(vec![vec![1, 2, 3]]).unwrap_err(), RenderError::InvalidGradient);
    assert_eq!(ColorGradient::new(vec![vec![], vec![]]).unwrap_err(), RenderError::InvalidGradient);
    assert_eq!(
        ColorGradient::new(vec![vec![1, 2, 3], vec![1, 2]]).unwrap_err(),
        RenderError::InvalidGradient
    );
    assert!(ColorGradient::new(vec![vec![1], vec![2]]).is_ok());
}

#[test]
fn color_kinds_by_channel_count() {
    assert_eq!(color_kind(1), Ok(ColorKind::L8));
    assert_eq!(color_kind(2), Ok(ColorKind::La8));
    assert_eq!(color_kind(3), Ok(ColorKind::Rgb8));
    assert_eq!(color_kind(4), Ok(ColorKind::Rgba8));
    assert_eq!(color_kind(0), Err(RenderError::UnsupportedChannelCount));
    assert_eq!(color_kind(5), Err(RenderError::UnsupportedChannelCount));
}

#[test]
fn colorize_equalises_through_the_histogram() {
    let g = gradient(vec![vec![0], vec![240]]);
    let grid = vec![0, 2, 2, 1];
    let hist = gen_histogram(&grid, 2);
    assert_eq!(hist, vec![1, 2, 4]);
    // fractions 1/4, 4/4, 4/4, 2/4
    assert_eq!(colorize(&grid, &hist, 2, &g), vec![60, 240, 240, 120]);
}
