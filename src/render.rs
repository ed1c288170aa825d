//! The whole pipeline: grid of escape times, cumulative histogram, colours.

use vstd::prelude::*;
use crate::error::RenderError;
use crate::escape::{coord_ok, COORD_LIMIT};
use crate::gradient::{ColorGradient, color_at, lerp_colors};
use crate::grid::{grid_cell, iterate_points};
use crate::cells::IterationGrid;
use crate::histogram::{all_at_most, count_le, gen_histogram};
use crate::view::{ViewWindow, window_fits, axis_radii};

verus! {

/// The pixel layout handed to an image encoder, by number of channels.
#[derive(Clone, Copy, Debug, PartialEq, Eq, Structural)]
pub enum ColorKind {
    /// One channel: grey.
    L8,
    /// Two channels: grey and alpha.
    La8,
    /// Three channels: red, green, blue.
    Rgb8,
    /// Four channels: red, green, blue, alpha.
    Rgba8,
}

pub open spec fn kind_of_channels(channels: int) -> Option<ColorKind> {
    if channels == 1 {
        Some(ColorKind::L8)
    } else if channels == 2 {
        Some(ColorKind::La8)
    } else if channels == 3 {
        Some(ColorKind::Rgb8)
    } else if channels == 4 {
        Some(ColorKind::Rgba8)
    } else {
        None
    }
}

/// The pixel layout of `channels` channels; only 1 to 4 are supported.
pub fn color_kind(channels: usize) -> (r: Result<ColorKind, RenderError>)
    ensures
        match kind_of_channels(channels as int) {
            Some(k) => r == Ok::<ColorKind, RenderError>(k),
            None => r == Err::<ColorKind, RenderError>(RenderError::UnsupportedChannelCount),
        },
{
    match channels {
        1 => Ok(ColorKind::L8),
        2 => Ok(ColorKind::La8),
        3 => Ok(ColorKind::Rgb8),
        4 => Ok(ColorKind::Rgba8),
        _ => Err(RenderError::UnsupportedChannelCount),
    }
}

/// The colour of cell `p` of `grid`: the gradient at the fraction of cells
/// whose escape time is at most this cell's.
pub open spec fn cell_color(grid: Seq<usize>, stops: Seq<Seq<u8>>, p: int) -> Seq<int> {
    color_at(stops, count_le(grid, grid[p] as int) as int, grid.len() as int)
}

/// Byte `i` of the packed buffer: channel `i % channels` of cell `i / channels`.
pub open spec fn buffer_byte(grid: Seq<usize>, stops: Seq<Seq<u8>>, channels: int, i: int) -> int {
    cell_color(grid, stops, i / channels)[i % channels]
}

/// Colours every cell of `grid` through the histogram-equalised gradient;
/// `hist` is the cumulative histogram of `grid`.
pub fn colorize(grid: &Vec<usize>, hist: &Vec<usize>, max_iterations: usize, gradient: &ColorGradient) -> (r:
    Vec<u8>)
    requires
        gradient.well_formed(),
        grid@.len() > 0,
        grid@.len() * gradient.channels() <= usize::MAX,
        all_at_most(grid@, max_iterations as int),
        hist@.len() == max_iterations + 1,
        forall|k: int| 0 <= k <= max_iterations ==> hist@[k] as nat == #[trigger] count_le(grid@, k),
    ensures
        r@.len() == grid@.len() * gradient.channels(),
        forall|i: int|
            0 <= i < r@.len() ==> r@[i] as int == #[trigger] buffer_byte(
                grid@,
                gradient@,
                gradient.channels(),
                i,
            ),
{
    let total: usize = grid.len();
    let channels: usize = gradient.channel_count();
    let mut out: Vec<u8> = Vec::new();
    let mut p: usize = 0;
    while p < total
        invariant
            gradient.well_formed(),
            total == grid@.len(),
            total > 0,
            channels == gradient.channels(),
            total * channels <= usize::MAX,
            all_at_most(grid@, max_iterations as int),
            hist@.len() == max_iterations + 1,
            forall|k: int| 0 <= k <= max_iterations ==> hist@[k] as nat == #[trigger] count_le(grid@, k),
            p <= total,
            out@.len() == p * channels,
            forall|i: int|
                0 <= i < out@.len() ==> out@[i] as int == #[trigger] buffer_byte(
                    grid@,
                    gradient@,
                    channels as int,
                    i,
                ),
        decreases total - p,
    {
        let v = grid[p];
        let num = hist[v];
        proof {
            assert(num as nat == count_le(grid@, v as int));
            crate::histogram::lemma_cumulative_histogram(grid@, max_iterations as int);
            assert(count_le(grid@, v as int) <= count_le(grid@, max_iterations as int));
        }
        let color = lerp_colors(gradient, num, total);
        let mut c: usize = 0;
        proof {
            assert((p + 1) * channels <= total * channels) by (nonlinear_arith)
                requires
                    p < total,
            ;
            assert(p * channels + channels == (p + 1) * channels) by (nonlinear_arith);
        }
        while c < channels
            invariant
                channels == gradient.channels(),
                color@.len() == channels,
                forall|j: int|
                    0 <= j < channels ==> color@[j] as int == #[trigger] color_at(
                        gradient@,
                        num as int,
                        total as int,
                    )[j],
                num as nat == count_le(grid@, grid@[p as int] as int),
                total == grid@.len(),
                p < total,
                (p + 1) * channels <= usize::MAX,
                p * channels + channels == (p + 1) * channels,
                c <= channels,
                out@.len() == p * channels + c,
                forall|i: int|
                    0 <= i < out@.len() ==> out@[i] as int == #[trigger] buffer_byte(
                        grid@,
                        gradient@,
                        channels as int,
                        i,
                    ),
            decreases channels - c,
        {
            proof {
                let i = p * channels + c;
                vstd::arithmetic::div_mod::lemma_fundamental_div_mod_converse_mod(i, channels as int, p as int, c as int);
                vstd::arithmetic::div_mod::lemma_fundamental_div_mod_converse_div(i, channels as int, p as int, c as int);
                assert(i == p * channels + c);
                assert(p * channels == (p as int) * (channels as int));
            }
            out.push(color[c]);
            c = c + 1;
        }
        p = p + 1;
    }
    proof {
        assert(p * channels == grid@.len() * gradient.channels());
    }
    out
}

/// The first reason, in the order the checks are made, why a request cannot be
/// rendered; `None` for a request that can.
pub open spec fn request_error(
    width: int,
    height: int,
    window: ViewWindow,
    max_iterations: int,
    gradient: &ColorGradient,
) -> Option<RenderError> {
    if width == 0 || height == 0 || width * height > isize::MAX {
        Some(RenderError::InvalidDimensions)
    } else if window.minor_radius <= 0 {
        Some(RenderError::InvalidRadius)
    } else if !window_fits(width, height, window) {
        Some(RenderError::WindowOutOfRange)
    } else if !gradient.well_formed() {
        Some(RenderError::InvalidGradient)
    } else if kind_of_channels(gradient.channels()) is None {
        Some(RenderError::UnsupportedChannelCount)
    } else if width * height * gradient.channels() > usize::MAX {
        Some(RenderError::InvalidDimensions)
    } else if max_iterations >= usize::MAX {
        Some(RenderError::TooManyIterations)
    } else {
        None
    }
}

/// The escape times of a `width` by `height` image, row by row.
pub open spec fn image_grid(width: int, height: int, window: ViewWindow, max_iterations: int) -> Seq<
    usize,
> {
    Seq::new(
        (width * height) as nat,
        |i: int| grid_cell(width, height, window, max_iterations as nat, i) as usize,
    )
}

/// `center - radius` and `center + radius` are both within the coordinate range.
fn span_fits(center: i64, radius: u128) -> (r: bool)
    ensures
        r == (coord_ok(center - radius) && coord_ok(center + radius)),
{
    if radius > COORD_LIMIT as u128 {
        return false;
    }
    let c: i128 = center as i128;
    let r: i128 = radius as i128;
    -(COORD_LIMIT as i128) <= c - r && c + r <= COORD_LIMIT as i128
}

/// Renders a `width` by `height` image: every pixel's escape time, equalised
/// through the cumulative histogram of the whole grid, coloured by `gradient`.
/// The buffer holds the pixels row by row, `channels` bytes each. Every check
/// is made before any sampling.
pub fn render(
    width: usize,
    height: usize,
    window: &ViewWindow,
    max_iterations: usize,
    gradient: &ColorGradient,
) -> (r: Result<Vec<u8>, RenderError>)
    ensures
        match r {
            Ok(buf) => {
                &&& request_error(width as int, height as int, *window, max_iterations as int, gradient)
                    is None
                &&& buf@.len() == width * height * gradient.channels()
                &&& forall|i: int|
                    0 <= i < buf@.len() ==> buf@[i] as int == #[trigger] buffer_byte(
                        image_grid(width as int, height as int, *window, max_iterations as int),
                        gradient@,
                        gradient.channels(),
                        i,
                    )
            },
            Err(e) => request_error(width as int, height as int, *window, max_iterations as int, gradient)
                == Some(e),
        },
{
    if width == 0 || height == 0 {
        return Err(RenderError::InvalidDimensions);
    }
    let cells: usize = match width.checked_mul(height) {
        Some(n) => n,
        None => {
            return Err(RenderError::InvalidDimensions);
        },
    };
    if cells > isize::MAX as usize {
        return Err(RenderError::InvalidDimensions);
    }
    if window.minor_radius <= 0 {
        return Err(RenderError::InvalidRadius);
    }
    let (rr, ri) = axis_radii(width, height, window.minor_radius);
    if !span_fits(window.center.re, rr) || !span_fits(window.center.im, ri) {
        return Err(RenderError::WindowOutOfRange);
    }
    let checked = ColorGradient::check(gradient);
    if !checked {
        return Err(RenderError::InvalidGradient);
    }
    let channels = gradient.channel_count();
    if color_kind(channels).is_err() {
        return Err(RenderError::UnsupportedChannelCount);
    }
    if cells.checked_mul(channels).is_none() {
        return Err(RenderError::InvalidDimensions);
    }
    if max_iterations == usize::MAX {
        return Err(RenderError::TooManyIterations);
    }
    assert(width * height > 0) by (nonlinear_arith)
        requires
            width > 0,
            height > 0,
    ;
    let mut grid = match IterationGrid::new(width, height) {
        Ok(g) => g,
        Err(e) => {
            return Err(e);
        },
    };
    iterate_points(window, max_iterations, &mut grid);
    let values = grid.to_vec();
    let ghost expected = image_grid(width as int, height as int, *window, max_iterations as int);
    assert(values@ == expected);
    let hist = gen_histogram(&values, max_iterations);
    Ok(colorize(&values, &hist, max_iterations, gradient))
}

} // verus!
