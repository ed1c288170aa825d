//! The grid of escape times, one cell per pixel, in row-major order.

use vstd::prelude::*;
use crate::escape::{escape_time, fractal_iterations};
use crate::view::{ViewWindow, sample_point, window_fits, pixel_to_point};
use crate::cells::{IterationGrid, cells_of, shape_of};

verus! {

/// The escape time of the pixel at row-major position `i`.
pub open spec fn grid_cell(
    width: int,
    height: int,
    window: ViewWindow,
    max_iterations: nat,
    i: int,
) -> nat {
    escape_time(sample_point(width, height, window, i % width, i / width), max_iterations)
}

proof fn lemma_row_major(width: int, x: int, y: int)
    requires
        width > 0,
        0 <= x < width,
    ensures
        (y * width + x) % width == x,
        (y * width + x) / width == y,
{
    vstd::arithmetic::div_mod::lemma_fundamental_div_mod_converse_mod(y * width + x, width, y, x);
    vstd::arithmetic::div_mod::lemma_fundamental_div_mod_converse_div(y * width + x, width, y, x);
}

/// Evaluates every pixel of the image that `out` covers: cell `[x, y]` receives
/// the escape time of pixel `(x, y)`.
pub fn iterate_points(window: &ViewWindow, max_iterations: usize, out: &mut IterationGrid)
    requires
        old(out).width() > 0,
        old(out).height() > 0,
        cells_of(*old(out)).len() == old(out).width() * old(out).height(),
        window.minor_radius > 0,
        window_fits(old(out).width() as int, old(out).height() as int, *window),
    ensures
        shape_of(*final(out)) == shape_of(*old(out)),
        cells_of(*final(out)).len() == cells_of(*old(out)).len(),
        forall|i: int|
            0 <= i < cells_of(*final(out)).len() ==> cells_of(*final(out))[i] as nat
                == #[trigger] grid_cell(
                final(out).width() as int,
                final(out).height() as int,
                *window,
                max_iterations as nat,
                i,
            ),
        forall|i: int|
            0 <= i < cells_of(*final(out)).len() ==> #[trigger] cells_of(*final(out))[i]
                <= max_iterations,
{
    let (width, height) = out.dim();
    let ghost shape = shape_of(*out);
    let ghost total = cells_of(*out).len();
    let mut y: usize = 0;
    while y < height
        invariant
            shape_of(*out) == shape,
            shape == (width as nat, height as nat),
            total == width * height,
            cells_of(*out).len() == total,
            y <= height,
            width > 0,
            window.minor_radius > 0,
            window_fits(width as int, height as int, *window),
            forall|i: int|
                0 <= i < y * width ==> cells_of(*out)[i] as nat == #[trigger] grid_cell(
                    width as int,
                    height as int,
                    *window,
                    max_iterations as nat,
                    i,
                ),
            forall|i: int| 0 <= i < y * width ==> #[trigger] cells_of(*out)[i] <= max_iterations,
        decreases height - y,
    {
        proof {
            assert(y * width + width <= width * height) by (nonlinear_arith)
                requires
                    y < height,
            ;
        }
        let mut x: usize = 0;
        while x < width
            invariant
                shape_of(*out) == shape,
                shape == (width as nat, height as nat),
                total == width * height,
                cells_of(*out).len() == total,
                y < height,
                x <= width,
                y * width + width <= width * height,
                window.minor_radius > 0,
                window_fits(width as int, height as int, *window),
                forall|i: int|
                    0 <= i < y * width + x ==> cells_of(*out)[i] as nat == #[trigger] grid_cell(
                        width as int,
                        height as int,
                        *window,
                        max_iterations as nat,
                        i,
                    ),
                forall|i: int|
                    0 <= i < y * width + x ==> #[trigger] cells_of(*out)[i] <= max_iterations,
            decreases width - x,
        {
            let z0 = pixel_to_point(width, height, window, x, y);
            let n = fractal_iterations(z0, max_iterations);
            proof {
                lemma_row_major(width as int, x as int, y as int);
            }
            out.set(x, y, n);
            x = x + 1;
        }
        proof {
            assert(y * width + width == (y + 1) * width) by (nonlinear_arith);
        }
        y = y + 1;
    }
    proof {
        assert(y * width == width * height) by (nonlinear_arith)
            requires
                y == height,
        ;
    }
}

} // verus!
