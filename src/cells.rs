//! The grid of escape times, held in an `ndarray` two-dimensional array
//! indexed `[x, y]`.

use vstd::prelude::*;
use crate::error::RenderError;

verus! {

/// Escape times of a `width` by `height` image, one cell per pixel.
#[verifier::external_body]
pub struct IterationGrid {
    cells: ndarray::Array2<usize>,
}

/// The cells of a grid row by row: cell `[x, y]` at position `y * width + x`.
pub uninterp spec fn cells_of(g: IterationGrid) -> Seq<usize>;

/// The width and the height of a grid.
pub uninterp spec fn shape_of(g: IterationGrid) -> (nat, nat);

impl IterationGrid {
    pub open spec fn width(self) -> nat {
        shape_of(self).0
    }

    pub open spec fn height(self) -> nat {
        shape_of(self).1
    }

    /// Relies on `ndarray::Array2::zeros`: an array of shape `(width, height)`
    /// with every cell 0; it panics when the product of the non-zero axis
    /// lengths overflows `isize`.
    #[verifier::external_body]
    fn zeros(width: usize, height: usize) -> (r: IterationGrid)
        requires
            width > 0,
            height > 0,
            width * height <= isize::MAX,
        ensures
            shape_of(r) == (width as nat, height as nat),
            cells_of(r) == Seq::new((width * height) as nat, |i: int| 0usize),
    {
        IterationGrid { cells: ndarray::Array2::zeros((width, height)) }
    }

    /// Relies on indexing an `ndarray::Array2` by `[x, y]`: the cell of pixel
    /// `(x, y)`.
    #[verifier::external_body]
    pub(crate) fn get(&self, x: usize, y: usize) -> (r: usize)
        requires
            x < self.width(),
            y < self.height(),
        ensures
            r == cells_of(*self)[y * self.width() + x],
    {
        self.cells[[x, y]]
    }

    /// Relies on assigning through `IndexMut` of an `ndarray::Array2` at
    /// `[x, y]`: that cell alone changes.
    #[verifier::external_body]
    pub(crate) fn set(&mut self, x: usize, y: usize, v: usize)
        requires
            x < old(self).width(),
            y < old(self).height(),
        ensures
            shape_of(*final(self)) == shape_of(*old(self)),
            cells_of(*final(self)) == cells_of(*old(self)).update(y * old(self).width() + x, v),
    {
        self.cells[[x, y]] = v;
    }

    /// Relies on `ndarray::ArrayBase::dim`: the lengths of the two axes.
    #[verifier::external_body]
    pub(crate) fn dim(&self) -> (r: (usize, usize))
        ensures
            (r.0 as nat, r.1 as nat) == shape_of(*self),
    {
        self.cells.dim()
    }

    /// A `width` by `height` grid of zeros; refused when a side is zero or the
    /// grid is too large to address.
    pub fn new(width: usize, height: usize) -> (r: Result<IterationGrid, RenderError>)
        ensures
            match r {
                Ok(g) => {
                    &&& width > 0 && height > 0 && width * height <= isize::MAX
                    &&& shape_of(g) == (width as nat, height as nat)
                    &&& cells_of(g) == Seq::new((width * height) as nat, |i: int| 0usize)
                },
                Err(e) => e == RenderError::InvalidDimensions && !(width > 0 && height > 0 && width
                    * height <= isize::MAX),
            },
    {
        if width == 0 || height == 0 {
            return Err(RenderError::InvalidDimensions);
        }
        match width.checked_mul(height) {
            Some(n) => {
                if n > isize::MAX as usize {
                    Err(RenderError::InvalidDimensions)
                } else {
                    Ok(IterationGrid::zeros(width, height))
                }
            },
            None => Err(RenderError::InvalidDimensions),
        }
    }

    /// The cells row by row.
    pub fn to_vec(&self) -> (r: Vec<usize>)
        requires
            cells_of(*self).len() == self.width() * self.height(),
        ensures
            r@ == cells_of(*self),
    {
        let (width, height) = self.dim();
        let mut out: Vec<usize> = Vec::new();
        let mut y: usize = 0;
        while y < height
            invariant
                (width as nat, height as nat) == shape_of(*self),
                cells_of(*self).len() == width * height,
                y <= height,
                out@ == cells_of(*self).take(y * width),
            decreases height - y,
        {
            proof {
                assert(y * width + width <= width * height) by (nonlinear_arith)
                    requires
                        y < height,
                ;
            }
            let mut x: usize = 0;
            while x < width
                invariant
                    (width as nat, height as nat) == shape_of(*self),
                    cells_of(*self).len() == width * height,
                    y < height,
                    x <= width,
                    y * width + width <= width * height,
                    out@ == cells_of(*self).take(y * width + x),
                decreases width - x,
            {
                let v = self.get(x, y);
                out.push(v);
                proof {
                    assert(cells_of(*self).take(y * width + x + 1) == cells_of(*self).take(
                        y * width + x,
                    ).push(v));
                }
                x = x + 1;
            }
            proof {
                assert(y * width + width == (y + 1) * width) by (nonlinear_arith);
            }
            y = y + 1;
        }
        proof {
            assert(y * width == width * height) by (nonlinear_arith)
                requires
                    y == height,
            ;
            assert(cells_of(*self).take(y * width) == cells_of(*self));
        }
        out
    }
}

} // verus!
