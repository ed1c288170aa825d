//! Mapping pixel positions to sample points of the complex plane.

use vstd::prelude::*;
use crate::escape::{Point, COORD_LIMIT, coord_ok};

verus! {

/// The sampled rectangle: its center and the half-extent along the shorter
/// image side, in fixed-point units.
#[derive(Clone, Copy, Debug, PartialEq, Eq, Structural)]
pub struct ViewWindow {
    pub center: Point,
    pub minor_radius: i64,
}

/// `dst_lo + (v - src_lo) * (dst_hi - dst_lo) / (src_hi - src_lo)`, rounded down.
pub open spec fn change_range(v: int, src_lo: int, src_hi: int, dst_lo: int, dst_hi: int) -> int {
    dst_lo + (v - src_lo) * (dst_hi - dst_lo) / (src_hi - src_lo)
}

pub open spec fn min_side(width: int, height: int) -> int {
    if width < height {
        width
    } else {
        height
    }
}

/// Half-extents along the real and the imaginary axis: the shorter side gets
/// `minor_radius`, the other one is scaled by the aspect ratio so that a pixel
/// covers the same distance along both axes.
pub open spec fn radii(width: int, height: int, minor_radius: int) -> (int, int) {
    (
        minor_radius * width / min_side(width, height),
        minor_radius * height / min_side(width, height),
    )
}

/// The window's rectangle lies within the representable range.
pub open spec fn window_fits(width: int, height: int, window: ViewWindow) -> bool {
    let (rr, ri) = radii(width, height, window.minor_radius as int);
    &&& coord_ok(window.center.re - rr)
    &&& coord_ok(window.center.re + rr)
    &&& coord_ok(window.center.im - ri)
    &&& coord_ok(window.center.im + ri)
}

/// The sample point of pixel `(x, y)`: column `x` runs over the real range from
/// its low end, row `y` over the imaginary range from its low end.
pub open spec fn sample_point(width: int, height: int, window: ViewWindow, x: int, y: int) -> (
    int,
    int,
) {
    let (rr, ri) = radii(width, height, window.minor_radius as int);
    let (cr, ci) = (window.center.re as int, window.center.im as int);
    (
        change_range(x, 0, width, cr - rr, cr + rr),
        change_range(y, 0, height, ci - ri, ci + ri),
    )
}

proof fn lemma_last_position(n: int, span: int)
    requires
        n > 0,
        span >= 0,
    ensures
        0 <= span - (n - 1) * span / n,
        n * (span - (n - 1) * span / n) < span + n,
{
    let q = (n - 1) * span / n;
    let rem = (n - 1) * span % n;
    vstd::arithmetic::div_mod::lemma_fundamental_div_mod((n - 1) * span, n);
    assert(0 <= span - q && n * (span - q) < span + n) by (nonlinear_arith)
        requires
            (n - 1) * span == n * q + rem,
            0 <= rem < n,
            n > 0,
            span >= 0,
    ;
}

/// Pixel `(0, 0)` samples the low corner `(center.re - re_radius, center.im - im_radius)`
/// exactly; pixel `(width - 1, height - 1)` samples a point below the high corner
/// `(center.re + re_radius, center.im + im_radius)` by at most one pixel width on
/// each axis (`2 * re_radius / width` and `2 * im_radius / height`).
pub proof fn lemma_corner_pixels(width: int, height: int, window: ViewWindow)
    requires
        width > 0,
        height > 0,
        window.minor_radius > 0,
    ensures
        ({
            let (rr, ri) = radii(width, height, window.minor_radius as int);
            let (cr, ci) = (window.center.re as int, window.center.im as int);
            let low = sample_point(width, height, window, 0, 0);
            let high = sample_point(width, height, window, width - 1, height - 1);
            &&& low == (cr - rr, ci - ri)
            &&& 0 <= (cr + rr) - high.0
            &&& width * ((cr + rr) - high.0) < 2 * rr + width
            &&& 0 <= (ci + ri) - high.1
            &&& height * ((ci + ri) - high.1) < 2 * ri + height
        }),
{
    let (rr, ri) = radii(width, height, window.minor_radius as int);
    let m = min_side(width, height);
    let r = window.minor_radius as int;
    assert(r * width >= 0 && r * height >= 0) by (nonlinear_arith)
        requires
            r > 0,
            width > 0,
            height > 0,
    ;
    vstd::arithmetic::div_mod::lemma_div_pos_is_pos(r * width, m);
    vstd::arithmetic::div_mod::lemma_div_pos_is_pos(r * height, m);
    lemma_last_position(width, 2 * rr);
    lemma_last_position(height, 2 * ri);
    assert(0 * (2 * rr) / width == 0);
    assert(0 * (2 * ri) / height == 0);
}

/// The half-extents of the window along the real and the imaginary axis.
pub fn axis_radii(width: usize, height: usize, minor_radius: i64) -> (r: (u128, u128))
    requires
        width > 0,
        height > 0,
        minor_radius >= 0,
    ensures
        (r.0 as int, r.1 as int) == radii(width as int, height as int, minor_radius as int),
{
    let m: u128 = if width < height { width as u128 } else { height as u128 };
    let r: u128 = minor_radius as u128;
    assert(r * (width as u128) <= 0x8000_0000_0000_0000 * 0x1_0000_0000_0000_0000) by (nonlinear_arith)
        requires
            r <= 0x8000_0000_0000_0000,
            width <= 0xffff_ffff_ffff_ffff,
    ;
    assert(r * (height as u128) <= 0x8000_0000_0000_0000 * 0x1_0000_0000_0000_0000) by (nonlinear_arith)
        requires
            r <= 0x8000_0000_0000_0000,
            height <= 0xffff_ffff_ffff_ffff,
    ;
    (r * (width as u128) / m, r * (height as u128) / m)
}

/// `lo + v * span / n` for `v < n`: a position along one axis.
fn axis_position(v: usize, n: usize, lo: i128, span: u128) -> (r: i64)
    requires
        v < n,
        coord_ok(lo as int),
        coord_ok(lo as int + span as int),
        span >= 0,
    ensures
        r as int == lo as int + (v as int) * (span as int) / (n as int),
        coord_ok(r as int),
{
    assert((v as int) * (span as int) <= (n as int) * (span as int)) by (nonlinear_arith)
        requires
            v < n,
            span >= 0,
    ;
    assert((n as u128) * span <= 0xffff_ffff_ffff_ffff * 0x4000_0000_0000_0000) by (nonlinear_arith)
        requires
            n <= 0xffff_ffff_ffff_ffff,
            span <= 0x4000_0000_0000_0000,
    ;
    let off: u128 = (v as u128) * span / (n as u128);
    proof {
        let (vi, si, ni) = (v as int, span as int, n as int);
        vstd::arithmetic::div_mod::lemma_div_is_ordered(vi * si, ni * si, ni);
        vstd::arithmetic::div_mod::lemma_div_by_multiple(si, ni);
        assert(ni * si == si * ni) by (nonlinear_arith);
        assert(vi * si / ni >= 0) by (nonlinear_arith)
            requires
                vi >= 0,
                si >= 0,
                ni > 0,
        ;
    }
    (lo + off as i128) as i64
}

/// The sample point of pixel `(x, y)`.
pub fn pixel_to_point(width: usize, height: usize, window: &ViewWindow, x: usize, y: usize) -> (r:
    Point)
    requires
        x < width,
        y < height,
        window.minor_radius > 0,
        window_fits(width as int, height as int, *window),
    ensures
        r.view() == sample_point(width as int, height as int, *window, x as int, y as int),
        r.valid(),
{
    let (rr, ri) = axis_radii(width, height, window.minor_radius);
    let re: i64 = axis_position(x, width, window.center.re as i128 - rr as i128, 2 * rr);
    let im: i64 = axis_position(y, height, window.center.im as i128 - ri as i128, 2 * ri);
    Point { re, im }
}

} // verus!
