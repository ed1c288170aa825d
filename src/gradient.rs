//! Piecewise-linear colour gradients with evenly spaced stops.
//!
//! A position `t` in `[0, 1]` is given as the fraction `num / den`. With `n`
//! stops, stop `k` sits at `k / (n - 1)`; `t` falls in segment
//! `floor(t * (n - 1))`, clamped to the last segment at `t = 1`.

use vstd::prelude::*;
use crate::error::RenderError;

verus! {

/// Colour stops, evenly spaced from position 0 to position 1.
#[derive(Debug)]
pub struct ColorGradient {
    pub stops: Vec<Vec<u8>>,
}

impl ColorGradient {
    pub open spec fn view(&self) -> Seq<Seq<u8>> {
        self.stops@.map_values(|c: Vec<u8>| c@)
    }

    pub open spec fn channels(&self) -> int {
        self.stops@[0]@.len() as int
    }

    /// At least two stops, at least one channel, every stop with as many channels.
    pub open spec fn well_formed(&self) -> bool {
        &&& self.stops@.len() >= 2
        &&& self.channels() >= 1
        &&& forall|i: int|
            0 <= i < self.stops@.len() ==> #[trigger] self.stops@[i]@.len() == self.channels()
    }

    /// Accepts `stops` as a gradient when it is well formed.
    pub fn new(stops: Vec<Vec<u8>>) -> (r: Result<ColorGradient, RenderError>)
        ensures
            match r {
                Ok(g) => g.stops@ == stops@ && g.well_formed(),
                Err(e) => e == RenderError::InvalidGradient && !(ColorGradient { stops }).well_formed(),
            },
    {
        let g = ColorGradient { stops };
        if g.check() {
            Ok(g)
        } else {
            Err(RenderError::InvalidGradient)
        }
    }

    /// Whether the gradient is well formed.
    pub fn check(&self) -> (r: bool)
        ensures
            r == self.well_formed(),
    {
        if self.stops.len() < 2 || self.stops[0].len() == 0 {
            return false;
        }
        let c = self.stops[0].len();
        let mut i: usize = 1;
        while i < self.stops.len()
            invariant
                1 <= i <= self.stops@.len(),
                c == self.channels(),
                forall|j: int| 0 <= j < i ==> #[trigger] self.stops@[j]@.len() == c,
            decreases self.stops@.len() - i,
        {
            if self.stops[i].len() != c {
                return false;
            }
            i = i + 1;
        }
        true
    }

    /// Number of channels of each colour.
    pub fn channel_count(&self) -> (r: usize)
        requires
            self.well_formed(),
        ensures
            r == self.channels(),
    {
        self.stops[0].len()
    }
}

/// The segment of `num / den` among `n` stops: `floor(t * (n - 1))`, at most `n - 2`.
pub open spec fn segment(num: int, den: int, n: int) -> int {
    let s = num * (n - 1) / den;
    if s > n - 2 {
        n - 2
    } else {
        s
    }
}

/// The position of `num / den` within its segment, in units of `1 / den`.
pub open spec fn segment_offset(num: int, den: int, n: int) -> int {
    num * (n - 1) - segment(num, den, n) * den
}

/// `a + (b - a) * f / den`, rounded down: the channel value at offset `f` of a
/// segment from `a` to `b`.
pub open spec fn lerp(a: int, b: int, f: int, den: int) -> int {
    (a * (den - f) + b * f) / den
}

/// The colour of the gradient at `num / den`, channel by channel.
pub open spec fn color_at(stops: Seq<Seq<u8>>, num: int, den: int) -> Seq<int> {
    let n = stops.len() as int;
    let k = segment(num, den, n);
    let f = segment_offset(num, den, n);
    Seq::new(stops[0].len(), |c: int| lerp(stops[k][c] as int, stops[k + 1][c] as int, f, den))
}

proof fn lemma_segment_bounds(num: int, den: int, n: int)
    requires
        0 <= num <= den,
        den > 0,
        n >= 2,
    ensures
        0 <= segment(num, den, n) <= n - 2,
        0 <= segment_offset(num, den, n) <= den,
{
    let p = num * (n - 1);
    let q = p / den;
    let rem = p % den;
    vstd::arithmetic::div_mod::lemma_fundamental_div_mod(p, den);
    assert(0 <= p <= den * (n - 1)) by (nonlinear_arith)
        requires
            0 <= num <= den,
            n >= 2,
            p == num * (n - 1),
    ;
    assert(0 <= q) by (nonlinear_arith)
        requires
            p == den * q + rem,
            0 <= rem < den,
            p >= 0,
    ;
    let k = segment(num, den, n);
    assert(0 <= p - k * den <= den) by (nonlinear_arith)
        requires
            p == den * q + rem,
            0 <= rem < den,
            p <= den * (n - 1),
            k == if q > n - 2 { n - 2 } else { q },
            0 <= q,
            den > 0,
    ;
}

proof fn lemma_lerp_between(a: int, b: int, f: int, den: int)
    requires
        0 <= a <= 255,
        0 <= b <= 255,
        0 <= f <= den,
        den > 0,
    ensures
        0 <= lerp(a, b, f, den) <= 255,
{
    let v = a * (den - f) + b * f;
    assert(0 <= v <= 255 * den) by (nonlinear_arith)
        requires
            0 <= a <= 255,
            0 <= b <= 255,
            0 <= f <= den,
            v == a * (den - f) + b * f,
    ;
    vstd::arithmetic::div_mod::lemma_div_is_ordered(0, v, den);
    vstd::arithmetic::div_mod::lemma_div_is_ordered(v, 255 * den, den);
    vstd::arithmetic::div_mod::lemma_div_by_multiple(255, den);
}

/// Where `num / den` is exactly the position `j / (n - 1)` of stop `j`, the
/// colour is that stop's colour: the gradient is continuous at every stop.
pub proof fn lemma_color_at_stop(stops: Seq<Seq<u8>>, num: int, den: int, j: int)
    requires
        stops.len() >= 2,
        forall|i: int| 0 <= i < stops.len() ==> #[trigger] stops[i].len() == stops[0].len(),
        0 <= num <= den,
        den > 0,
        0 <= j < stops.len(),
        num * (stops.len() - 1) == j * den,
    ensures
        color_at(stops, num, den).len() == stops[j].len(),
        forall|c: int|
            0 <= c < stops[j].len() ==> #[trigger] color_at(stops, num, den)[c] == stops[j][c] as int,
{
    let n = stops.len() as int;
    vstd::arithmetic::div_mod::lemma_div_by_multiple(j, den);
    assert(j * den == den * j) by (nonlinear_arith);
    assert(num * (n - 1) / den == j);
    let k = segment(num, den, n);
    let f = segment_offset(num, den, n);
    if j <= n - 2 {
        assert(f == 0);
    } else {
        assert(k == n - 2);
        assert(f == den) by (nonlinear_arith)
            requires
                f == num * (n - 1) - k * den,
                num * (n - 1) == j * den,
                j == n - 1,
                k == n - 2,
        ;
    }
    assert forall|c: int| 0 <= c < stops[j].len() implies #[trigger] color_at(stops, num, den)[c]
        == stops[j][c] as int by {
        let a = stops[k][c] as int;
        let b = stops[k + 1][c] as int;
        if j <= n - 2 {
            assert(a * (den - 0) + b * 0 == a * den) by (nonlinear_arith);
            vstd::arithmetic::div_mod::lemma_div_by_multiple(a, den);
        } else {
            assert(a * (den - den) + b * den == b * den) by (nonlinear_arith);
            vstd::arithmetic::div_mod::lemma_div_by_multiple(b, den);
        }
    }
}

/// At position 0 the colour is the first stop's, at position 1 the last stop's.
pub proof fn lemma_gradient_ends(stops: Seq<Seq<u8>>, den: int)
    requires
        stops.len() >= 2,
        forall|i: int| 0 <= i < stops.len() ==> #[trigger] stops[i].len() == stops[0].len(),
        den > 0,
    ensures
        color_at(stops, 0, den).len() == stops[0].len(),
        forall|c: int| 0 <= c < stops[0].len() ==> #[trigger] color_at(stops, 0, den)[c] == stops[0][c] as int,
        color_at(stops, den, den).len() == stops.last().len(),
        forall|c: int|
            0 <= c < stops.last().len() ==> #[trigger] color_at(stops, den, den)[c] == stops.last()[c] as int,
{
    lemma_color_at_stop(stops, 0, den, 0);
    assert(den * (stops.len() - 1) == (stops.len() - 1) * den) by (nonlinear_arith);
    lemma_color_at_stop(stops, den, den, stops.len() - 1);
}

/// The colour at `num / den` (with `num <= den`): each channel interpolated
/// linearly between the two stops that bound the segment, rounded down.
pub fn lerp_colors(gradient: &ColorGradient, num: usize, den: usize) -> (r: Vec<u8>)
    requires
        gradient.well_formed(),
        num <= den,
        den > 0,
    ensures
        r@.len() == gradient.channels(),
        forall|c: int|
            0 <= c < r@.len() ==> r@[c] as int == #[trigger] color_at(gradient@, num as int, den as int)[c],
{
    let n: usize = gradient.stops.len();
    let ghost stops = gradient@;
    proof {
        lemma_segment_bounds(num as int, den as int, n as int);
        assert(num * (n - 1) <= 0xffff_ffff_ffff_ffff * 0xffff_ffff_ffff_ffff) by (nonlinear_arith)
            requires
                num <= 0xffff_ffff_ffff_ffff,
                n - 1 <= 0xffff_ffff_ffff_ffff,
        ;
    }
    let p: u128 = (num as u128) * ((n - 1) as u128);
    let q: u128 = p / (den as u128);
    let k: usize = if q > (n - 2) as u128 { n - 2 } else { q as usize };
    proof {
        let (pi, qi, ki, di) = (p as int, q as int, k as int, den as int);
        vstd::arithmetic::div_mod::lemma_fundamental_div_mod(pi, di);
        let rem = pi % di;
        assert(ki * di <= pi) by (nonlinear_arith)
            requires
                0 <= ki <= qi,
                pi == di * qi + rem,
                0 <= rem,
                di > 0,
        ;
    }
    let f: u128 = p - (k as u128) * (den as u128);
    let d: u128 = den as u128;
    let start = &gradient.stops[k];
    let end = &gradient.stops[k + 1];
    let channels = gradient.stops[0].len();
    let mut out: Vec<u8> = Vec::new();
    let mut c: usize = 0;
    while c < channels
        invariant
            gradient.well_formed(),
            stops == gradient@,
            channels == gradient.channels(),
            *start == gradient.stops@[k as int],
            *end == gradient.stops@[k + 1],
            n == stops.len(),
            k == segment(num as int, den as int, n as int),
            f == segment_offset(num as int, den as int, n as int),
            d == den,
            0 <= f <= d,
            d > 0,
            c <= channels,
            out@.len() == c,
            forall|j: int|
                0 <= j < c ==> out@[j] as int == #[trigger] color_at(stops, num as int, den as int)[j],
        decreases channels - c,
    {
        let a: u128 = start[c] as u128;
        let b: u128 = end[c] as u128;
        proof {
            lemma_lerp_between(a as int, b as int, f as int, d as int);
            assert(a * (d - f) <= 255 * 0xffff_ffff_ffff_ffff && b * f <= 255 * 0xffff_ffff_ffff_ffff)
                by (nonlinear_arith)
                requires
                    a <= 255,
                    b <= 255,
                    0 <= f <= d,
                    d <= 0xffff_ffff_ffff_ffff,
            ;
        }
        let v: u128 = (a * (d - f) + b * f) / d;
        out.push(v as u8);
        c = c + 1;
    }
    out
}

} // verus!
