//! The escape-time recurrence `z' = z^2 + c` on fixed-point complex numbers.

use vstd::prelude::*;

verus! {

/// One unit of the fixed-point representation: a coordinate `v` stands for
/// `v / SCALE` on the complex plane (48 fractional bits).
pub const SCALE: i64 = 281474976710656;

/// The largest magnitude of either coordinate of a sample point.
pub const COORD_LIMIT: i64 = 1152921504606846976;

/// A point of the complex plane, each part in units of `1 / SCALE`.
#[derive(Clone, Copy, Debug, PartialEq, Eq, Structural)]
pub struct Point {
    pub re: i64,
    pub im: i64,
}

pub open spec fn scale() -> int {
    SCALE as int
}

pub open spec fn coord_ok(v: int) -> bool {
    -(COORD_LIMIT as int) <= v <= COORD_LIMIT as int
}

impl Point {
    pub open spec fn view(self) -> (int, int) {
        (self.re as int, self.im as int)
    }

    /// Both parts lie within `COORD_LIMIT`.
    pub open spec fn valid(self) -> bool {
        coord_ok(self.re as int) && coord_ok(self.im as int)
    }
}

/// Squared magnitude, in units of `1 / SCALE^2`.
pub open spec fn norm_sqr(z: (int, int)) -> int {
    z.0 * z.0 + z.1 * z.1
}

/// The orbit has left the disc of radius 2.
pub open spec fn escaped(z: (int, int)) -> bool {
    norm_sqr(z) > 4 * scale() * scale()
}

/// `x / SCALE`, rounded towards zero.
pub open spec fn div_scale(x: int) -> int {
    if x >= 0 {
        x / scale()
    } else {
        -((-x) / scale())
    }
}

/// One step of the recurrence, products rounded towards zero to the
/// fixed-point grid.
pub open spec fn square_plus(z: (int, int), c: (int, int)) -> (int, int) {
    (div_scale(z.0 * z.0 - z.1 * z.1) + c.0, div_scale(2 * z.0 * z.1) + c.1)
}

/// The `n`-th iterate, starting from `z_0 = c`.
pub open spec fn orbit(c: (int, int), n: nat) -> (int, int)
    decreases n,
{
    if n == 0 {
        c
    } else {
        square_plus(orbit(c, (n - 1) as nat), c)
    }
}

/// The smallest `i < n` whose iterate has escaped, or `n` when none has.
pub open spec fn escape_time(c: (int, int), n: nat) -> nat
    decreases n,
{
    if n == 0 {
        0
    } else {
        let prev = escape_time(c, (n - 1) as nat);
        if prev < n - 1 || escaped(orbit(c, (n - 1) as nat)) {
            prev
        } else {
            n
        }
    }
}

/// `escape_time` is the first escape below the bound, or the bound itself.
pub proof fn lemma_escape_time_first(c: (int, int), n: nat)
    ensures
        escape_time(c, n) <= n,
        escape_time(c, n) < n ==> escaped(orbit(c, escape_time(c, n))),
        forall|i: nat| i < escape_time(c, n) ==> !escaped(#[trigger] orbit(c, i)),
    decreases n,
{
    if n > 0 {
        lemma_escape_time_first(c, (n - 1) as nat);
    }
}

/// Once the orbit has escaped below a bound, a larger bound reports the same step.
pub proof fn lemma_escape_time_settled(c: (int, int), n: nat, m: nat)
    requires
        n <= m,
        escape_time(c, n) < n,
    ensures
        escape_time(c, m) == escape_time(c, n),
    decreases m - n,
{
    if n < m {
        lemma_escape_time_settled(c, n, (m - 1) as nat);
    }
}

/// The escape time lies in `[0, n]` and never decreases as the bound grows.
pub proof fn lemma_escape_time_monotonic(c: (int, int), n: nat, m: nat)
    requires
        n <= m,
    ensures
        escape_time(c, n) <= n,
        escape_time(c, n) <= escape_time(c, m),
        escape_time(c, m) <= m,
    decreases m - n,
{
    lemma_escape_time_first(c, n);
    lemma_escape_time_first(c, m);
    if n < m {
        lemma_escape_time_monotonic(c, n, (m - 1) as nat);
    }
}

/// The origin is a fixed point of the recurrence: it never escapes.
pub proof fn lemma_origin_never_escapes(n: nat)
    ensures
        escape_time((0, 0), n) == n,
    decreases n,
{
    if n > 0 {
        lemma_origin_never_escapes((n - 1) as nat);
        lemma_origin_orbit((n - 1) as nat);
    }
}

proof fn lemma_origin_orbit(n: nat)
    ensures
        orbit((0, 0), n) == (0int, 0int),
    decreases n,
{
    if n > 0 {
        lemma_origin_orbit((n - 1) as nat);
    }
}

/// The point `3 + 0i` lies outside the disc of radius 2, so it escapes at step 0.
pub proof fn lemma_three_escapes_at_once(n: nat)
    requires
        n >= 1,
    ensures
        escape_time((3 * scale(), 0), n) == 0,
{
    let s = scale();
    assert((3 * s) * (3 * s) + 0 * 0 > 4 * s * s) by (nonlinear_arith)
        requires
            s > 0,
    ;
    assert(escaped(orbit((3 * s, 0), 0)));
    assert(escape_time((3 * s, 0), 0) == 0);
    assert(escape_time((3 * s, 0), 1) == 0);
    lemma_escape_time_settled((3 * scale(), 0), 1, n);
}

/// `x / SCALE`, rounded towards zero.
fn div_scale_exec(x: i128) -> (r: i128)
    requires
        -0x4000_0000_0000_0000_0000_0000_0000_0000 <= x <= 0x4000_0000_0000_0000_0000_0000_0000_0000,
    ensures
        r == div_scale(x as int),
{
    let s: i128 = SCALE as i128;
    if x >= 0 {
        x / s
    } else {
        -((-x) / s)
    }
}

proof fn lemma_div_scale_bounds(x: int, b: int)
    requires
        -b * scale() <= x <= b * scale(),
    ensures
        -b <= div_scale(x) <= b,
{
    let d = scale();
    let y = if x >= 0 { x } else { -x };
    vstd::arithmetic::div_mod::lemma_fundamental_div_mod(y, d);
    let (q, r) = (y / d, y % d);
    assert(0 <= y <= b * d) by (nonlinear_arith)
        requires
            -b * d <= x <= b * d,
            y == if x >= 0 { x } else { -x },
    ;
    assert(0 <= q <= b) by (nonlinear_arith)
        requires
            y == d * q + r,
            0 <= r < d,
            0 <= y <= b * d,
            d > 0,
    ;
}

/// Negating the imaginary part of the point mirrors its whole orbit, so a point
/// and its conjugate escape at the same step.
pub proof fn lemma_conjugate_symmetry(c: (int, int), n: nat)
    ensures
        orbit((c.0, -c.1), n) == (orbit(c, n).0, -orbit(c, n).1),
        escape_time((c.0, -c.1), n) == escape_time(c, n),
    decreases n,
{
    if n > 0 {
        let m = (n - 1) as nat;
        lemma_conjugate_symmetry(c, m);
        let (a, b) = orbit(c, m);
        assert(a * a - (-b) * (-b) == a * a - b * b) by (nonlinear_arith);
        assert(2 * a * (-b) == -(2 * a * b)) by (nonlinear_arith);
        assert(norm_sqr((a, -b)) == norm_sqr((a, b))) by (nonlinear_arith);
    }
}

proof fn lemma_bounded_parts(re: int, im: int)
    requires
        norm_sqr((re, im)) <= 4 * scale() * scale(),
    ensures
        -2 * scale() <= re <= 2 * scale(),
        -2 * scale() <= im <= 2 * scale(),
        -4 * scale() * scale() <= re * re - im * im <= 4 * scale() * scale(),
        -4 * scale() * scale() <= 2 * re * im <= 4 * scale() * scale(),
{
    let s = scale();
    assert(re * re >= 0 && im * im >= 0) by (nonlinear_arith);
    assert(-4 * s * s <= re * re - im * im <= 4 * s * s) by (nonlinear_arith)
        requires
            re * re + im * im <= 4 * s * s,
            re * re >= 0,
            im * im >= 0,
    ;
    assert(-2 * s <= re <= 2 * s && -2 * s <= im <= 2 * s) by (nonlinear_arith)
        requires
            re * re + im * im <= 4 * s * s,
            s > 0,
    ;
    assert(-4 * s * s <= 2 * re * im <= 4 * s * s) by (nonlinear_arith)
        requires
            re * re + im * im <= 4 * s * s,
    {
        assert((re - im) * (re - im) >= 0);
        assert((re + im) * (re + im) >= 0);
    }
}

/// Number of steps before the orbit of `z0` leaves the disc of radius 2: the
/// index of the first iterate with `|z|^2 > 4`, or `max_iter` when none of the
/// first `max_iter` iterates does.
pub fn fractal_iterations(z0: Point, max_iter: usize) -> (r: usize)
    requires
        z0.valid(),
    ensures
        r == escape_time(z0.view(), max_iter as nat),
        r <= max_iter,
        r < max_iter ==> escaped(orbit(z0.view(), r as nat)),
        forall|i: nat| i < r ==> !escaped(#[trigger] orbit(z0.view(), i)),
{
    let ghost c = z0.view();
    let cre: i128 = z0.re as i128;
    let cim: i128 = z0.im as i128;
    let s: i128 = SCALE as i128;
    let mut re: i128 = cre;
    let mut im: i128 = cim;
    let mut i: usize = 0;
    while i < max_iter
        invariant
            i <= max_iter,
            c == z0.view(),
            cre == c.0,
            cim == c.1,
            s == scale(),
            coord_ok(c.0),
            coord_ok(c.1),
            (re as int, im as int) == orbit(c, i as nat),
            -0x2000_0000_0000_0000 <= re <= 0x2000_0000_0000_0000,
            -0x2000_0000_0000_0000 <= im <= 0x2000_0000_0000_0000,
            escape_time(c, i as nat) == i,
        decreases max_iter - i,
    {
        assert(re * re <= 0x400_0000_0000_0000_0000_0000_0000_0000 && im * im
            <= 0x400_0000_0000_0000_0000_0000_0000_0000 && re * re >= 0 && im * im >= 0)
            by (nonlinear_arith)
            requires
                -0x2000_0000_0000_0000 <= re <= 0x2000_0000_0000_0000,
                -0x2000_0000_0000_0000 <= im <= 0x2000_0000_0000_0000,
        ;
        let nsq: i128 = re * re + im * im;
        if nsq > 4 * s * s {
            proof {
                assert(escape_time(c, (i + 1) as nat) == i);
                lemma_escape_time_settled(c, (i + 1) as nat, max_iter as nat);
                lemma_escape_time_first(c, max_iter as nat);
            }
            return i;
        }
        proof {
            lemma_bounded_parts(re as int, im as int);
        }
        let nre: i128 = div_scale_exec(re * re - im * im) + cre;
        let nim: i128 = div_scale_exec(2 * re * im) + cim;
        proof {
            lemma_div_scale_bounds(re * re - im * im, 4 * scale());
            lemma_div_scale_bounds(2 * re * im, 4 * scale());
        }
        re = nre;
        im = nim;
        i = i + 1;
    }
    proof {
        lemma_escape_time_first(c, max_iter as nat);
    }
    i
}

} // verus!
