//! Fixed-point complex numbers with `FRAC_BITS` fractional bits.
//!
//! A [`Point`] with raw components `(re, im)` stands for the complex number
//! `re / FIXED_ONE + (im / FIXED_ONE) i`.

use vstd::prelude::*;

verus! {

/// Number of fractional bits of a fixed-point coordinate.
pub const FRAC_BITS: u32 = 32;

/// The raw value that stands for `1.0`.
pub const FIXED_ONE: i64 = 4294967296;

/// Largest magnitude of a raw coordinate that a grid may be mapped onto.
pub const COORD_LIMIT: i64 = 4611686018427387904;

/// `|z|^2 > 4` in raw units: the squared escape radius times `FIXED_ONE^2`.
pub const ESCAPE_NORM_SQ: u128 = 73786976294838206464;

/// A complex number in fixed point.
#[derive(Clone, Copy, Debug, PartialEq, Eq, Structural)]
pub struct Point {
    pub re: i64,
    pub im: i64,
}

impl View for Point {
    type V = (int, int);

    open spec fn view(&self) -> (int, int) {
        (self.re as int, self.im as int)
    }
}

/// Both raw components lie within `COORD_LIMIT`.
pub open spec fn in_limit(p: (int, int)) -> bool {
    -COORD_LIMIT <= p.0 <= COORD_LIMIT && -COORD_LIMIT <= p.1 <= COORD_LIMIT
}

/// Division that rounds toward zero, as the fixed-point product does.
pub open spec fn trunc_div(x: int, d: int) -> int {
    if x >= 0 {
        x / d
    } else {
        -((-x) / d)
    }
}

/// Squared magnitude of a point, in raw units (scaled by `FIXED_ONE^2`).
pub open spec fn norm_sq(z: (int, int)) -> int {
    z.0 * z.0 + z.1 * z.1
}

/// The point lies strictly outside the circle of radius 2.
pub open spec fn escapes(z: (int, int)) -> bool {
    norm_sq(z) > 4 * FIXED_ONE * FIXED_ONE
}

/// One step of the recurrence in fixed point: `z*z + c`, with the product
/// rescaled by `FIXED_ONE` and rounded toward zero.
pub open spec fn step(z: (int, int), c: (int, int)) -> (int, int) {
    (
        trunc_div(z.0 * z.0 - z.1 * z.1, FIXED_ONE as int) + c.0,
        trunc_div(2 * z.0 * z.1, FIXED_ONE as int) + c.1,
    )
}

/// The `k`-th iterate of the recurrence started from `0 + 0i`.
pub open spec fn orbit(c: (int, int), k: nat) -> (int, int)
    decreases k,
{
    if k == 0 {
        (0, 0)
    } else {
        step(orbit(c, (k - 1) as nat), c)
    }
}

/// The first iterate of the orbit of `c` is `c` itself.
pub proof fn lemma_first_iterate_is_c(c: (int, int))
    ensures
        orbit(c, 1) == c,
{
    let o = orbit(c, 0);
    assert(o == (0int, 0int));
    assert(o.0 * o.0 - o.1 * o.1 == 0) by (nonlinear_arith)
        requires
            o == (0int, 0int),
    ;
    assert(2 * o.0 * o.1 == 0) by (nonlinear_arith)
        requires
            o == (0int, 0int),
    ;
    assert(trunc_div(0, FIXED_ONE as int) == 0);
    assert(orbit(c, 1) == step(o, c));
}

impl Point {
    /// The origin `0 + 0i`.
    pub fn origin() -> (r: Point)
        ensures
            r@ == (0int, 0int),
    {
        Point { re: 0, im: 0 }
    }

    /// Whether both components lie within `COORD_LIMIT`.
    pub fn is_in_limit(&self) -> (r: bool)
        ensures
            r == in_limit(self@),
    {
        -COORD_LIMIT <= self.re && self.re <= COORD_LIMIT && -COORD_LIMIT <= self.im && self.im
            <= COORD_LIMIT
    }
}

/// Whether `|z| > 2`, decided exactly on the raw components.
pub fn escapes_radius(z: Point) -> (r: bool)
    ensures
        r == escapes(z@),
{
    let re = z.re as i128;
    let im = z.im as i128;
    proof {
        assert(re * re <= 0x4000_0000_0000_0000_0000_0000_0000_0000) by (nonlinear_arith)
            requires
                -0x8000_0000_0000_0000 <= re <= 0x7fff_ffff_ffff_ffff,
        ;
        assert(im * im <= 0x4000_0000_0000_0000_0000_0000_0000_0000) by (nonlinear_arith)
            requires
                -0x8000_0000_0000_0000 <= im <= 0x7fff_ffff_ffff_ffff,
        ;
        assert(re * re >= 0) by (nonlinear_arith);
        assert(im * im >= 0) by (nonlinear_arith);
    }
    let rr = (re * re) as u128;
    let ii = (im * im) as u128;
    rr + ii > ESCAPE_NORM_SQ
}

/// Rounds `x / FIXED_ONE` toward zero.
fn scale_down(x: i128) -> (r: i128)
    requires
        x > i128::MIN,
    ensures
        r == trunc_div(x as int, FIXED_ONE as int),
{
    let one = FIXED_ONE as i128;
    if x >= 0 {
        x / one
    } else {
        -((-x) / one)
    }
}

/// Bounds the rescaled product terms of a step from a point inside the
/// escape circle.
proof fn lemma_step_terms_bounded(re: int, im: int)
    requires
        norm_sq((re, im)) <= 4 * FIXED_ONE * FIXED_ONE,
    ensures
        -4 * FIXED_ONE * FIXED_ONE <= re * re - im * im <= 4 * FIXED_ONE * FIXED_ONE,
        -4 * FIXED_ONE * FIXED_ONE <= 2 * re * im <= 4 * FIXED_ONE * FIXED_ONE,
        -4 * FIXED_ONE <= trunc_div(re * re - im * im, FIXED_ONE as int) <= 4 * FIXED_ONE,
        -4 * FIXED_ONE <= trunc_div(2 * re * im, FIXED_ONE as int) <= 4 * FIXED_ONE,
{
    assert(re * re >= 0 && im * im >= 0) by (nonlinear_arith);
    assert((re - im) * (re - im) >= 0 && (re + im) * (re + im) >= 0) by (nonlinear_arith);
    assert((re - im) * (re - im) == re * re - 2 * re * im + im * im) by (nonlinear_arith);
    assert((re + im) * (re + im) == re * re + 2 * re * im + im * im) by (nonlinear_arith);
    lemma_trunc_div_bounded(re * re - im * im);
    lemma_trunc_div_bounded(2 * re * im);
}

proof fn lemma_trunc_div_bounded(x: int)
    requires
        -4 * FIXED_ONE * FIXED_ONE <= x <= 4 * FIXED_ONE * FIXED_ONE,
    ensures
        -4 * FIXED_ONE <= trunc_div(x, FIXED_ONE as int) <= 4 * FIXED_ONE,
{
    let d = FIXED_ONE as int;
    let a = if x >= 0 { x } else { -x };
    vstd::arithmetic::div_mod::lemma_div_is_ordered(a, 4 * d * d, d);
    vstd::arithmetic::div_mod::lemma_div_multiples_vanish(4 * d, d);
    assert(4 * d * d == d * (4 * d)) by (nonlinear_arith);
    vstd::arithmetic::div_mod::lemma_div_pos_is_pos(a, d);
}

/// One step of the recurrence from a point inside the escape circle.
pub fn step_point(z: Point, c: Point) -> (r: Point)
    requires
        !escapes(z@),
        in_limit(c@),
    ensures
        r@ == step(z@, c@),
{
    let re = z.re as i128;
    let im = z.im as i128;
    proof {
        lemma_step_terms_bounded(re as int, im as int);
        assert(re * re <= 0x4000_0000_0000_0000_0000_0000_0000_0000) by (nonlinear_arith)
            requires
                -0x8000_0000_0000_0000 <= re <= 0x7fff_ffff_ffff_ffff,
        ;
        assert(im * im <= 0x4000_0000_0000_0000_0000_0000_0000_0000) by (nonlinear_arith)
            requires
                -0x8000_0000_0000_0000 <= im <= 0x7fff_ffff_ffff_ffff,
        ;
        assert(re * re >= 0 && im * im >= 0) by (nonlinear_arith);
        assert(2 * (re * im) == 2 * re * im) by (nonlinear_arith);
    }
    let real_part = scale_down(re * re - im * im);
    let imag_part = scale_down(2 * (re * im));
    Point { re: (real_part + c.re as i128) as i64, im: (imag_part + c.im as i128) as i64 }
}

} // verus!
