//! The region of the complex plane that a pixel grid covers, and the map from
//! grid cells to points.
//!
//! Each cell is sampled at its center: column `col` of `width` lies at the
//! fraction `(col + 1/2) / width` of the way from the left edge to the right
//! edge, and row `row` of `height` at `(row + 1/2) / height` of the way from
//! the top edge down. Rows grow downward while the imaginary part shrinks.

use vstd::prelude::*;
use crate::fixed::{in_limit, Point, FIXED_ONE};

verus! {

/// A rectangle of the complex plane given by two opposite corners.
#[derive(Clone, Copy, Debug, PartialEq, Eq, Structural)]
pub struct Viewport {
    pub top_left: Point,
    pub bottom_right: Point,
}

/// Offset of the center of cell `index` of `count` along a span of `span`:
/// `(2 * index + 1) * span / (2 * count)`, rounded down.
pub open spec fn cell_offset(index: nat, count: nat, span: int) -> int {
    ((2 * index + 1) * span) / (2 * count as int)
}

/// The point sampled for cell `(row, col)` of a `width` by `height` grid.
pub open spec fn cell_point(
    vp: Viewport,
    width: nat,
    height: nat,
    row: nat,
    col: nat,
) -> (int, int) {
    (
        vp.top_left.re + cell_offset(col, width, vp.bottom_right.re - vp.top_left.re),
        vp.top_left.im - cell_offset(row, height, vp.top_left.im - vp.bottom_right.im),
    )
}

/// Corners of the viewport centered on `center` that spans `dimensions`
/// (real part: width, imaginary part: height).
pub open spec fn centered_corners(center: (int, int), dimensions: (int, int)) -> (
    (int, int),
    (int, int),
) {
    let left = center.0 - dimensions.0 / 2;
    let top = center.1 + dimensions.1 / 2;
    ((left, top), (left + dimensions.0, top - dimensions.1))
}

impl Viewport {
    /// Corners in limit, left of right and top above bottom.
    pub open spec fn wf(&self) -> bool {
        &&& in_limit(self.top_left@)
        &&& in_limit(self.bottom_right@)
        &&& self.top_left.re < self.bottom_right.re
        &&& self.bottom_right.im < self.top_left.im
    }

    /// The viewport with the given corners, if they make a well-formed one.
    pub fn from_corners(top_left: Point, bottom_right: Point) -> (r: Option<Viewport>)
        ensures
            r matches Some(vp) ==> vp.top_left == top_left && vp.bottom_right == bottom_right,
            r is Some <==> (Viewport { top_left, bottom_right }).wf(),
    {
        let vp = Viewport { top_left, bottom_right };
        if top_left.is_in_limit() && bottom_right.is_in_limit() && top_left.re < bottom_right.re
            && bottom_right.im < top_left.im {
            Some(vp)
        } else {
            None
        }
    }

    /// The viewport centered on `center` that spans `dimensions`, if the
    /// span is positive and the corners stay in limit.
    pub fn from_center(center: Point, dimensions: Point) -> (r: Option<Viewport>)
        ensures
            ({
                let (tl, br) = centered_corners(center@, dimensions@);
                &&& r is Some <==> (dimensions.re > 0 && dimensions.im > 0 && in_limit(tl)
                    && in_limit(br))
                &&& r matches Some(vp) ==> vp.top_left@ == tl && vp.bottom_right@ == br
                    && vp.wf()
            }),
    {
        if dimensions.re <= 0 || dimensions.im <= 0 {
            return None;
        }
        let left = center.re as i128 - (dimensions.re / 2) as i128;
        let top = center.im as i128 + (dimensions.im / 2) as i128;
        let right = left + dimensions.re as i128;
        let bottom = top - dimensions.im as i128;
        let limit = crate::fixed::COORD_LIMIT as i128;
        if -limit <= left && left <= limit && -limit <= top && top <= limit && -limit <= right
            && right <= limit && -limit <= bottom && bottom <= limit {
            Some(
                Viewport {
                    top_left: Point { re: left as i64, im: top as i64 },
                    bottom_right: Point { re: right as i64, im: bottom as i64 },
                },
            )
        } else {
            None
        }
    }
}

proof fn lemma_cell_offset_bounded(index: nat, count: nat, span: int)
    requires
        index < count,
        0 < span,
    ensures
        0 <= cell_offset(index, count, span) <= span,
{
    assert(0 <= (2 * index + 1) * span <= (2 * count) * span) by (nonlinear_arith)
        requires
            index < count,
            0 < span,
    ;
    vstd::arithmetic::div_mod::lemma_div_is_ordered(
        (2 * index + 1) * span,
        (2 * count) * span,
        2 * count as int,
    );
    vstd::arithmetic::div_mod::lemma_div_multiples_vanish(span, 2 * count as int);
    vstd::arithmetic::div_mod::lemma_div_pos_is_pos((2 * index + 1) * span, 2 * count as int);
}

/// `(2 * index + 1) * span / (2 * count)`, computed without overflow.
fn offset_in_span(index: usize, count: usize, span: u64) -> (r: u64)
    requires
        index < count,
        0 < span <= 0x8000_0000_0000_0000,
    ensures
        r == cell_offset(index as nat, count as nat, span as int),
{
    proof {
        lemma_cell_offset_bounded(index as nat, count as nat, span as int);
        assert((2 * index + 1) * span <= 0x1_ffff_ffff_ffff_fffd * 0x8000_0000_0000_0000)
            by (nonlinear_arith)
            requires
                2 * index + 1 <= 0x1_ffff_ffff_ffff_fffd,
                span <= 0x8000_0000_0000_0000,
                0 < span,
        ;
    }
    let numerator = (2 * index as u128 + 1) * span as u128;
    (numerator / (2 * count as u128)) as u64
}

/// The point sampled for cell `(row, column)` of a `pixel_width` by
/// `pixel_height` grid over `vp`.
pub fn cell_to_complex(
    vp: &Viewport,
    pixel_width: usize,
    pixel_height: usize,
    row: usize,
    column: usize,
) -> (r: Point)
    requires
        vp.wf(),
        row < pixel_height,
        column < pixel_width,
    ensures
        r@ == cell_point(*vp, pixel_width as nat, pixel_height as nat, row as nat, column as nat),
        in_limit(r@),
{
    let span_re = (vp.bottom_right.re as i128 - vp.top_left.re as i128) as u64;
    let span_im = (vp.top_left.im as i128 - vp.bottom_right.im as i128) as u64;
    let dx = offset_in_span(column, pixel_width, span_re);
    let dy = offset_in_span(row, pixel_height, span_im);
    proof {
        lemma_cell_offset_bounded(column as nat, pixel_width as nat, span_re as int);
        lemma_cell_offset_bounded(row as nat, pixel_height as nat, span_im as int);
    }
    Point {
        re: (vp.top_left.re as i128 + dx as i128) as i64,
        im: (vp.top_left.im as i128 - dy as i128) as i64,
    }
}

/// Width of the default view of the plane, in raw units: `4.0`.
pub const BASE_WIDTH: i64 = 17179869184;

/// Span of the plane shown at zoom `scale` (fixed point, larger is closer)
/// on a `screen_width` by `screen_height` screen: `BASE_WIDTH` wide, with
/// the screen's aspect ratio, divided by the zoom. Values round down.
pub open spec fn dimensions_for(scale: int, screen_width: nat, screen_height: nat) -> (int, int) {
    let base_height = (BASE_WIDTH * screen_height) / (screen_width as int);
    ((BASE_WIDTH * FIXED_ONE) / scale, (base_height * FIXED_ONE) / scale)
}

/// The span of the plane shown at zoom `scale`, or `None` where the zoom is
/// not positive, the screen has no width, or the span does not fit.
pub fn calculate_complex_dimensions(scale: i64, screen_width: u32, screen_height: u32) -> (r:
    Option<Point>)
    ensures
        ({
            let d = dimensions_for(scale as int, screen_width as nat, screen_height as nat);
            &&& r is Some <==> (scale > 0 && screen_width > 0 && d.0 <= i64::MAX && d.1
                <= i64::MAX)
            &&& r matches Some(p) ==> p@ == d
        }),
{
    if scale <= 0 || screen_width == 0 {
        return None;
    }
    proof {
        assert(0 <= BASE_WIDTH * screen_height <= BASE_WIDTH * 0xffff_ffff) by (nonlinear_arith)
            requires
                0 <= screen_height <= 0xffff_ffff,
        ;
        vstd::arithmetic::div_mod::lemma_div_is_ordered(
            BASE_WIDTH * screen_height,
            BASE_WIDTH * 0xffff_ffff,
            screen_width as int,
        );
        vstd::arithmetic::div_mod::lemma_div_pos_is_pos(
            BASE_WIDTH * screen_height,
            screen_width as int,
        );
        assert((BASE_WIDTH * 0xffff_ffff) / 1 == BASE_WIDTH * 0xffff_ffff);
        vstd::arithmetic::div_mod::lemma_div_is_ordered_by_denominator(
            BASE_WIDTH * 0xffff_ffff,
            1,
            screen_width as int,
        );
    }
    let base_height = (BASE_WIDTH as i128 * screen_height as i128) / screen_width as i128;
    let re = (BASE_WIDTH as i128 * FIXED_ONE as i128) / scale as i128;
    let im = (base_height * FIXED_ONE as i128) / scale as i128;
    if re <= i64::MAX as i128 && im <= i64::MAX as i128 {
        proof {
            vstd::arithmetic::div_mod::lemma_div_pos_is_pos(
                base_height * FIXED_ONE,
                scale as int,
            );
            vstd::arithmetic::div_mod::lemma_div_pos_is_pos(BASE_WIDTH * FIXED_ONE, scale as int);
        }
        Some(Point { re: re as i64, im: im as i64 })
    } else {
        None
    }
}

/// `n / d` rounded down, for a positive `d`.
fn floor_div(n: i128, d: i128) -> (r: i128)
    requires
        d > 0,
        -0x1_0000_0000_0000_0000_0000_0000 <= n <= 0x1_0000_0000_0000_0000_0000_0000,
        d <= 0x1_0000_0000_0000_0000,
    ensures
        r == n as int / d as int,
{
    if n >= 0 {
        n / d
    } else {
        let q = (-n + d - 1) / d;
        proof {
            let m = -n + d - 1;
            vstd::arithmetic::div_mod::lemma_fundamental_div_mod(m as int, d as int);
            vstd::arithmetic::div_mod::lemma_mod_bound(m as int, d as int);
            let rem = m % (d as int);
            assert(n == (-q) * d + (d - 1 - rem)) by (nonlinear_arith)
                requires
                    m == d * q + rem,
                    m == -n + d - 1,
            ;
            vstd::arithmetic::div_mod::lemma_fundamental_div_mod_converse(
                n as int,
                d as int,
                -q,
                d - 1 - rem,
            );
            vstd::arithmetic::div_mod::lemma_div_pos_is_pos(m as int, d as int);
        }
        -q
    }
}

/// Screen position, in whole pixels, of the cell of a `screen_width` by
/// `screen_height` grid over `vp` that holds `z`: the inverse of the cell
/// mapping. Points off the viewport give positions off the screen.
pub open spec fn screen_position_of(
    vp: Viewport,
    screen_width: nat,
    screen_height: nat,
    z: (int, int),
) -> (int, int) {
    (
        ((z.0 - vp.top_left.re) * screen_width) / (vp.bottom_right.re - vp.top_left.re),
        ((vp.top_left.im - z.1) * screen_height) / (vp.top_left.im - vp.bottom_right.im),
    )
}

/// The screen position, in whole pixels, at which the point `z` is drawn.
pub fn complex_to_screen_coordinate(
    z: Point,
    vp: &Viewport,
    screen_width: u32,
    screen_height: u32,
) -> (r: (i128, i128))
    requires
        vp.wf(),
    ensures
        (r.0 as int, r.1 as int) == screen_position_of(
            *vp,
            screen_width as nat,
            screen_height as nat,
            z@,
        ),
{
    let dx = z.re as i128 - vp.top_left.re as i128;
    let dy = vp.top_left.im as i128 - z.im as i128;
    proof {
        assert(-0x1_0000_0000_0000_0000_0000_0000 <= dx * screen_width
            <= 0x1_0000_0000_0000_0000_0000_0000) by (nonlinear_arith)
            requires
                -0x1_0000_0000_0000_0000 <= dx <= 0x1_0000_0000_0000_0000,
                0 <= screen_width <= 0xffff_ffff,
        ;
        assert(-0x1_0000_0000_0000_0000_0000_0000 <= dy * screen_height
            <= 0x1_0000_0000_0000_0000_0000_0000) by (nonlinear_arith)
            requires
                -0x1_0000_0000_0000_0000 <= dy <= 0x1_0000_0000_0000_0000,
                0 <= screen_height <= 0xffff_ffff,
        ;
    }
    let x = floor_div(
        dx * screen_width as i128,
        vp.bottom_right.re as i128 - vp.top_left.re as i128,
    );
    let y = floor_div(
        dy * screen_height as i128,
        vp.top_left.im as i128 - vp.bottom_right.im as i128,
    );
    (x, y)
}

} // verus!
