//! Color mapping of escape records onto RGBA pixels.

use vstd::prelude::*;
use crate::fixed::Point;

verus! {

/// Luminance of a cell that escaped at `n` under the cap `max`: linear in
/// the escape time, from `255 / max` for `n == 0` up to `255` for the last
/// iteration. Escape times at or past the cap count as the last iteration.
pub open spec fn gray_level(n: nat, max: nat) -> nat {
    if max == 0 {
        255
    } else {
        let steps: nat = if n < max { n + 1 } else { max };
        (steps * 255) / max
    }
}

/// The grayscale color of a cell: the black sentinel for a bounded cell,
/// an opaque gray of level `gray_level` for an escaped one.
pub open spec fn grayscale(escape_time: Option<usize>, max: nat) -> Seq<u8> {
    match escape_time {
        None => seq![0u8, 0u8, 0u8, 255u8],
        Some(n) => {
            let l = gray_level(n as nat, max) as u8;
            seq![l, l, l, 255u8]
        },
    }
}

/// Opaque black, the color of a cell that never escaped.
pub fn bounded_color() -> (r: [u8; 4])
    ensures
        r@ == seq![0u8, 0u8, 0u8, 255u8],
{
    let r = [0u8, 0u8, 0u8, 255u8];
    assert(r@ =~= seq![0u8, 0u8, 0u8, 255u8]);
    r
}

proof fn lemma_gray_level_bounded(n: nat, max: nat)
    ensures
        gray_level(n, max) <= 255,
{
    if max > 0 {
        let steps: nat = if n < max { n + 1 } else { max };
        assert(steps * 255 <= max * 255) by (nonlinear_arith)
            requires
                steps <= max,
        ;
        vstd::arithmetic::div_mod::lemma_div_is_ordered((steps * 255) as int, (max * 255) as int, max as int);
        vstd::arithmetic::div_mod::lemma_div_multiples_vanish(255, max as int);
        assert(max * 255 == max as int * 255);
    }
}

/// Grayscale color of an escape time: a pure function of the escape time
/// and the cap, with bounded cells black.
pub fn grayscale_color(escape_time: Option<usize>, iteration_max: usize) -> (r: [u8; 4])
    ensures
        r@ == grayscale(escape_time, iteration_max as nat),
{
    match escape_time {
        None => bounded_color(),
        Some(n) => {
            proof {
                lemma_gray_level_bounded(n as nat, iteration_max as nat);
            }
            let level: u8 = if iteration_max == 0 {
                255
            } else {
                let steps: u128 = if n < iteration_max {
                    n as u128 + 1
                } else {
                    iteration_max as u128
                };
                (steps * 255 / iteration_max as u128) as u8
            };
            let r = [level, level, level, 255u8];
            assert(r@ =~= seq![level, level, level, 255u8]);
            r
        },
    }
}

/// Grayscale of a bounded cell is black whatever the cap; among escaped
/// cells, a later escape is never darker under the same cap.
pub proof fn lemma_grayscale_laws(n1: usize, n2: usize, max1: nat, max2: nat)
    ensures
        grayscale(None, max1) == seq![0u8, 0u8, 0u8, 255u8],
        grayscale(None, max1) == grayscale(None, max2),
        n1 <= n2 ==> gray_level(n1 as nat, max1) <= gray_level(n2 as nat, max1),
{
    if n1 <= n2 && max1 > 0 {
        let s1: nat = if n1 < max1 { (n1 + 1) as nat } else { max1 };
        let s2: nat = if n2 < max1 { (n2 + 1) as nat } else { max1 };
        assert(s1 * 255 <= s2 * 255) by (nonlinear_arith)
            requires
                s1 <= s2,
        ;
        vstd::arithmetic::div_mod::lemma_div_is_ordered((s1 * 255) as int, (s2 * 255) as int, max1 as int);
    }
}

/// Marker color of points on the real axis.
pub const REAL_AXIS_COLOR: [u8; 4] = [255, 0, 0, 255];

/// Marker color of points on the imaginary axis.
pub const IMAGINARY_AXIS_COLOR: [u8; 4] = [0, 0, 255, 255];

/// The color after the axis overlay: `color` unless `c` lies within
/// `epsilon` of an axis. Points near the real axis take precedence.
pub open spec fn overlaid(color: Seq<u8>, c: (int, int), epsilon: int) -> Seq<u8> {
    if -epsilon <= c.1 <= epsilon {
        REAL_AXIS_COLOR@
    } else if -epsilon <= c.0 <= epsilon {
        IMAGINARY_AXIS_COLOR@
    } else {
        color
    }
}

/// Overrides `color` with a marker color where the point `c` of the cell
/// lies within `epsilon` (raw fixed-point units) of the real or imaginary
/// axis.
pub fn axis_overlay(color: [u8; 4], c: Point, epsilon: i64) -> (r: [u8; 4])
    ensures
        r@ == overlaid(color@, c@, epsilon as int),
{
    let e = epsilon as i128;
    if -e <= c.im as i128 && c.im as i128 <= e {
        REAL_AXIS_COLOR
    } else if -e <= c.re as i128 && c.re as i128 <= e {
        IMAGINARY_AXIS_COLOR
    } else {
        color
    }
}

} // verus!
