//! The escape-time engine: one escape record per point, and per grid cell.

use vstd::prelude::*;
use crate::fixed::{escapes, escapes_radius, in_limit, orbit, step_point, Point, FIXED_ONE};
use crate::viewport::{cell_point, cell_to_complex, centered_corners, Viewport};

verus! {

/// The outcome of iterating the recurrence for one point `c`.
///
/// `escape_time == Some(n)`: the iterate `n + 1` is the first to leave the
/// circle of radius 2. `escape_time == None`: no iterate up to the cap did.
/// `path` holds the iterates from `0 + 0i` on, the escaping one included.
#[derive(Debug, PartialEq)]
pub struct EscapeRecord {
    pub escape_time: Option<usize>,
    pub path: Vec<Point>,
}

/// `path` holds the first `path.len()` iterates of the orbit of `c`.
pub open spec fn path_is_orbit(path: Seq<Point>, c: (int, int)) -> bool {
    forall|k: int| 0 <= k < path.len() ==> #[trigger] path[k]@ == orbit(c, k as nat)
}

/// No iterate with index `0..=n` lies outside the escape circle.
pub open spec fn bounded_through(c: (int, int), n: nat) -> bool {
    forall|k: nat| k <= n ==> !escapes(#[trigger] orbit(c, k))
}

/// `(escape_time, path)` is the escape record of `c` under the cap `max`.
pub open spec fn is_record_of(
    escape_time: Option<usize>,
    path: Seq<Point>,
    c: (int, int),
    max: nat,
) -> bool {
    &&& path_is_orbit(path, c)
    &&& match escape_time {
        Some(n) => {
            &&& n < max
            &&& path.len() == n + 2
            &&& escapes(orbit(c, (n + 1) as nat))
            &&& bounded_through(c, n as nat)
        },
        None => {
            &&& path.len() == max + 1
            &&& bounded_through(c, max)
        },
    }
}

impl EscapeRecord {
    /// This record is the escape record of `c` under the cap `max`.
    pub open spec fn describes(&self, c: (int, int), max: nat) -> bool {
        is_record_of(self.escape_time, self.path@, c, max)
    }
}

/// Iterates `z <- z*z + c` from `z = 0 + 0i` until `|z| > 2` or
/// `iteration_max` iterations are done, recording every iterate.
pub fn escape_time_and_path(c: Point, iteration_max: usize) -> (r: EscapeRecord)
    requires
        in_limit(c@),
    ensures
        r.describes(c@, iteration_max as nat),
{
    let mut z = Point::origin();
    let mut path: Vec<Point> = Vec::new();
    path.push(z);
    let mut i: usize = 0;
    assert forall|k: nat| k <= 0 implies !escapes(#[trigger] orbit(c@, k)) by {
        assert(orbit(c@, k) == (0int, 0int));
    }
    while i < iteration_max
        invariant
            i <= iteration_max,
            in_limit(c@),
            path@.len() == i + 1,
            path_is_orbit(path@, c@),
            z@ == orbit(c@, i as nat),
            bounded_through(c@, i as nat),
        decreases iteration_max - i,
    {
        z = step_point(z, c);
        path.push(z);
        assert(z@ == orbit(c@, (i + 1) as nat));
        if escapes_radius(z) {
            return EscapeRecord { escape_time: Some(i), path };
        }
        i += 1;
        assert forall|k: nat| k <= i implies !escapes(#[trigger] orbit(c@, k)) by {
            if k < i {
                assert(!escapes(orbit(c@, k)));
            }
        }
    }
    EscapeRecord { escape_time: None, path }
}

/// Row-major index of cell `(row_index, column_index)` in a grid of
/// `width` columns.
pub fn serialize_index(row_index: usize, column_index: usize, width: usize) -> (r: usize)
    requires
        row_index * width + column_index <= usize::MAX,
    ensures
        r == row_index * width + column_index,
{
    proof {
        assert(0 <= row_index * width <= row_index * width + column_index) by (nonlinear_arith)
            requires
                row_index >= 0,
                width >= 0,
                column_index >= 0,
        ;
    }
    row_index * width + column_index
}

/// `grid` holds, in row-major order, the escape record of every cell of a
/// `width` by `height` grid over `vp` under the cap `max`.
pub open spec fn is_grid_of(
    grid: Seq<EscapeRecord>,
    vp: Viewport,
    width: nat,
    height: nat,
    max: nat,
) -> bool {
    &&& grid.len() == width * height
    &&& forall|i: int|
        0 <= i < grid.len() ==> (#[trigger] grid[i]).describes(
            cell_point(vp, width, height, (i / width as int) as nat, (i % width as int) as nat),
            max,
        )
}

/// The escape record of the cell at row-major `index` of a `pixel_width` by
/// `pixel_height` grid over `vp`.
pub fn cell_record(
    vp: &Viewport,
    pixel_width: usize,
    pixel_height: usize,
    index: usize,
    iteration_max: usize,
) -> (r: EscapeRecord)
    requires
        vp.wf(),
        index < pixel_width * pixel_height,
    ensures
        r.describes(
            cell_point(
                *vp,
                pixel_width as nat,
                pixel_height as nat,
                (index as int / pixel_width as int) as nat,
                (index as int % pixel_width as int) as nat,
            ),
            iteration_max as nat,
        ),
{
    proof {
        if pixel_width == 0 {
            assert(pixel_width * pixel_height == 0);
        }
        vstd::arithmetic::div_mod::lemma_fundamental_div_mod(index as int, pixel_width as int);
        vstd::arithmetic::div_mod::lemma_div_pos_is_pos(index as int, pixel_width as int);
        vstd::arithmetic::div_mod::lemma_mod_bound(index as int, pixel_width as int);
        if index / pixel_width >= pixel_height {
            assert(pixel_width * (index / pixel_width) >= pixel_width * pixel_height)
                by (nonlinear_arith)
                requires
                    index / pixel_width >= pixel_height,
                    pixel_width > 0,
            ;
        }
    }
    let row = index / pixel_width;
    let column = index % pixel_width;
    let c = cell_to_complex(vp, pixel_width, pixel_height, row, column);
    escape_time_and_path(c, iteration_max)
}

/// The escape record of every cell of a `pixel_width` by `pixel_height` grid
/// over `vp`, in row-major order: index `row * pixel_width + column`.
/// Cells are independent: a caller that spreads them over workers computes
/// each with `cell_record` and gets the same records, index for index.
pub fn escape_grid(
    vp: &Viewport,
    pixel_width: usize,
    pixel_height: usize,
    iteration_max: usize,
) -> (grid: Vec<EscapeRecord>)
    requires
        vp.wf(),
        pixel_width * pixel_height <= usize::MAX,
    ensures
        is_grid_of(grid@, *vp, pixel_width as nat, pixel_height as nat, iteration_max as nat),
{
    let mut grid: Vec<EscapeRecord> = Vec::new();
    let mut row: usize = 0;
    while row < pixel_height
        invariant
            vp.wf(),
            row <= pixel_height,
            grid@.len() == row * pixel_width,
            forall|i: int|
                0 <= i < grid@.len() ==> (#[trigger] grid@[i]).describes(
                    cell_point(*vp, pixel_width as nat, pixel_height as nat, (i / pixel_width as int) as nat, (i % pixel_width as int) as nat),
                    iteration_max as nat,
                ),
        decreases pixel_height - row,
    {
        let mut column: usize = 0;
        while column < pixel_width
            invariant
                vp.wf(),
                row < pixel_height,
                column <= pixel_width,
                grid@.len() == row * pixel_width + column,
                forall|i: int|
                    0 <= i < grid@.len() ==> (#[trigger] grid@[i]).describes(
                        cell_point(*vp, pixel_width as nat, pixel_height as nat, (i / pixel_width as int) as nat, (i % pixel_width as int) as nat),
                        iteration_max as nat,
                    ),
            decreases pixel_width - column,
        {
            let c = cell_to_complex(vp, pixel_width, pixel_height, row, column);
            let record = escape_time_and_path(c, iteration_max);
            proof {
                let i = row * pixel_width + column;
                vstd::arithmetic::div_mod::lemma_fundamental_div_mod_converse(
                    i,
                    pixel_width as int,
                    row as int,
                    column as int,
                );
            }
            grid.push(record);
            column += 1;
        }
        proof {
            assert(row * pixel_width + pixel_width == (row + 1) * pixel_width) by (nonlinear_arith);
        }
        row += 1;
    }
    proof {
        assert(row * pixel_width == pixel_width * pixel_height) by (nonlinear_arith)
            requires
                row == pixel_height,
        ;
    }
    grid
}

/// Why a grid could not be computed.
#[derive(Clone, Copy, Debug, PartialEq, Eq, Structural)]
pub enum GridError {
    /// The dimensions are not positive, or a corner falls out of limit.
    InvalidViewport,
    /// `pixel_width * pixel_height` does not fit in `usize`.
    TooManyCells,
}

/// The escape records of a `pixel_width` by `pixel_height` grid over the
/// viewport centered on `center` that spans `dimensions`.
pub fn calculate_mandelbrot_escape_times_and_paths(
    pixel_width: usize,
    pixel_height: usize,
    center: Point,
    dimensions: Point,
    iteration_max: usize,
) -> (r: Result<Vec<EscapeRecord>, GridError>)
    ensures
        ({
            let (tl, br) = centered_corners(center@, dimensions@);
            let valid = dimensions.re > 0 && dimensions.im > 0 && in_limit(tl) && in_limit(br);
            &&& (r == Err::<Vec<EscapeRecord>, GridError>(GridError::InvalidViewport) <==> !valid)
            &&& (r == Err::<Vec<EscapeRecord>, GridError>(GridError::TooManyCells) <==> valid
                && pixel_width * pixel_height > usize::MAX)
            &&& r matches Ok(grid) ==> exists|vp: Viewport|
                #![auto]
                vp.top_left@ == tl && vp.bottom_right@ == br && vp.wf() && is_grid_of(
                    grid@,
                    vp,
                    pixel_width as nat,
                    pixel_height as nat,
                    iteration_max as nat,
                )
        }),
{
    let vp = match Viewport::from_center(center, dimensions) {
        Some(vp) => vp,
        None => {
            return Err(GridError::InvalidViewport);
        },
    };
    if pixel_width.checked_mul(pixel_height).is_none() {
        return Err(GridError::TooManyCells);
    }
    Ok(escape_grid(&vp, pixel_width, pixel_height, iteration_max))
}

/// A grid index that does not name a cell.
#[derive(Clone, Copy, Debug, PartialEq, Eq, Structural)]
pub struct IndexOutOfRange {
    pub index: usize,
    pub len: usize,
}

/// The record at `index`, or an `IndexOutOfRange` naming the index and the
/// grid's length.
pub fn record_at(grid: &Vec<EscapeRecord>, index: usize) -> (r: Result<
    &EscapeRecord,
    IndexOutOfRange,
>)
    ensures
        index < grid@.len() ==> r == Ok::<&EscapeRecord, IndexOutOfRange>(&grid@[index as int]),
        index >= grid@.len() ==> r == Err::<&EscapeRecord, IndexOutOfRange>(
            IndexOutOfRange { index, len: grid@.len() as usize },
        ),
{
    if index < grid.len() {
        Ok(&grid[index])
    } else {
        Err(IndexOutOfRange { index, len: grid.len() })
    }
}

/// Every path starts at the origin `0 + 0i`.
pub proof fn lemma_path_starts_at_origin(r: EscapeRecord, c: (int, int), max: nat)
    requires
        r.describes(c, max),
    ensures
        r.path@.len() >= 1,
        r.path@[0]@ == (0int, 0int),
{
}

/// An escaped cell's path leaves the circle of radius 2 at index `n + 1`
/// and not before.
pub proof fn lemma_escape_is_first_crossing(r: EscapeRecord, c: (int, int), max: nat, n: usize)
    requires
        r.describes(c, max),
        r.escape_time == Some(n),
    ensures
        r.path@.len() == n + 2,
        escapes(r.path@[n + 1]@),
        forall|k: int| 0 <= k <= n ==> !escapes(#[trigger] r.path@[k]@),
{
    assert(r.path@[n + 1]@ == orbit(c, (n + 1) as nat));
    assert forall|k: int| 0 <= k <= n implies !escapes(#[trigger] r.path@[k]@) by {
        assert(r.path@[k]@ == orbit(c, k as nat));
    }
}

/// A bounded cell's path holds `max + 1` points and ends inside the circle
/// of radius 2.
pub proof fn lemma_bounded_path(r: EscapeRecord, c: (int, int), max: nat)
    requires
        r.describes(c, max),
        r.escape_time is None,
    ensures
        r.path@.len() == max + 1,
        !escapes(r.path@[max as int]@),
{
    assert(r.path@[max as int]@ == orbit(c, max));
}

/// A point has one escape record under a given cap.
pub proof fn lemma_record_unique(r1: EscapeRecord, r2: EscapeRecord, c: (int, int), max: nat)
    requires
        r1.describes(c, max),
        r2.describes(c, max),
    ensures
        r1.escape_time == r2.escape_time,
        r1.path@ == r2.path@,
{
    match (r1.escape_time, r2.escape_time) {
        (Some(n1), Some(n2)) => {
            if n1 < n2 {
                assert(!escapes(orbit(c, (n1 + 1) as nat)));
            } else if n2 < n1 {
                assert(!escapes(orbit(c, (n2 + 1) as nat)));
            }
        },
        (Some(n1), None) => {
            assert(!escapes(orbit(c, (n1 + 1) as nat)));
        },
        (None, Some(n2)) => {
            assert(!escapes(orbit(c, (n2 + 1) as nat)));
        },
        (None, None) => {},
    }
    assert forall|k: int| 0 <= k < r1.path@.len() implies r1.path@[k] == r2.path@[k] by {
        assert(r1.path@[k]@ == orbit(c, k as nat));
        assert(r2.path@[k]@ == orbit(c, k as nat));
    }
    assert(r1.path@ =~= r2.path@);
}

/// Two grids computed from the same viewport, size and cap hold the same
/// records, cell by cell.
pub proof fn lemma_grid_deterministic(
    g1: Seq<EscapeRecord>,
    g2: Seq<EscapeRecord>,
    vp: Viewport,
    width: nat,
    height: nat,
    max: nat,
)
    requires
        is_grid_of(g1, vp, width, height, max),
        is_grid_of(g2, vp, width, height, max),
    ensures
        g1.len() == g2.len(),
        forall|i: int|
            0 <= i < g1.len() ==> (#[trigger] g1[i]).escape_time == g2[i].escape_time
                && g1[i].path@ == g2[i].path@,
{
    assert forall|i: int| 0 <= i < g1.len() implies (#[trigger] g1[i]).escape_time
        == g2[i].escape_time && g1[i].path@ == g2[i].path@ by {
        let c = cell_point(vp, width, height, (i / width as int) as nat, (i % width as int) as nat);
        lemma_record_unique(g1[i], g2[i], c, max);
    }
}

proof fn lemma_origin_orbit(k: nat)
    ensures
        orbit((0, 0), k) == (0int, 0int),
    decreases k,
{
    if k > 0 {
        lemma_origin_orbit((k - 1) as nat);
    }
}

/// The point `0 + 0i` never escapes, whatever the cap.
pub proof fn lemma_origin_never_escapes(r: EscapeRecord, max: nat)
    requires
        r.describes((0, 0), max),
    ensures
        r.escape_time is None,
{
    if let Some(n) = r.escape_time {
        lemma_origin_orbit((n + 1) as nat);
    }
}

/// The point `3 + 0i` escapes at the first iterate under any cap of at
/// least one.
pub proof fn lemma_three_escapes_at_once(r: EscapeRecord, max: nat)
    requires
        max >= 1,
        r.describes((3 * FIXED_ONE as int, 0), max),
    ensures
        r.escape_time == Some(0usize),
{
    let c = (3 * FIXED_ONE as int, 0int);
    crate::fixed::lemma_first_iterate_is_c(c);
    assert(escapes(c)) by (nonlinear_arith)
        requires
            c == (12884901888int, 0int),
            FIXED_ONE == 4294967296,
    ;
}

} // verus!
