use mandelbrot_kernel::engine::{
    calculate_mandelbrot_escape_times_and_paths, escape_grid, escape_time_and_path, record_at,
    serialize_index, GridError, IndexOutOfRange,
};
use mandelbrot_kernel::fixed::{escapes_radius, step_point, Point, FIXED_ONE};
use mandelbrot_kernel::viewport::{cell_to_complex, Viewport};

fn pt(re: f64, im: f64) -> Point {
    Point { re: (re * FIXED_ONE as f64) as i64, im: (im * FIXED_ONE as f64) as i64 }
}

fn reference_escape_time(re: f64, im: f64, max: usize) -> Option<usize> {
    let (mut zr, mut zi) = (0.0f64, 0.0f64);
    for i in 0..max {
        let nr = zr * zr - zi * zi + re;
        let ni = 2.0 * zr * zi + im;
        zr = nr;
        zi = ni;
        if zr * zr + zi * zi > 4.0 {
            return Some(i);
        }
    }
    None
}

fn scenario_viewport() -> Viewport {
    Viewport::from_corners(pt(-2.0, 1.0), pt(1.0, -1.0)).unwrap()
}

#[test]
fn origin_is_bounded_for_every_cap() {
    for max in [0usize, 1, 2, 10, 500] {
        let r = escape_time_and_path(Point::origin(), max);
        assert_eq!(r.escape_time, None);
        assert_eq!(r.path.len(), max + 1);
        assert!(r.path.iter().all(|p| *p == Point::origin()));
    }
}

#[test]
fn three_escapes_at_first_iterate() {
    let c = pt(3.0, 0.0);
    let r = escape_time_and_path(c, 50);
    assert_eq!(r.escape_time, Some(0));
    assert_eq!(r.path, vec![Point::origin(), c]);
}

#[test]
fn zero_cap_gives_single_point_path() {
    let r = escape_time_and_path(pt(3.0, 0.0), 0);
    assert_eq!(r.escape_time, None);
    assert_eq!(r.path, vec![Point::origin()]);
}

#[test]
fn escape_path_first_crossing() {
    let c = pt(-1.25, 0.5);
    let r = escape_time_and_path(c, 50);
    assert_eq!(r.escape_time, Some(3));
    assert_eq!(r.escape_time, reference_escape_time(-1.25, 0.5, 50));
    assert_eq!(r.path.len(), 5);
    assert_eq!(r.path[0], Point::origin());
    assert_eq!(r.path[1], c);
    assert!(escapes_radius(r.path[4]));
    assert!(r.path[..4].iter().all(|p| !escapes_radius(*p)));
}

#[test]
fn bounded_path_ends_inside_radius() {
    let r = escape_time_and_path(pt(-1.0, 0.0), 20);
    assert_eq!(r.escape_time, None);
    assert_eq!(r.path.len(), 21);
    assert!(!escapes_radius(r.path[20]));
    assert_eq!(r.path[2], Point::origin());
    assert_eq!(r.path[3], pt(-1.0, 0.0));
}

#[test]
fn step_squares_and_adds() {
    let z = pt(1.0, 1.0);
    assert_eq!(step_point(z, Point::origin()), pt(0.0, 2.0));
    assert_eq!(step_point(z, pt(0.5, -0.25)), pt(0.5, 1.75));
    assert_eq!(step_point(pt(0.5, 0.0), pt(0.0, 0.0)), pt(0.25, 0.0));
}

#[test]
fn escape_radius_is_strict() {
    assert!(!escapes_radius(pt(2.0, 0.0)));
    assert!(!escapes_radius(pt(0.0, -2.0)));
    assert!(escapes_radius(Point { re: 2 * FIXED_ONE + 1, im: 0 }));
    assert!(escapes_radius(pt(1.5, 1.5)));
    assert!(escapes_radius(Point { re: i64::MIN, im: i64::MIN }));
}

#[test]
fn cell_centers_are_sampled() {
    let vp = scenario_viewport();
    assert_eq!(cell_to_complex(&vp, 2, 2, 0, 0), pt(-1.25, 0.5));
    assert_eq!(cell_to_complex(&vp, 2, 2, 0, 1), pt(0.25, 0.5));
    assert_eq!(cell_to_complex(&vp, 2, 2, 1, 0), pt(-1.25, -0.5));
    assert_eq!(cell_to_complex(&vp, 2, 2, 1, 1), pt(0.25, -0.5));
}

#[test]
fn example_two_by_two_grid() {
    let vp = scenario_viewport();
    let grid = escape_grid(&vp, 2, 2, 50);
    assert_eq!(grid.len(), 4);
    assert_eq!(grid[0].escape_time, Some(3));
    assert_eq!(grid[0].escape_time, reference_escape_time(-1.25, 0.5, 50));
    assert_eq!(grid[2].escape_time, reference_escape_time(-1.25, -0.5, 50));
    assert_eq!(grid[0].path[1], pt(-1.25, 0.5));
    assert_eq!(grid[1].path[1], pt(0.25, 0.5));
    assert_eq!(grid[2].path[1], pt(-1.25, -0.5));
    assert_eq!(grid[3].path[1], pt(0.25, -0.5));
    assert_eq!(grid[1].escape_time, None);
    assert_eq!(grid[3].escape_time, None);
    assert_eq!(grid[1].path.len(), 51);
}

#[test]
fn grid_cardinality() {
    let vp = scenario_viewport();
    for (w, h) in [(0usize, 0usize), (0, 5), (5, 0), (1, 1), (3, 2), (7, 4)] {
        assert_eq!(escape_grid(&vp, w, h, 10).len(), w * h);
    }
}

#[test]
fn grid_is_deterministic() {
    let vp = scenario_viewport();
    let a = escape_grid(&vp, 6, 5, 40);
    let b = escape_grid(&vp, 6, 5, 40);
    assert_eq!(a, b);
}

#[test]
fn grid_is_row_major() {
    let vp = scenario_viewport();
    let grid = escape_grid(&vp, 3, 2, 30);
    for row in 0..2 {
        for col in 0..3 {
            let c = cell_to_complex(&vp, 3, 2, row, col);
            assert_eq!(grid[serialize_index(row, col, 3)], escape_time_and_path(c, 30));
        }
    }
}

#[test]
fn zero_cap_grid_is_all_bounded() {
    let vp = scenario_viewport();
    let grid = escape_grid(&vp, 3, 3, 0);
    assert!(grid.iter().all(|r| r.escape_time.is_none() && r.path == vec![Point::origin()]));
}

#[test]
fn centered_grid_matches_corner_grid() {
    let grid = calculate_mandelbrot_escape_times_and_paths(2, 2, pt(-0.5, 0.0), pt(3.0, 2.0), 50)
        .unwrap();
    assert_eq!(grid, escape_grid(&scenario_viewport(), 2, 2, 50));
}

#[test]
fn centered_grid_rejects_bad_viewport() {
    let r = calculate_mandelbrot_escape_times_and_paths(2, 2, pt(0.0, 0.0), pt(0.0, 2.0), 5);
    assert_eq!(r, Err(GridError::InvalidViewport));
    let r = calculate_mandelbrot_escape_times_and_paths(2, 2, pt(0.0, 0.0), pt(1.0, -1.0), 5);
    assert_eq!(r, Err(GridError::InvalidViewport));
    let far = Point { re: i64::MAX, im: 0 };
    let r = calculate_mandelbrot_escape_times_and_paths(2, 2, far, pt(1.0, 1.0), 5);
    assert_eq!(r, Err(GridError::InvalidViewport));
}

#[test]
fn centered_grid_rejects_oversized_grid() {
    let r = calculate_mandelbrot_escape_times_and_paths(usize::MAX, 2, pt(0.0, 0.0), pt(1.0, 1.0), 5);
    assert_eq!(r, Err(GridError::TooManyCells));
}

#[test]
fn viewport_from_center_corners() {
    let vp = Viewport::from_center(pt(-0.5, 0.0), pt(3.0, 2.0)).unwrap();
    assert_eq!(vp.top_left, pt(-2.0, 1.0));
    assert_eq!(vp.bottom_right, pt(1.0, -1.0));
    assert_eq!(Viewport::from_center(pt(0.0, 0.0), pt(1.0, 0.0)), None);
}

#[test]
fn viewport_from_corners_checks_order() {
    assert!(Viewport::from_corners(pt(1.0, 1.0), pt(-2.0, -1.0)).is_none());
    assert!(Viewport::from_corners(pt(-2.0, -1.0), pt(1.0, 1.0)).is_none());
    assert!(Viewport::from_corners(pt(-2.0, 1.0), pt(-2.0, -1.0)).is_none());
    assert!(Viewport::from_corners(Point { re: i64::MIN, im: 1 }, pt(1.0, -1.0)).is_none());
}

#[test]
fn serialize_index_is_row_major() {
    assert_eq!(serialize_index(0, 0, 10), 0);
    assert_eq!(serialize_index(2, 3, 10), 23);
    assert_eq!(serialize_index(1, 0, 7), 7);
}

#[test]
fn record_lookup_checks_bounds() {
    let grid = escape_grid(&scenario_viewport(), 2, 2, 10);
    assert_eq!(record_at(&grid, 3).unwrap(), &grid[3]);
    assert_eq!(record_at(&grid, 4), Err(IndexOutOfRange { index: 4, len: 4 }));
    assert_eq!(record_at(&grid, usize::MAX), Err(IndexOutOfRange { index: usize::MAX, len: 4 }));
}

#[test]
fn every_cell_path_starts_at_origin_and_crosses_once() {
    let vp = Viewport::from_corners(pt(-2.5, 1.5), pt(1.5, -1.5)).unwrap();
    let max = 60;
    let grid = escape_grid(&vp, 16, 12, max);
    for record in &grid {
        assert_eq!(record.path[0], Point::origin());
        match record.escape_time {
            Some(n) => {
                assert_eq!(record.path.len(), n + 2);
                assert!(escapes_radius(record.path[n + 1]));
                assert!(record.path[..n + 1].iter().all(|p| !escapes_radius(*p)));
            }
            None => {
                assert_eq!(record.path.len(), max + 1);
                assert!(!escapes_radius(record.path[max]));
            }
        }
    }
}
