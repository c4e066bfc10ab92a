use oxrs::bounds::{corner_bounds, greater_bits, lesser_bits, CornerBounds, NEG_INFINITY_BITS};
use oxrs::raster::Window;
use oxrs::sample::INFINITY_BITS;

fn invert(gt: [f64; 6]) -> [f64; 6] {
    let det = gt[1] * gt[5] - gt[2] * gt[4];
    let inv_det = 1.0 / det;
    [
        (gt[2] * gt[3] - gt[0] * gt[5]) * inv_det,
        gt[5] * inv_det,
        -gt[2] * inv_det,
        (gt[0] * gt[4] - gt[1] * gt[3]) * inv_det,
        -gt[4] * inv_det,
        gt[1] * inv_det,
    ]
}

fn to_pixel(inv: [f64; 6], x: f64, y: f64) -> (f64, f64) {
    (inv[0] + inv[1] * x + inv[2] * y, inv[3] + inv[4] * x + inv[5] * y)
}

fn window_of(corners: &[(f64, f64)]) -> Window {
    let min_col = corners.iter().map(|(c, _)| *c).fold(f64::INFINITY, f64::min);
    let max_col = corners.iter().map(|(c, _)| *c).fold(f64::NEG_INFINITY, f64::max);
    let min_row = corners.iter().map(|(_, r)| *r).fold(f64::INFINITY, f64::min);
    let max_row = corners.iter().map(|(_, r)| *r).fold(f64::NEG_INFINITY, f64::max);
    Window {
        row_start: min_row.floor() as isize,
        row_end: max_row.ceil() as isize,
        col_start: min_col.floor() as isize,
        col_end: max_col.ceil() as isize,
    }
}

fn window_by_bounds(corners: [(f64, f64); 4]) -> Window {
    let b = corner_bounds(corners.map(|(c, r)| (c.to_bits(), r.to_bits())));
    Window {
        row_start: f64::from_bits(b.min_row).floor() as isize,
        row_end: f64::from_bits(b.max_row).ceil() as isize,
        col_start: f64::from_bits(b.min_col).floor() as isize,
        col_end: f64::from_bits(b.max_col).ceil() as isize,
    }
}

#[test]
fn constants_are_the_infinities() {
    assert_eq!(INFINITY_BITS, f64::INFINITY.to_bits());
    assert_eq!(NEG_INFINITY_BITS, f64::NEG_INFINITY.to_bits());
}

#[test]
fn bounds_of_four_corners() {
    let corners = [(1.5_f64, 7.0_f64), (-2.0, 8.5), (4.25, -1.0), (0.0, 3.0)];
    let b = corner_bounds(corners.map(|(c, r)| (c.to_bits(), r.to_bits())));
    assert_eq!(
        b,
        CornerBounds {
            min_col: (-2.0_f64).to_bits(),
            max_col: 4.25_f64.to_bits(),
            min_row: (-1.0_f64).to_bits(),
            max_row: 8.5_f64.to_bits(),
        }
    );
}

#[test]
fn bounds_pass_over_a_nan() {
    let nan = f64::NAN;
    let corners = [(nan, 1.0), (2.0, nan), (nan, nan), (-3.0, 0.5)];
    let b = corner_bounds(corners.map(|(c, r)| (c.to_bits(), r.to_bits())));
    assert_eq!(f64::from_bits(b.min_col), -3.0);
    assert_eq!(f64::from_bits(b.max_col), 2.0);
    assert_eq!(f64::from_bits(b.min_row), 0.5);
    assert_eq!(f64::from_bits(b.max_row), 1.0);
}

#[test]
fn bounds_of_nothing_but_nan_are_the_infinities() {
    let nan = f64::NAN.to_bits();
    let b = corner_bounds([(nan, nan); 4]);
    assert_eq!(b.min_col, INFINITY_BITS);
    assert_eq!(b.max_col, NEG_INFINITY_BITS);
    assert_eq!(b.min_row, INFINITY_BITS);
    assert_eq!(b.max_row, NEG_INFINITY_BITS);
    let w = window_by_bounds([(f64::NAN, f64::NAN); 4]);
    assert!(w.is_empty());
    assert_eq!(w, window_of(&[(f64::NAN, f64::NAN); 4]));
}

#[test]
fn lesser_and_greater_agree_with_the_numbers() {
    let probes = [
        0.0_f64, -0.0, 1.0, -1.0, 2.5, 1e300, -1e300, 5e-324, f64::INFINITY, f64::NEG_INFINITY,
        f64::NAN,
    ];
    for a in probes {
        for b in probes {
            let low = f64::from_bits(lesser_bits(a.to_bits(), b.to_bits()));
            let high = f64::from_bits(greater_bits(a.to_bits(), b.to_bits()));
            let (min, max) = (a.min(b), a.max(b));
            assert!(low == min || (low.is_nan() && min.is_nan()));
            assert!(high == max || (high.is_nan() && max.is_nan()));
        }
    }
}

#[test]
fn window_of_an_upright_raster() {
    let inv = invert([100.0, 2.0, 0.0, 50.0, 0.0, -2.0]);
    let (min_x, min_y, max_x, max_y) = (103.0, 41.0, 109.0, 47.0);
    let corners = [
        to_pixel(inv, min_x, min_y),
        to_pixel(inv, min_x, max_y),
        to_pixel(inv, max_x, min_y),
        to_pixel(inv, max_x, max_y),
    ];
    assert_eq!(
        window_by_bounds(corners),
        Window { row_start: 1, row_end: 5, col_start: 1, col_end: 5 }
    );
}

#[test]
fn window_of_a_rotated_raster_needs_all_four_corners() {
    let inv = invert([10.0, 0.8, -0.6, 20.0, 0.6, 0.8]);
    let (min_x, min_y, max_x, max_y) = (12.0, 21.0, 19.0, 24.0);
    let corners = [
        to_pixel(inv, min_x, min_y),
        to_pixel(inv, min_x, max_y),
        to_pixel(inv, max_x, min_y),
        to_pixel(inv, max_x, max_y),
    ];
    let all_four = window_by_bounds(corners);
    assert_eq!(all_four, window_of(&corners));
    let two_opposite = window_of(&[corners[0], corners[3]]);
    assert_ne!(all_four, two_opposite);
    let other_two = window_of(&[corners[1], corners[2]]);
    assert_ne!(all_four, other_two);
    for (col, row) in corners {
        assert!(all_four.col_start as f64 <= col && col <= all_four.col_end as f64);
        assert!(all_four.row_start as f64 <= row && row <= all_four.row_end as f64);
    }
}

#[test]
fn window_agrees_with_folding_the_numbers() {
    let sets: [[(f64, f64); 4]; 5] = [
        [(0.0, -0.0), (-0.0, 0.0), (0.0, 0.0), (-0.0, -0.0)],
        [(1.2, 3.4), (1.2, 3.4), (1.2, 3.4), (1.2, 3.4)],
        [(-7.9, 1e30), (f64::INFINITY, 2.0), (3.0, f64::NEG_INFINITY), (0.5, 0.5)],
        [(f64::NAN, 4.0), (5.5, 6.5), (-5.5, -6.5), (1e-9, -1e-9)],
        [(9.999, -9.999), (10.0, -10.0), (10.001, -10.001), (9.0, -9.0)],
    ];
    for corners in sets {
        assert_eq!(window_by_bounds(corners), window_of(&corners));
    }
}
