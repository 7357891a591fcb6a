use mandelbrot::raster::{intensity, pixel_count, pixel_index, ESCAPE_LIMIT};
use num::Complex;

#[test]
fn test_pixel_count_small() {
    assert_eq!(pixel_count((100, 200)), Some(20000));
    assert_eq!(pixel_count((0, 5)), Some(0));
    assert_eq!(pixel_count((1, 1)), Some(1));
}

#[test]
fn test_pixel_count_overflow() {
    assert_eq!(pixel_count((usize::MAX, 2)), None);
    assert_eq!(pixel_count((usize::MAX, 1)), Some(usize::MAX));
}

#[test]
fn test_pixel_index_row_major() {
    assert_eq!(pixel_index((100, 200), (0, 0)), 0);
    assert_eq!(pixel_index((100, 200), (25, 175)), 17525);
    assert_eq!(pixel_index((100, 200), (99, 199)), 19999);
}

#[test]
fn test_intensity_bytes() {
    assert_eq!(intensity(None), 0);
    assert_eq!(intensity(Some(0)), 255);
    assert_eq!(intensity(Some(1)), 254);
    assert_eq!(intensity(Some(254)), 1);
}

#[test]
fn test_escape_time_counts_rounds() {
    // An integer walk makes the loop's counting visible: starting at 0,
    // growing by 1 each round, the test `z >= 4` first passes in round 4.
    let t = mandelbrot::raster::escape_time(0u64, |z: u64| z >= 4, |z: u64| z + 1, 255);
    assert_eq!(t, Some(4));
}

#[test]
fn test_escape_time_zero_limit_is_none() {
    let t = mandelbrot::raster::escape_time(0u64, |_z: u64| true, |z: u64| z, 0);
    assert_eq!(t, None);
}

/// The escape-time loop as the renderer runs it: the library loop, with
/// the quadratic update and the escape test supplied as closures.
fn escape_time(c: Complex<f64>, limit: usize) -> Option<usize> {
    mandelbrot::raster::escape_time(
        Complex { re: 0.0, im: 0.0 },
        |z: Complex<f64>| z.norm_sqr() > 4.0,
        move |z: Complex<f64>| z * z + c,
        limit,
    )
}

#[test]
fn test_escape_time_origin_never_escapes() {
    // The origin stays at z = 0 forever, so the limit is reached and the
    // pixel is rendered black.
    let t = escape_time(Complex { re: 0.0, im: 0.0 }, ESCAPE_LIMIT);
    assert_eq!(t, None);
    assert_eq!(intensity(t), 0);
}

#[test]
fn test_escape_time_far_point_escapes_at_once() {
    // For c = 3+0i the first check sees z = 0, the second sees z = c with
    // |c| > 2, so the count is 1.
    let t = escape_time(Complex { re: 3.0, im: 0.0 }, ESCAPE_LIMIT);
    assert_eq!(t, Some(1));
}

#[test]
fn test_escape_time_count_in_range() {
    // Wherever the result is a count, it lies in [0, limit).
    for limit in [0usize, 1, 2, 10, 255] {
        for re in [-2.5f64, -1.0, -0.5, 0.0, 0.3, 1.0, 2.5] {
            for im in [-2.0f64, -0.1, 0.0, 0.7, 2.0] {
                if let Some(n) = escape_time(Complex { re, im }, limit) {
                    assert!(n < limit);
                }
            }
        }
    }
}
