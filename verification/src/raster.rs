//! The raster side of the renderer: the size and addressing of the flat,
//! row-major pixel buffer, the grayscale intensity written for each
//! escape-time result, the escape-time loop itself, and the sequential
//! per-pixel render loop, both generic over the plane arithmetic their
//! caller supplies.

use vstd::arithmetic::div_mod::lemma_fundamental_div_mod_converse;
use vstd::prelude::*;

verus! {

/// The fixed iteration limit of the escape-time computation. It is at
/// most 255 so that `255 - count` always fits in an intensity byte.
pub const ESCAPE_LIMIT: usize = 255;

/// The number of bytes a raster of the given `(width, height)` needs:
/// `width * height`, or `None` when that product does not fit in `usize`.
pub fn pixel_count(bounds: (usize, usize)) -> (r: Option<usize>)
    ensures
        (r matches Some(n) ==> n == bounds.0 * bounds.1),
        (r is None) <==> (bounds.0 * bounds.1 > usize::MAX),
{
    let w = bounds.0 as u128;
    let h = bounds.1 as u128;
    proof {
        assert(w * h <= u64::MAX as u128 * u64::MAX as u128) by (nonlinear_arith)
            requires
                w <= u64::MAX as u128,
                h <= u64::MAX as u128,
        ;
    }
    let p = w * h;
    if p <= usize::MAX as u128 {
        Some(p as usize)
    } else {
        None
    }
}

/// The position of pixel `(column, row)` in the flat row-major buffer of a
/// raster of the given bounds: `row * width + column`, always within the
/// buffer.
pub fn pixel_index(bounds: (usize, usize), pixel: (usize, usize)) -> (r: usize)
    requires
        pixel.0 < bounds.0,
        pixel.1 < bounds.1,
        bounds.0 * bounds.1 <= usize::MAX,
    ensures
        r == pixel.1 * bounds.0 + pixel.0,
        r < bounds.0 * bounds.1,
{
    proof {
        assert(pixel.1 * bounds.0 + pixel.0 < bounds.0 * bounds.1) by (nonlinear_arith)
            requires
                pixel.0 < bounds.0,
                pixel.1 < bounds.1,
        ;
    }
    pixel.1 * bounds.0 + pixel.0
}

/// The intensity byte written for one pixel: 0 (black) for a point that
/// never escaped within the limit, and otherwise `255 - count`, so that
/// points escaping quickly are bright and points escaping slowly are dark.
pub fn intensity(count: Option<usize>) -> (r: u8)
    requires
        (count matches Some(c) ==> c < 255),
    ensures
        (match count {
            None => r == 0,
            Some(c) => r == 255 - c,
        }),
{
    match count {
        None => 0,
        Some(c) => (255 - c) as u8,
    }
}

/// The pixel whose byte sits at position `i` of the flat row-major buffer:
/// `(i % width, i / width)`.
pub open spec fn pixel_at(bounds: (usize, usize), i: int) -> (usize, usize) {
    ((i % bounds.0 as int) as usize, (i / bounds.0 as int) as usize)
}

/// Law (addressing round trip): the pixel found at the buffer position of
/// `(column, row)` is `(column, row)` itself.
pub proof fn lemma_pixel_at_of_index(bounds: (usize, usize), pixel: (usize, usize))
    requires
        pixel.0 < bounds.0,
        pixel.1 < bounds.1,
    ensures
        pixel_at(bounds, pixel.1 * bounds.0 + pixel.0) == pixel,
{
    lemma_fundamental_div_mod_converse(
        pixel.1 * bounds.0 + pixel.0,
        bounds.0 as int,
        pixel.1 as int,
        pixel.0 as int,
    );
}

/// The sequential per-pixel render loop: one byte per pixel of the raster,
/// row-major, each computed by `shade` from its own `(column, row)`
/// coordinate alone. The caller supplies what a pixel's byte is; this
/// function guarantees that every pixel is shaded exactly once and lands
/// at its own position.
pub fn render_with<F: Fn((usize, usize)) -> u8>(bounds: (usize, usize), shade: F) -> (r: Vec<u8>)
    requires
        bounds.0 * bounds.1 <= usize::MAX,
        forall|p: (usize, usize)| p.0 < bounds.0 && p.1 < bounds.1 ==> call_requires(shade, (p,)),
    ensures
        r@.len() == bounds.0 * bounds.1,
        forall|i: int| 0 <= i < r@.len() ==> call_ensures(
            shade,
            (pixel_at(bounds, i),),
            #[trigger] r@[i],
        ),
{
    let mut out: Vec<u8> = Vec::new();
    let mut row: usize = 0;
    proof {
        assert(0 * bounds.0 as int == 0) by (nonlinear_arith);
    }
    while row < bounds.1
        invariant
            forall|p: (usize, usize)| p.0 < bounds.0 && p.1 < bounds.1 ==> call_requires(
                shade,
                (p,),
            ),
            row <= bounds.1,
            out@.len() == row * bounds.0,
            forall|i: int| 0 <= i < out@.len() ==> call_ensures(
                shade,
                (pixel_at(bounds, i),),
                #[trigger] out@[i],
            ),
        decreases bounds.1 - row,
    {
        let mut col: usize = 0;
        while col < bounds.0
            invariant
                forall|p: (usize, usize)| p.0 < bounds.0 && p.1 < bounds.1 ==> call_requires(
                    shade,
                    (p,),
                ),
                row < bounds.1,
                col <= bounds.0,
                out@.len() == row * bounds.0 + col,
                forall|i: int| 0 <= i < out@.len() ==> call_ensures(
                    shade,
                    (pixel_at(bounds, i),),
                    #[trigger] out@[i],
                ),
            decreases bounds.0 - col,
        {
            let b = shade((col, row));
            proof {
                lemma_pixel_at_of_index(bounds, (col, row));
            }
            out.push(b);
            col = col + 1;
        }
        proof {
            assert(row * bounds.0 + bounds.0 == (row + 1) * bounds.0) by (nonlinear_arith);
        }
        row = row + 1;
    }
    proof {
        assert(bounds.1 * bounds.0 == bounds.0 * bounds.1) by (nonlinear_arith);
    }
    out
}

/// The escape-time loop: starting from `z0`, the `escaped` test runs
/// before each `step` update, and the number of the first round whose test
/// passes is returned, counted from 0; `None` when `limit` rounds pass
/// without an escape (the point is presumed in the set). The caller
/// supplies the state type and the two operations on it; the loop
/// guarantees that a count is always in `[0, limit)`, that `Some` comes
/// only after a passing test, and that `None` after at least one round
/// comes only with a failing test.
pub fn escape_time<Z: Copy, T: Fn(Z) -> bool, S: Fn(Z) -> Z>(
    z0: Z,
    escaped: T,
    step: S,
    limit: usize,
) -> (r: Option<usize>)
    requires
        forall|z: Z| call_requires(escaped, (z,)),
        forall|z: Z| call_requires(step, (z,)),
    ensures
        (r matches Some(n) ==> n < limit),
        (r is Some ==> (exists|z: Z| call_ensures(escaped, (z,), true))),
        (r is None && limit > 0 ==> (exists|z: Z| call_ensures(escaped, (z,), false))),
{
    let mut z = z0;
    let mut i: usize = 0;
    while i < limit
        invariant
            i <= limit,
            forall|y: Z| call_requires(escaped, (y,)),
            forall|y: Z| call_requires(step, (y,)),
            i > 0 ==> (exists|y: Z| call_ensures(escaped, (y,), false)),
        decreases limit - i,
    {
        if escaped(z) {
            return Some(i);
        }
        z = step(z);
        i = i + 1;
    }
    None
}

} // verus!
