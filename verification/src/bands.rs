//! Static partitioning of the output raster into contiguous horizontal
//! row bands, one per worker. A band is a run of whole rows; the bands
//! are consecutive, never overlap, and together cover every row exactly
//! once. All bands span `height / threads + 1` rows except the last,
//! which holds whatever rows remain (integer truncation in the
//! rows-per-band computation is the documented rule, kept as it is).

use vstd::arithmetic::div_mod::{
    lemma_div_basics_5, lemma_div_is_ordered, lemma_fundamental_div_mod,
    lemma_fundamental_div_mod_converse,
};
use vstd::prelude::*;

verus! {

/// One horizontal band of whole rows: the index of its first row and the
/// number of rows it spans.
#[derive(Clone, Copy, PartialEq, Eq, Structural, Debug)]
pub struct Band {
    pub top: usize,
    pub height: usize,
}

/// The number of rows a full band spans when `height` rows are divided
/// among `threads` workers.
pub open spec fn rows_per_band_spec(height: int, threads: int) -> int {
    height / threads + 1
}

/// How many bands a raster of `height` rows falls into, with `rpb` rows
/// per full band.
pub open spec fn band_count(height: int, rpb: int) -> int {
    if height == 0 {
        0
    } else {
        (height - 1) / rpb + 1
    }
}

/// The `i`-th band: it starts at row `i * rpb` and spans `rpb` rows, or
/// fewer when fewer remain.
pub open spec fn band_at(height: int, rpb: int, i: int) -> Band {
    Band {
        top: (i * rpb) as usize,
        height: (if height - i * rpb < rpb {
            height - i * rpb
        } else {
            rpb
        }) as usize,
    }
}

/// The whole partition of `height` rows among `threads` workers.
pub open spec fn band_seq(height: int, threads: int) -> Seq<Band> {
    Seq::new(
        band_count(height, rows_per_band_spec(height, threads)) as nat,
        |i: int| band_at(height, rows_per_band_spec(height, threads), i),
    )
}

/// Whether `row` is one of the rows of band `b`.
pub open spec fn band_covers(b: Band, row: int) -> bool {
    b.top <= row < b.top + b.height
}

/// The number of rows per full band: `height / threads + 1`, as the
/// partitioning rule has it.
pub fn rows_per_band(height: usize, threads: usize) -> (r: usize)
    requires
        1 <= threads,
        height < usize::MAX,
    ensures
        r == rows_per_band_spec(height as int, threads as int),
{
    proof {
        lemma_div_basics_5(height as int, threads as int);
    }
    height / threads + 1
}

/// Divides the rows `[0, height)` into consecutive bands of
/// `height / threads + 1` rows each, the final band holding the remainder.
/// A raster of no rows falls into no bands.
pub fn plan_bands(height: usize, threads: usize) -> (r: Vec<Band>)
    requires
        1 <= threads,
        height < usize::MAX,
    ensures
        r@ == band_seq(height as int, threads as int),
{
    let rpb = rows_per_band(height, threads);
    let ghost h_i = height as int;
    let ghost rpb_i = rpb as int;
    let mut r: Vec<Band> = Vec::new();
    let mut top: usize = 0;
    proof {
        assert(r@.len() * rpb_i == 0) by (nonlinear_arith)
            requires
                r@.len() == 0,
        ;
    }
    while top < height
        invariant
            rpb_i == rows_per_band_spec(h_i, threads as int),
            1 <= rpb_i,
            rpb == rpb_i,
            h_i == height,
            top <= height,
            forall|k: int| 0 <= k < r@.len() ==> r@[k] == band_at(h_i, rpb_i, k),
            top < height ==> top == r@.len() * rpb_i,
            top == height ==> r@.len() == band_count(h_i, rpb_i),
        decreases height - top,
    {
        let ghost len = r@.len() as int;
        let h = if height - top < rpb {
            height - top
        } else {
            rpb
        };
        proof {
            assert(Band { top, height: h } == band_at(h_i, rpb_i, len));
        }
        r.push(Band { top, height: h });
        let next = if height - top < rpb {
            height
        } else {
            top + rpb
        };
        proof {
            assert((len + 1) * rpb_i == len * rpb_i + rpb_i) by (nonlinear_arith);
            if next == height {
                lemma_fundamental_div_mod_converse(
                    h_i - 1,
                    rpb_i,
                    len,
                    h_i - 1 - len * rpb_i,
                );
                assert(r@.len() == band_count(h_i, rpb_i));
            }
        }
        top = next;
    }
    proof {
        assert(r@ =~= band_seq(h_i, threads as int));
    }
    r
}

/// Law (partition coverage): every row of `[0, height)` lies in the band
/// whose index is `row / (height / threads + 1)`, and in no other band.
/// Together with `lemma_band_rows_in_range` this says the bands' row
/// ranges exactly cover `[0, height)` with no gaps and no overlaps.
pub proof fn lemma_bands_cover(height: int, threads: int, row: int)
    requires
        1 <= threads,
        0 <= row < height,
        height < usize::MAX,
    ensures
        ({
            let bs = band_seq(height, threads);
            let i = row / rows_per_band_spec(height, threads);
            &&& 0 <= i < bs.len()
            &&& band_covers(bs[i], row)
            &&& forall|j: int| 0 <= j < bs.len() && j != i ==> !band_covers(bs[j], row)
        }),
{
    let rpb = rows_per_band_spec(height, threads);
    let bs = band_seq(height, threads);
    let i = row / rpb;
    lemma_div_basics_5(height, threads);
    lemma_fundamental_div_mod(row, rpb);
    assert(0 <= row % rpb < rpb);
    assert(row == i * rpb + row % rpb);
    lemma_div_is_ordered(row, height - 1, rpb);
    assert(0 <= i < bs.len());
    assert(0 <= i * rpb <= row < i * rpb + rpb);
    assert(band_covers(bs[i], row));
    lemma_fundamental_div_mod(height - 1, rpb);
    assert forall|j: int| 0 <= j < bs.len() && j != i implies !band_covers(bs[j], row) by {
        assert(j * rpb <= ((height - 1) / rpb) * rpb) by (nonlinear_arith)
            requires
                j <= (height - 1) / rpb,
                rpb >= 1,
        ;
        assert(0 <= j * rpb <= height - 1);
        if band_covers(bs[j], row) {
            lemma_fundamental_div_mod_converse(row, rpb, j, row - j * rpb);
        }
    }
}

/// The range of byte positions band `b` owns in the flat row-major buffer
/// of a raster `width` pixels wide: `[top * width, (top + height) * width)`,
/// or `None` when the upper end does not fit in `usize`.
pub fn band_byte_range(b: Band, width: usize) -> (r: Option<(usize, usize)>)
    ensures
        (r matches Some(range) ==> range.0 == b.top * width && range.1 == (b.top + b.height)
            * width),
        (r is None) <==> ((b.top + b.height) * width > usize::MAX),
{
    if width == 0 {
        proof {
            assert((b.top + b.height) * width == 0) by (nonlinear_arith)
                requires
                    width == 0,
            ;
            assert(b.top * width == 0) by (nonlinear_arith)
                requires
                    width == 0,
            ;
        }
        return Some((0, 0));
    }
    let sum = b.top as u128 + b.height as u128;
    if sum > usize::MAX as u128 {
        proof {
            assert(sum * width as u128 > usize::MAX as u128) by (nonlinear_arith)
                requires
                    sum > usize::MAX as u128,
                    width as u128 >= 1,
            ;
        }
        return None;
    }
    proof {
        assert(sum * width as u128 <= u64::MAX as u128 * u64::MAX as u128) by (nonlinear_arith)
            requires
                sum <= u64::MAX as u128,
                width as u128 <= u64::MAX as u128,
        ;
        assert(b.top as u128 * width as u128 <= sum * width as u128) by (nonlinear_arith)
            requires
                b.top as u128 <= sum,
                width as u128 >= 0,
        ;
    }
    let upper = sum * width as u128;
    if upper <= usize::MAX as u128 {
        Some((b.top * width, upper as usize))
    } else {
        None
    }
}

/// Law (disjoint band memory): in the flat row-major buffer, the byte of
/// any pixel `(column, row)` whose row a band covers lies inside that
/// band's own byte range `[top * width, (top + height) * width)`. Rows are
/// covered by exactly one band (`lemma_bands_cover`), so no two workers
/// ever own the same byte.
pub proof fn lemma_band_owns_pixel_bytes(width: int, b: Band, row: int, column: int)
    requires
        band_covers(b, row),
        0 <= column < width,
    ensures
        b.top * width <= row * width + column < (b.top + b.height) * width,
{
    assert(b.top * width <= row * width) by (nonlinear_arith)
        requires
            b.top <= row,
            width >= 1,
    ;
    assert(row * width + width <= (b.top + b.height) * width) by (nonlinear_arith)
        requires
            row < b.top + b.height,
            width >= 1,
    ;
}

/// Law (each byte owned by exactly one worker): every position of the
/// flat buffer of a `width` by `height` raster lies in the byte range of
/// exactly one band of the partition. The workers' slices therefore
/// cover the buffer with no gaps and no overlaps, and the finished
/// buffer does not depend on the order in which they run.
pub proof fn lemma_bytes_cover(width: int, height: int, threads: int, i: int)
    requires
        1 <= threads,
        1 <= width,
        height < usize::MAX,
        0 <= i < width * height,
    ensures
        ({
            let bs = band_seq(height, threads);
            let j = (i / width) / rows_per_band_spec(height, threads);
            &&& 0 <= j < bs.len()
            &&& bs[j].top * width <= i < (bs[j].top + bs[j].height) * width
            &&& forall|k: int|
                0 <= k < bs.len() && k != j ==> !((#[trigger] bs[k]).top * width <= i < (bs[k].top
                    + bs[k].height) * width)
        }),
{
    let bs = band_seq(height, threads);
    let row = i / width;
    let col = i % width;
    lemma_fundamental_div_mod(i, width);
    assert(i == row * width + col);
    assert(0 <= col < width);
    assert(0 <= row) by (nonlinear_arith)
        requires
            i >= 0,
            width >= 1,
            i == row * width + col,
            col < width,
    ;
    assert(row < height) by (nonlinear_arith)
        requires
            i < width * height,
            i == row * width + col,
            0 <= col,
            width >= 1,
    ;
    lemma_bands_cover(height, threads, row);
    let j = row / rows_per_band_spec(height, threads);
    lemma_band_owns_pixel_bytes(width, bs[j], row, col);
    assert forall|k: int|
        0 <= k < bs.len() && k != j implies !((#[trigger] bs[k]).top * width <= i < (bs[k].top
        + bs[k].height) * width) by {
        if bs[k].top * width <= i < (bs[k].top + bs[k].height) * width {
            lemma_fundamental_div_mod_converse(bs[k].top * width, width, bs[k].top as int, 0);
            lemma_div_is_ordered(bs[k].top * width, i, width);
            assert(bs[k].top <= row);
            assert((bs[k].top + bs[k].height) * width - 1 == (bs[k].top + bs[k].height - 1) * width
                + (width - 1)) by (nonlinear_arith);
            lemma_fundamental_div_mod_converse(
                (bs[k].top + bs[k].height) * width - 1,
                width,
                bs[k].top + bs[k].height - 1,
                width - 1,
            );
            lemma_div_is_ordered(i, (bs[k].top + bs[k].height) * width - 1, width);
            assert(row <= bs[k].top + bs[k].height - 1);
            assert(band_covers(bs[k], row));
        }
    }
}

/// Law (bands stay inside the raster): every row of every band of the
/// partition is a row of the raster, `0 <= row < height`.
pub proof fn lemma_band_rows_in_range(height: int, threads: int, i: int, row: int)
    requires
        1 <= threads,
        0 <= height < usize::MAX,
        0 <= i < band_seq(height, threads).len(),
        band_covers(band_seq(height, threads)[i], row),
    ensures
        0 <= row < height,
{
    let rpb = rows_per_band_spec(height, threads);
    lemma_div_basics_5(height, threads);
    lemma_fundamental_div_mod(height - 1, rpb);
    assert(i <= (height - 1) / rpb);
    assert(i * rpb <= ((height - 1) / rpb) * rpb) by (nonlinear_arith)
        requires
            i <= (height - 1) / rpb,
            rpb >= 1,
    ;
    assert(0 <= i * rpb <= height - 1);
}

} // verus!
