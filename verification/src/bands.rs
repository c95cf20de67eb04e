//! Partitioning the image into contiguous horizontal bands, one per
//! worker, and deriving each band's sub-viewport.

use vstd::prelude::*;
use vstd::arithmetic::div_mod::{
    lemma_div_by_self, lemma_div_is_ordered, lemma_div_nonincreasing, lemma_div_pos_is_pos,
    lemma_fundamental_div_mod, lemma_fundamental_div_mod_converse,
    lemma_mod_division_less_than_divisor,
};
use vstd::arithmetic::mul::{
    lemma_mul_basics, lemma_mul_inequality, lemma_mul_is_distributive_add_other_way,
};
use crate::mapper::{map_im, map_re, pixel_to_complex};
use crate::viewport::{Region, Viewport};

verus! {

/// A contiguous row range `[top, top + height)` of the image.
#[derive(Clone, Copy, Debug, PartialEq, Eq, Structural)]
pub struct Band {
    pub top: usize,
    pub height: usize,
}

/// Rows each band covers (the last one may cover fewer): `h / workers + 1`.
pub open spec fn rows_per_band(h: int, workers: int) -> int {
    h / workers + 1
}

/// How many bands partition `h` rows.
pub open spec fn bands_count(h: int, workers: int) -> int {
    (h + rows_per_band(h, workers) - 1) / rows_per_band(h, workers)
}

/// First row of band `i`.
pub open spec fn band_top(h: int, workers: int, i: int) -> int {
    i * rows_per_band(h, workers)
}

/// Number of rows of band `i`: full, unless the image ends first.
pub open spec fn band_height(h: int, workers: int, i: int) -> int {
    if band_top(h, workers, i) + rows_per_band(h, workers) <= h {
        rows_per_band(h, workers)
    } else {
        h - band_top(h, workers, i)
    }
}

/// Split `height` rows into consecutive bands of `h / workers + 1` rows,
/// the last band taking whatever is left.
pub fn make_bands(height: usize, workers: usize) -> (bands: Vec<Band>)
    requires
        1 <= height,
        1 <= workers,
        height < usize::MAX,
    ensures
        bands@.len() == bands_count(height as int, workers as int),
        forall|i: int|
            0 <= i < bands@.len() ==> {
                &&& (#[trigger] bands@[i]).top == band_top(height as int, workers as int, i)
                &&& bands@[i].height == band_height(height as int, workers as int, i)
            },
{
    let ghost hh = height as int;
    let ghost ww = workers as int;
    proof {
        lemma_div_pos_is_pos(hh, ww);
        lemma_div_nonincreasing(hh, ww);
    }
    let rpb = height / workers + 1;
    let mut bands: Vec<Band> = Vec::new();
    let mut top: usize = 0;
    while top < height
        invariant
            hh == height as int,
            ww == workers as int,
            1 <= height < usize::MAX,
            1 <= workers,
            rpb == rows_per_band(hh, ww),
            1 <= rpb,
            top <= height,
            top == band_top(hh, ww, bands@.len() as int) || top == hh,
            bands@.len() == 0 ==> top == 0,
            bands@.len() >= 1 ==> band_top(hh, ww, bands@.len() as int - 1) + band_height(
                hh,
                ww,
                bands@.len() as int - 1,
            ) == top,
            forall|i: int|
                0 <= i < bands@.len() ==> {
                    &&& (#[trigger] bands@[i]).top == band_top(hh, ww, i)
                    &&& bands@[i].height == band_height(hh, ww, i)
                    &&& bands@[i].top < hh
                    &&& 1 <= bands@[i].height
                },
        decreases height - top,
    {
        let ghost len = bands@.len() as int;
        proof {
            assert(top == band_top(hh, ww, len));
            lemma_mul_is_distributive_add_other_way(rpb as int, len, 1);
            lemma_mul_basics(rpb as int);
            assert(band_top(hh, ww, len + 1) == band_top(hh, ww, len) + rpb);
        }
        let h_left = height - top;
        let bh = if h_left < rpb {
            h_left
        } else {
            rpb
        };
        bands.push(Band { top, height: bh });
        top = top + bh;
    }
    proof {
        let len = bands@.len() as int;
        assert(top == hh);
        assert(len >= 1);
        let rp = rows_per_band(hh, ww);
        let last_h = band_height(hh, ww, len - 1);
        assert(bands@[len - 1].height == last_h && 1 <= bands@[len - 1].height);
        assert(band_top(hh, ww, len - 1) + last_h == hh);
        assert(1 <= last_h <= rp);
        lemma_mul_is_distributive_add_other_way(rp, len - 1, 1);
        lemma_mul_basics(rp);
        assert(hh + rp - 1 == len * rp + (last_h - 1));
        lemma_fundamental_div_mod_converse(hh + rp - 1, rp, len, last_h - 1);
        assert(len == bands_count(hh, ww));
    }
    bands
}

/// The bands of `h` rows for a given worker count tile `[0, h)` exactly:
/// they are consecutive, at least one row tall, never taller than
/// `h / workers + 1`, the first starts at row 0, the last ends at row
/// `h`, and every row lies in exactly the band `row / rows_per_band`.
pub proof fn lemma_bands_partition(h: int, workers: int)
    requires
        1 <= h,
        1 <= workers,
    ensures
        1 <= bands_count(h, workers),
        band_top(h, workers, 0) == 0,
        forall|i: int|
            0 <= i < bands_count(h, workers) ==> 1 <= #[trigger] band_height(h, workers, i)
                <= h / workers + 1,
        forall|i: int|
            0 <= i < bands_count(h, workers) ==> 0 <= #[trigger] band_top(h, workers, i)
                && band_top(h, workers, i) + band_height(h, workers, i) <= h,
        forall|i: int|
            0 <= i < bands_count(h, workers) - 1 ==> #[trigger] band_top(h, workers, i)
                + band_height(h, workers, i) == band_top(h, workers, i + 1),
        band_top(h, workers, bands_count(h, workers) - 1) + band_height(
            h,
            workers,
            bands_count(h, workers) - 1,
        ) == h,
        forall|row: int|
            0 <= row < h ==> {
                let i = #[trigger] (row / rows_per_band(h, workers));
                &&& 0 <= i < bands_count(h, workers)
                &&& band_top(h, workers, i) <= row < band_top(h, workers, i) + band_height(
                    h,
                    workers,
                    i,
                )
            },
        forall|i: int, row: int|
            #![trigger band_top(h, workers, i), row / rows_per_band(h, workers)]
            0 <= i < bands_count(h, workers) && band_top(h, workers, i) <= row < band_top(
                h,
                workers,
                i,
            ) + band_height(h, workers, i) ==> i == row / rows_per_band(h, workers),
{
    let rp = rows_per_band(h, workers);
    let count = bands_count(h, workers);
    lemma_div_pos_is_pos(h, workers);
    lemma_fundamental_div_mod(h + rp - 1, rp);
    lemma_mod_division_less_than_divisor(h + rp - 1, rp);
    let r0 = (h + rp - 1) % rp;
    assert(h + rp - 1 == rp * count + r0);
    assert(count * rp >= h) by (nonlinear_arith)
        requires
            h + rp - 1 == rp * count + r0,
            0 <= r0 < rp,
    ;
    assert((count - 1) * rp < h) by (nonlinear_arith)
        requires
            h + rp - 1 == rp * count + r0,
            0 <= r0 < rp,
            1 <= rp,
    ;
    lemma_div_by_self(rp);
    lemma_div_is_ordered(rp, h + rp - 1, rp);
    assert(1 <= count);
    lemma_mul_basics(rp);
    assert(band_top(h, workers, 0) == 0);
    assert forall|i: int| 0 <= i < count implies 1 <= #[trigger] band_height(h, workers, i)
        <= h / workers + 1 by {
        lemma_mul_inequality(i, count - 1, rp);
        assert(band_top(h, workers, i) < h);
    }
    assert forall|i: int| 0 <= i < count implies 0 <= #[trigger] band_top(h, workers, i)
        && band_top(h, workers, i) + band_height(h, workers, i) <= h by {
        vstd::arithmetic::mul::lemma_mul_nonnegative(i, rp);
        lemma_mul_inequality(i, count - 1, rp);
        assert(band_top(h, workers, i) < h);
    }
    assert forall|i: int| 0 <= i < count - 1 implies #[trigger] band_top(h, workers, i)
        + band_height(h, workers, i) == band_top(h, workers, i + 1) by {
        lemma_mul_is_distributive_add_other_way(rp, i, 1);
        lemma_mul_inequality(i + 1, count - 1, rp);
        assert(band_top(h, workers, i + 1) <= (count - 1) * rp < h);
        assert(band_top(h, workers, i) + rp <= h);
    }
    lemma_mul_is_distributive_add_other_way(rp, count - 1, 1);
    assert(band_top(h, workers, count - 1) + rp == count * rp >= h);
    assert(band_top(h, workers, count - 1) + band_height(h, workers, count - 1) == h);
    assert forall|row: int| 0 <= row < h implies {
        let i = #[trigger] (row / rp);
        &&& 0 <= i < count
        &&& band_top(h, workers, i) <= row < band_top(h, workers, i) + band_height(h, workers, i)
    } by {
        let i = row / rp;
        lemma_div_pos_is_pos(row, rp);
        lemma_fundamental_div_mod(row, rp);
        lemma_mod_division_less_than_divisor(row, rp);
        assert(rp * i <= row < rp * i + rp);
        assert(i < count) by (nonlinear_arith)
            requires
                rp * i <= row,
                row < h,
                count * rp >= h,
                1 <= rp,
        ;
        assert(band_top(h, workers, i) <= row < band_top(h, workers, i) + band_height(
            h,
            workers,
            i,
        ));
    }
    assert forall|i: int, row: int|
        #![trigger band_top(h, workers, i), row / rows_per_band(h, workers)]
        0 <= i < count && band_top(h, workers, i) <= row < band_top(h, workers, i) + band_height(
            h,
            workers,
            i,
        ) implies i == row / rp by {
        assert(row - i * rp < rp);
        lemma_fundamental_div_mod_converse(row, rp, i, row - i * rp);
    }
}

/// The sub-region band `[top, top + height)` of an image of `w` by `h`
/// pixels maps to: its corners are the images of pixels `(0, top)` and
/// `(w, top + height)` under the full-image mapping.
pub open spec fn sub_region(r: Region, w: int, h: int, top: int, height: int) -> Region {
    Region {
        ul_re: map_re(r, w, 0),
        ul_im: map_im(r, h, top),
        lr_re: map_re(r, w, w),
        lr_im: map_im(r, h, top + height),
    }
}

/// Derive a band's own viewport by mapping its corner pixels through the
/// full-image bounds.  The real span is always positive; the imaginary
/// span can collapse (a degenerate band) when the viewport's height in
/// ticks is smaller than the image's height in pixels, so the result's
/// well-formedness is exactly the band's non-degeneracy.
pub fn band_viewport(viewport: &Viewport, bounds: (usize, usize), band: &Band) -> (r: Viewport)
    requires
        viewport.wf(),
        1 <= bounds.0,
        1 <= bounds.1,
        band.top + band.height <= bounds.1,
    ensures
        r@ == sub_region(
            viewport@,
            bounds.0 as int,
            bounds.1 as int,
            band.top as int,
            band.height as int,
        ),
        r.upper_left.re == viewport.upper_left.re,
        r.lower_right.re == viewport.lower_right.re,
        r.upper_left.in_range(),
        r.lower_right.in_range(),
        r.upper_left.im >= r.lower_right.im,
        r.wf() <==> r.upper_left.im > r.lower_right.im,
{
    let ul = pixel_to_complex(bounds, (0, band.top), viewport);
    let lr = pixel_to_complex(bounds, (bounds.0, band.top + band.height), viewport);
    proof {
        lemma_map_im_monotone(
            viewport@,
            bounds.1 as int,
            band.top as int,
            band.top as int + band.height as int,
        );
    }
    Viewport { upper_left: ul, lower_right: lr }
}

/// Rows further down the image map to smaller (or equal) imaginary parts.
pub proof fn lemma_map_im_monotone(r: Region, h: int, y1: int, y2: int)
    requires
        r.wf(),
        1 <= h,
        0 <= y1 <= y2,
    ensures
        map_im(r, h, y1) >= map_im(r, h, y2),
{
    let span = r.ul_im - r.lr_im;
    lemma_mul_inequality(y1, y2, span);
    lemma_div_is_ordered(y1 * span, y2 * span, h);
}

} // verus!
