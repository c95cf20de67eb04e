//! The frame orchestrator: partition the image into bands, render each
//! band against its own sub-viewport, and assemble the full intensity
//! buffer — or report why the frame cannot be rendered.

use vstd::prelude::*;
use vstd::arithmetic::mul::{
    lemma_mul_basics, lemma_mul_is_distributive_add, lemma_mul_is_distributive_add_other_way,
};
use crate::bands::{
    band_height, band_top, bands_count, band_viewport, lemma_bands_partition, make_bands,
    rows_per_band, sub_region,
};
use crate::render::{render, rendered_band};
use crate::viewport::{Region, Viewport};

verus! {

/// Why a frame could not be rendered.
#[derive(Clone, Copy, Debug, PartialEq, Eq, Structural)]
pub enum RenderError {
    /// Configuration error: the viewport is not well-formed; the caller
    /// must fix it before retrying.
    InvalidViewport,
    /// Worker failure: a band's sub-viewport collapsed to zero height,
    /// so its renderer cannot run.
    DegenerateBand,
}

/// The sub-region band `i` of the partition renders.
pub open spec fn band_region(r: Region, w: int, h: int, workers: int, i: int) -> Region {
    sub_region(r, w, h, band_top(h, workers, i), band_height(h, workers, i))
}

/// Whether some band's sub-region is degenerate (its imaginary span
/// collapsed to zero under the pixel mapping).
pub open spec fn has_degenerate_band(r: Region, w: int, h: int, workers: int) -> bool {
    exists|i: int|
        0 <= i < bands_count(h, workers) && !(#[trigger] band_region(r, w, h, workers, i)).wf()
}

/// The first `k` bands' rendered pixels, concatenated in band order.
pub open spec fn frame_prefix(r: Region, w: int, h: int, workers: int, k: int) -> Seq<int>
    decreases k,
{
    if k <= 0 {
        Seq::empty()
    } else {
        frame_prefix(r, w, h, workers, k - 1) + rendered_band(
            band_region(r, w, h, workers, k - 1),
            w,
            band_height(h, workers, k - 1),
        )
    }
}

/// The whole frame: every band rendered and concatenated.
pub open spec fn frame_spec(r: Region, w: int, h: int, workers: int) -> Seq<int> {
    frame_prefix(r, w, h, workers, bands_count(h, workers))
}

/// Rows covered by the first `k` bands.
pub open spec fn covered_rows(h: int, workers: int, k: int) -> int {
    if band_top(h, workers, k) <= h {
        band_top(h, workers, k)
    } else {
        h
    }
}

/// The first `k` bands render `w * covered_rows(k)` pixels; the whole
/// frame renders `w * h`.
pub proof fn lemma_frame_prefix_len(r: Region, w: int, h: int, workers: int, k: int)
    requires
        1 <= w,
        1 <= h,
        1 <= workers,
        0 <= k <= bands_count(h, workers),
    ensures
        frame_prefix(r, w, h, workers, k).len() == w * covered_rows(h, workers, k),
        k == bands_count(h, workers) ==> frame_prefix(r, w, h, workers, k).len() == w * h,
    decreases k,
{
    lemma_bands_partition(h, workers);
    let count = bands_count(h, workers);
    let rp = rows_per_band(h, workers);
    if k == 0 {
        lemma_mul_basics(w);
        assert(band_top(h, workers, 0) == 0);
    } else {
        lemma_frame_prefix_len(r, w, h, workers, k - 1);
        let bh = band_height(h, workers, k - 1);
        crate::render::lemma_rendered_band_len(band_region(r, w, h, workers, k - 1), w, bh);
        assert(rendered_band(band_region(r, w, h, workers, k - 1), w, bh).len() == w * bh);
        lemma_mul_is_distributive_add(w, covered_rows(h, workers, k - 1), bh);
        assert(covered_rows(h, workers, k - 1) == band_top(h, workers, k - 1));
        if k < count {
            assert(covered_rows(h, workers, k) == band_top(h, workers, k - 1) + bh);
        } else {
            assert(band_top(h, workers, k - 1) + bh == h);
            lemma_mul_is_distributive_add_other_way(rp, k - 1, 1);
            lemma_mul_basics(rp);
            assert(band_top(h, workers, k) == band_top(h, workers, k - 1) + rp);
            assert(bh <= rp);
            assert(covered_rows(h, workers, k) == h);
        }
    }
}

/// Two buffers that both meet the frame contract for the same viewport,
/// bounds and worker count are byte-identical: a frame render is
/// deterministic.
pub proof fn lemma_frame_deterministic(
    a: Seq<u8>,
    b: Seq<u8>,
    r: Region,
    w: int,
    h: int,
    workers: int,
)
    requires
        a.len() == w * h,
        b.len() == w * h,
        forall|i: int| 0 <= i < a.len() ==> a[i] as int == frame_spec(r, w, h, workers)[i],
        forall|i: int| 0 <= i < b.len() ==> b[i] as int == frame_spec(r, w, h, workers)[i],
    ensures
        a == b,
{
    assert(a =~= b);
}

/// Append every byte of `src` to `dst`.
fn push_all(dst: &mut Vec<u8>, src: &Vec<u8>)
    ensures
        final(dst)@ == old(dst)@ + src@,
{
    let mut k: usize = 0;
    while k < src.len()
        invariant
            k <= src@.len(),
            dst@ == old(dst)@ + src@.take(k as int),
        decreases src@.len() - k,
    {
        let px = src[k];
        proof {
            lemma_take_snoc(old(dst)@, src@, k as int);
        }
        dst.push(px);
        k = k + 1;
    }
    proof {
        assert(src@.take(src@.len() as int) =~= src@);
    }
}

/// Taking one more element of `src` appends exactly `src[k]`.
proof fn lemma_take_snoc(base: Seq<u8>, src: Seq<u8>, k: int)
    requires
        0 <= k < src.len(),
    ensures
        (base + src.take(k)).push(src[k]) == base + src.take(k + 1),
{
    assert((base + src.take(k)).push(src[k]) =~= base + src.take(k + 1));
}

/// One more band extends the frame prefix by exactly that band's pixels.
proof fn lemma_frame_prefix_snoc(
    r: Region,
    w: int,
    h: int,
    workers: int,
    k: int,
    prefix: Seq<u8>,
    band: Seq<u8>,
)
    requires
        0 <= k,
        prefix.len() == frame_prefix(r, w, h, workers, k).len(),
        forall|j: int|
            0 <= j < prefix.len() ==> prefix[j] as int == frame_prefix(r, w, h, workers, k)[j],
        band.len() == rendered_band(
            band_region(r, w, h, workers, k),
            w,
            band_height(h, workers, k),
        ).len(),
        forall|j: int|
            0 <= j < band.len() ==> band[j] as int == rendered_band(
                band_region(r, w, h, workers, k),
                w,
                band_height(h, workers, k),
            )[j],
    ensures
        (prefix + band).len() == frame_prefix(r, w, h, workers, k + 1).len(),
        forall|j: int|
            0 <= j < (prefix + band).len() ==> (prefix + band)[j] as int == frame_prefix(
                r,
                w,
                h,
                workers,
                k + 1,
            )[j],
{
    let rb = rendered_band(band_region(r, w, h, workers, k), w, band_height(h, workers, k));
    assert(frame_prefix(r, w, h, workers, k + 1) == frame_prefix(r, w, h, workers, k) + rb);
    assert forall|j: int| 0 <= j < (prefix + band).len() implies (prefix + band)[j] as int
        == frame_prefix(r, w, h, workers, k + 1)[j] by {
        if j < prefix.len() {
            assert((prefix + band)[j] == prefix[j]);
            assert(frame_prefix(r, w, h, workers, k + 1)[j] == frame_prefix(r, w, h, workers, k)[j]);
        } else {
            assert((prefix + band)[j] == band[j - prefix.len()]);
            assert(frame_prefix(r, w, h, workers, k + 1)[j] == rb[j - prefix.len()]);
        }
    }
}

/// Render a whole frame: validate the viewport, partition the image into
/// one band per worker, render each band against its own sub-viewport,
/// and concatenate the bands in order.  A frame is never partial: the
/// buffer comes back complete, or an error names what failed.
#[verifier::loop_isolation(false)]
pub fn render_frame(viewport: &Viewport, bounds: (usize, usize), workers: usize) -> (result:
    Result<Vec<u8>, RenderError>)
    requires
        1 <= bounds.0,
        1 <= bounds.1,
        bounds.1 < usize::MAX,
        1 <= workers,
        bounds.0 * bounds.1 <= usize::MAX,
    ensures
        !viewport.wf() ==> result == Err::<Vec<u8>, RenderError>(RenderError::InvalidViewport),
        viewport.wf() && has_degenerate_band(
            viewport@,
            bounds.0 as int,
            bounds.1 as int,
            workers as int,
        ) ==> result == Err::<Vec<u8>, RenderError>(RenderError::DegenerateBand),
        viewport.wf() && !has_degenerate_band(
            viewport@,
            bounds.0 as int,
            bounds.1 as int,
            workers as int,
        ) ==> (result matches Ok(buf) && buf@.len() == bounds.0 * bounds.1 && forall|i: int|
            0 <= i < buf@.len() ==> buf@[i] as int == frame_spec(
                viewport@,
                bounds.0 as int,
                bounds.1 as int,
                workers as int,
            )[i]),
{
    let ghost rr = viewport@;
    let ghost w = bounds.0 as int;
    let ghost h = bounds.1 as int;
    let ghost n = workers as int;
    if !viewport.is_valid() {
        return Err(RenderError::InvalidViewport);
    }
    proof {
        lemma_bands_partition(h, n);
    }
    let bands = make_bands(bounds.1, workers);
    let mut buf: Vec<u8> = Vec::new();
    let mut bi: usize = 0;
    while bi < bands.len()
        invariant
            bi <= bands@.len(),
            buf@.len() == frame_prefix(rr, w, h, n, bi as int).len(),
            forall|j: int|
                0 <= j < buf@.len() ==> buf@[j] as int == frame_prefix(rr, w, h, n, bi as int)[j],
            forall|i: int| 0 <= i < bi ==> (#[trigger] band_region(rr, w, h, n, i)).wf(),
        decreases bands@.len() - bi,
    {
        let band = bands[bi];
        let bvp = band_viewport(viewport, bounds, &band);
        if !bvp.is_valid() {
            proof {
                assert(!band_region(rr, w, h, n, bi as int).wf());
            }
            return Err(RenderError::DegenerateBand);
        }
        proof {
            assert(w * (band.height as int) <= w * h) by (nonlinear_arith)
                requires
                    0 <= w,
                    0 <= band.height as int <= h,
            ;
        }
        let band_pixels = render((bounds.0, band.height), &bvp);
        let ghost pre = buf@;
        push_all(&mut buf, &band_pixels);
        proof {
            lemma_bands_partition(h, n);
            assert(bvp@ == band_region(rr, w, h, n, bi as int));
            crate::render::lemma_rendered_band_len(
                band_region(rr, w, h, n, bi as int),
                w,
                band_height(h, n, bi as int),
            );
            lemma_frame_prefix_snoc(rr, w, h, n, bi as int, pre, band_pixels@);
        }
        bi = bi + 1;
    }
    proof {
        lemma_frame_prefix_len(rr, w, h, n, bands_count(h, n));
    }
    Ok(buf)
}

/// Spread a grayscale intensity buffer into packed RGB bytes: each pixel's
/// three channels all carry its intensity.
#[verifier::loop_isolation(false)]
pub fn intensity_to_rgb(pixels: &Vec<u8>) -> (rgb: Vec<u8>)
    requires
        pixels@.len() * 3 <= usize::MAX,
    ensures
        rgb@.len() == 3 * pixels@.len(),
        forall|i: int|
            #![trigger pixels@[i]]
            0 <= i < pixels@.len() ==> {
                &&& rgb@[3 * i] == pixels@[i]
                &&& rgb@[3 * i + 1] == pixels@[i]
                &&& rgb@[3 * i + 2] == pixels@[i]
            },
{
    let mut rgb: Vec<u8> = Vec::new();
    let mut i: usize = 0;
    while i < pixels.len()
        invariant
            i <= pixels@.len(),
            rgb@.len() == 3 * i,
            forall|j: int|
                #![trigger pixels@[j]]
                0 <= j < i ==> {
                    &&& rgb@[3 * j] == pixels@[j]
                    &&& rgb@[3 * j + 1] == pixels@[j]
                    &&& rgb@[3 * j + 2] == pixels@[j]
                },
        decreases pixels@.len() - i,
    {
        let v = pixels[i];
        rgb.push(v);
        rgb.push(v);
        rgb.push(v);
        i = i + 1;
    }
    rgb
}

} // verus!
