//! Rendering one band: every pixel's escape time becomes a raw intensity,
//! then the band is rescaled so its own brightest pixel reaches 255.

use vstd::prelude::*;
use vstd::arithmetic::div_mod::{
    lemma_div_is_ordered, lemma_div_pos_is_pos, lemma_fundamental_div_mod,
    lemma_fundamental_div_mod_converse, lemma_mod_division_less_than_divisor,
};
use vstd::arithmetic::mul::{lemma_mul_basics, lemma_mul_is_distributive_sub};
use crate::escape::{complex_square_add_loop, escape_spec, lemma_escape_below_limit, EscapeResult};
use crate::mapper::{map_im, map_re, pixel_to_complex};
use crate::viewport::{Region, Viewport};

verus! {

/// Iteration limit of the evaluator for rendered pixels.
pub const ITER_LIMIT: usize = 255;

/// Raw intensity of one pixel: 0 for a bounded point, `255 - k` for a
/// point that escapes at iteration `k` (always in `[1, 255]`).
pub open spec fn raw_pixel(r: Region, w: int, h: int, col: int, row: int) -> int {
    match escape_spec(map_re(r, w, col), map_im(r, h, row), ITER_LIMIT as nat) {
        None => 0,
        Some(k) => 255 - k,
    }
}

/// The raw intensities of a `w` by `h` band, row-major.
pub open spec fn raw_grid(r: Region, w: int, h: int) -> Seq<int> {
    Seq::new((w * h) as nat, |idx: int| raw_pixel(r, w, h, idx % w, idx / w))
}

/// Largest value of the sequence, but at least 1.
pub open spec fn max_or_one(s: Seq<int>) -> int
    decreases s.len(),
{
    if s.len() == 0 {
        1
    } else {
        let m = max_or_one(s.drop_last());
        if s.last() > m {
            s.last()
        } else {
            m
        }
    }
}

/// Rescale `v` so that `m` maps to 255: `v * 255 / m` rounded half-up.
pub open spec fn normalize(v: int, m: int) -> int {
    (2 * v * 255 + m) / (2 * m)
}

/// The finished band: its raw intensities rescaled by the band's own
/// maximum (floored at 1).
#[verifier::opaque]
pub open spec fn rendered_band(r: Region, w: int, h: int) -> Seq<int> {
    raw_grid(r, w, h).map_values(|v: int| normalize(v, max_or_one(raw_grid(r, w, h))))
}

/// A band of `w` by `h` pixels renders to exactly `w * h` bytes.
pub proof fn lemma_rendered_band_len(r: Region, w: int, h: int)
    requires
        0 <= w,
        0 <= h,
    ensures
        rendered_band(r, w, h).len() == w * h,
{
    reveal(rendered_band);
    vstd::arithmetic::mul::lemma_mul_nonnegative(w, h);
}

/// `max_or_one` is at least 1 and no element exceeds it.
pub proof fn lemma_max_or_one_bounds(s: Seq<int>)
    ensures
        1 <= max_or_one(s),
        forall|i: int| 0 <= i < s.len() ==> s[i] <= max_or_one(s),
    decreases s.len(),
{
    if s.len() > 0 {
        lemma_max_or_one_bounds(s.drop_last());
        assert forall|i: int| 0 <= i < s.len() implies s[i] <= max_or_one(s) by {
            if i < s.len() - 1 {
                assert(s[i] == s.drop_last()[i]);
            }
        }
    }
}

/// `max_or_one` is its floor of 1 or an element of the sequence.
proof fn lemma_max_or_one_attained(s: Seq<int>)
    ensures
        max_or_one(s) == 1 || exists|i: int| 0 <= i < s.len() && s[i] == max_or_one(s),
    decreases s.len(),
{
    if s.len() > 0 {
        lemma_max_or_one_attained(s.drop_last());
        let m = max_or_one(s.drop_last());
        if s.last() > m {
            assert(s[s.len() - 1] == max_or_one(s));
        } else if m != 1 {
            let i = choose|i: int| 0 <= i < s.drop_last().len() && s.drop_last()[i] == m;
            assert(s[i] == m);
        }
    }
}

/// Rescaling keeps `[0, m]` within `[0, 255]`, sends `m` to 255 and 0 to 0.
pub proof fn lemma_normalize_bounds(v: int, m: int)
    requires
        1 <= m,
        0 <= v <= m,
    ensures
        0 <= normalize(v, m) <= 255,
        v == m ==> normalize(v, m) == 255,
        v == 0 ==> normalize(v, m) == 0,
{
    lemma_div_pos_is_pos(2 * v * 255 + m, 2 * m);
    lemma_fundamental_div_mod_converse(511 * m, 2 * m, 255, m);
    lemma_div_is_ordered(2 * v * 255 + m, 511 * m, 2 * m);
    if v == 0 {
        lemma_fundamental_div_mod_converse(m, 2 * m, 0, m);
    }
}

/// Raw intensities lie in `[0, 255]`, and a divergent pixel's in `[1, 255]`.
pub proof fn lemma_raw_pixel_bounds(r: Region, w: int, h: int, col: int, row: int)
    ensures
        0 <= raw_pixel(r, w, h, col, row) <= 255,
        escape_spec(map_re(r, w, col), map_im(r, h, row), ITER_LIMIT as nat) is Some
            ==> 1 <= raw_pixel(r, w, h, col, row),
{
    lemma_escape_below_limit(
        0,
        0,
        map_re(r, w, col),
        map_im(r, h, row),
        0,
        ITER_LIMIT as nat,
    );
}

/// Row-major position of a pixel within its band.
proof fn lemma_grid_index(w: int, h: int, col: int, row: int)
    requires
        1 <= w,
        1 <= h,
        0 <= col < w,
        0 <= row < h,
    ensures
        0 <= row * w + col < w * h,
        (row * w + col) % w == col,
        (row * w + col) / w == row,
{
    lemma_fundamental_div_mod_converse(row * w + col, w, row, col);
    vstd::arithmetic::mul::lemma_mul_inequality(row, h - 1, w);
    lemma_mul_is_distributive_sub(w, h, 1);
    lemma_mul_basics(w);
    assert(row * w <= (h - 1) * w);
    assert((h - 1) * w == w * (h - 1)) by (nonlinear_arith);
    assert(row * w + col < w * h);
    vstd::arithmetic::mul::lemma_mul_nonnegative(row, w);
}

/// Splitting a row-major index back into its column and row.
proof fn lemma_index_grid(w: int, h: int, idx: int)
    requires
        1 <= w,
        1 <= h,
        0 <= idx < w * h,
    ensures
        0 <= idx % w < w,
        0 <= idx / w < h,
{
    lemma_fundamental_div_mod(idx, w);
    lemma_mod_division_less_than_divisor(idx, w);
    lemma_div_pos_is_pos(idx, w);
    lemma_mul_is_distributive_sub(w, h, 1);
    lemma_fundamental_div_mod_converse(w * h - 1, w, h - 1, w - 1);
    lemma_div_is_ordered(idx, w * h - 1, w);
}

/// In a band with at least one divergent pixel, the brightest pixel
/// normalizes to exactly 255 and no pixel exceeds 255.
pub proof fn lemma_divergent_band_peaks(r: Region, w: int, h: int)
    requires
        1 <= w,
        1 <= h,
        exists|p: (int, int)|
            0 <= p.0 < w && 0 <= p.1 < h && escape_spec(
                map_re(r, w, p.0),
                map_im(r, h, p.1),
                ITER_LIMIT as nat,
            ) is Some,
    ensures
        exists|idx: int| 0 <= idx < w * h && #[trigger] rendered_band(r, w, h)[idx] == 255,
        forall|idx: int| 0 <= idx < w * h ==> 0 <= #[trigger] rendered_band(r, w, h)[idx] <= 255,
{
    let g = raw_grid(r, w, h);
    let p = choose|p: (int, int)|
        0 <= p.0 < w && 0 <= p.1 < h && escape_spec(
            map_re(r, w, p.0),
            map_im(r, h, p.1),
            ITER_LIMIT as nat,
        ) is Some;
    let (col, row) = p;
    lemma_grid_index(w, h, col, row);
    lemma_raw_pixel_bounds(r, w, h, col, row);
    let pidx = row * w + col;
    assert(g[pidx] == raw_pixel(r, w, h, col, row));
    assert(g[pidx] >= 1);
    lemma_max_or_one_bounds(g);
    lemma_max_or_one_attained(g);
    let m = max_or_one(g);
    assert(1 <= g[pidx] <= m);
    let midx: int = if m == 1 {
        pidx
    } else {
        choose|i: int| 0 <= i < g.len() && g[i] == m
    };
    reveal(rendered_band);
    assert(0 <= midx < w * h && g[midx] == m);
    lemma_normalize_bounds(m, m);
    assert(rendered_band(r, w, h)[midx] == normalize(m, m));
    assert forall|idx: int| 0 <= idx < w * h implies 0 <= #[trigger] rendered_band(r, w, h)[idx]
        <= 255 by {
        lemma_index_grid(w, h, idx);
        lemma_raw_pixel_bounds(r, w, h, idx % w, idx / w);
        lemma_normalize_bounds(g[idx], m);
    }
}

/// A band whose every pixel is bounded stays entirely dark.
pub proof fn lemma_bounded_band_dark(r: Region, w: int, h: int)
    requires
        1 <= w,
        1 <= h,
        forall|col: int, row: int|
            0 <= col < w && 0 <= row < h ==> #[trigger] escape_spec(
                map_re(r, w, col),
                map_im(r, h, row),
                ITER_LIMIT as nat,
            ) is None,
    ensures
        forall|idx: int| 0 <= idx < w * h ==> #[trigger] rendered_band(r, w, h)[idx] == 0,
{
    let g = raw_grid(r, w, h);
    assert forall|idx: int| 0 <= idx < g.len() implies g[idx] == 0 by {
        lemma_index_grid(w, h, idx);
    }
    lemma_max_of_zeros(g);
    lemma_normalize_bounds(0, 1);
    reveal(rendered_band);
    assert forall|idx: int| 0 <= idx < w * h implies #[trigger] rendered_band(r, w, h)[idx]
        == 0 by {
        assert(g[idx] == 0);
        assert(rendered_band(r, w, h)[idx] == normalize(0, 1));
    }
}

/// A sequence of zeros has 1 as its floored maximum.
proof fn lemma_max_of_zeros(s: Seq<int>)
    requires
        forall|i: int| 0 <= i < s.len() ==> s[i] == 0,
    ensures
        max_or_one(s) == 1,
    decreases s.len(),
{
    if s.len() > 0 {
        assert(forall|i: int| 0 <= i < s.drop_last().len() ==> s.drop_last()[i] == s[i]);
        lemma_max_of_zeros(s.drop_last());
    }
}

/// Render one band: map every pixel to its point, evaluate its escape
/// time, fill the raw intensities, then rescale the band by its own
/// maximum brightness (floored at 1).
#[verifier::loop_isolation(false)]
pub fn render(bounds: (usize, usize), viewport: &Viewport) -> (pixels: Vec<u8>)
    requires
        viewport.wf(),
        1 <= bounds.0,
        1 <= bounds.1,
        bounds.0 * bounds.1 <= usize::MAX,
    ensures
        pixels@.len() == bounds.0 * bounds.1,
        forall|idx: int|
            0 <= idx < pixels@.len() ==> pixels@[idx] as int == rendered_band(
                viewport@,
                bounds.0 as int,
                bounds.1 as int,
            )[idx],
{
    let w = bounds.0;
    let h = bounds.1;
    let ghost g = raw_grid(viewport@, w as int, h as int);
    let total = w * h;
    let mut raws: Vec<u8> = Vec::new();
    let mut max_b: u8 = 1;
    let mut idx: usize = 0;
    while idx < total
        invariant
            raws@.len() == idx,
            idx <= total,
            forall|j: int| 0 <= j < idx ==> raws@[j] as int == g[j],
            max_b as int == max_or_one(g.take(idx as int)),
        decreases total - idx,
    {
        let col = idx % w;
        let row = idx / w;
        proof {
            lemma_index_grid(w as int, h as int, idx as int);
        }
        let point = pixel_to_complex(bounds, (col, row), viewport);
        let e = complex_square_add_loop(point, ITER_LIMIT);
        let val: u8 = match e {
            EscapeResult::Bounded => 0,
            EscapeResult::Diverged(k) => (255 - k) as u8,
        };
        proof {
            assert(g[idx as int] == raw_pixel(
                viewport@,
                w as int,
                h as int,
                idx as int % (w as int),
                idx as int / (w as int),
            ));
            assert(val as int == g[idx as int]);
            assert(g.take(idx as int + 1).drop_last() =~= g.take(idx as int));
            assert(g.take(idx as int + 1).last() == g[idx as int]);
        }
        if val > max_b {
            max_b = val;
        }
        raws.push(val);
        idx = idx + 1;
    }
    proof {
        assert(g.take(total as int) =~= g);
        lemma_max_or_one_bounds(g);
        assert(max_b as int == max_or_one(g));
    }
    let mut out: Vec<u8> = Vec::new();
    let mut i: usize = 0;
    while i < total
        invariant
            max_b as int == max_or_one(g),
            out@.len() == i,
            i <= total,
            raws@.len() == total,
            forall|j: int| 0 <= j < total ==> raws@[j] as int == g[j],
            forall|j: int|
                0 <= j < i ==> out@[j] as int == normalize(g[j], max_or_one(g)),
        decreases total - i,
    {
        let v = raws[i];
        proof {
            lemma_max_or_one_bounds(g);
            assert(v as int == g[i as int] <= max_or_one(g));
        }
        let r = normalize_byte(v, max_b);
        out.push(r);
        i = i + 1;
    }
    proof {
        reveal(rendered_band);
        assert forall|j: int| 0 <= j < out@.len() implies out@[j] as int == rendered_band(
            viewport@,
            w as int,
            h as int,
        )[j] by {
            assert(out@[j] as int == normalize(g[j], max_or_one(g)));
        }
    }
    out
}

/// Rescale one raw intensity by the band maximum, rounding half-up.
fn normalize_byte(v: u8, m: u8) -> (r: u8)
    requires
        1 <= m,
        v <= m,
    ensures
        r as int == normalize(v as int, m as int),
{
    proof {
        lemma_normalize_bounds(v as int, m as int);
    }
    let num: u32 = 2 * (v as u32) * 255 + (m as u32);
    let den: u32 = 2 * (m as u32);
    (num / den) as u8
}

} // verus!
