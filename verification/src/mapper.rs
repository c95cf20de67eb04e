//! Mapping a pixel position to its point of the complex plane.

use vstd::prelude::*;
use vstd::arithmetic::div_mod::{
    lemma_div_is_ordered, lemma_div_multiples_vanish, lemma_div_of0, lemma_div_pos_is_pos,
};
use vstd::arithmetic::mul::lemma_mul_inequality;
use crate::complex::{div_pos, Complex};
use crate::viewport::{Region, Viewport};

verus! {

/// Real part of the point pixel column `x` of `w` maps to:
/// `ul_re + (x / w) * (lr_re - ul_re)`, the ratio applied in ticks and
/// rounded down.
pub open spec fn map_re(r: Region, w: int, x: int) -> int {
    r.ul_re + x * (r.lr_re - r.ul_re) / w
}

/// Imaginary part of the point pixel row `y` of `h` maps to:
/// `ul_im - (y / h) * (ul_im - lr_im)`, the ratio applied in ticks and
/// rounded down.
pub open spec fn map_im(r: Region, h: int, y: int) -> int {
    r.ul_im - y * (r.ul_im - r.lr_im) / h
}

/// Convert a pixel position to its point of the complex plane.  Column 0
/// and row 0 land exactly on `upper_left`; column `w` and row `h` land
/// exactly on `lower_right`.
pub fn pixel_to_complex(
    bounds: (usize, usize),
    pixel: (usize, usize),
    viewport: &Viewport,
) -> (r: Complex)
    requires
        viewport.wf(),
        1 <= bounds.0,
        1 <= bounds.1,
        pixel.0 <= bounds.0,
        pixel.1 <= bounds.1,
    ensures
        r.re == map_re(viewport@, bounds.0 as int, pixel.0 as int),
        r.im == map_im(viewport@, bounds.1 as int, pixel.1 as int),
        viewport.upper_left.re <= r.re <= viewport.lower_right.re,
        viewport.lower_right.im <= r.im <= viewport.upper_left.im,
        r.in_range(),
        pixel.0 == 0 ==> r.re == viewport.upper_left.re,
        pixel.0 == bounds.0 ==> r.re == viewport.lower_right.re,
        pixel.1 == 0 ==> r.im == viewport.upper_left.im,
        pixel.1 == bounds.1 ==> r.im == viewport.lower_right.im,
{
    let w_span = (viewport.lower_right.re as i128) - (viewport.upper_left.re as i128);
    let h_span = (viewport.upper_left.im as i128) - (viewport.lower_right.im as i128);
    let x = pixel.0 as i128;
    let y = pixel.1 as i128;
    let w = bounds.0 as i128;
    let h = bounds.1 as i128;
    proof {
        lemma_ratio_of_span(x as int, w as int, w_span as int);
        lemma_ratio_of_span(y as int, h as int, h_span as int);
    }
    let dre = div_pos(x * w_span, w);
    let dim = div_pos(y * h_span, h);
    let re = ((viewport.upper_left.re as i128) + dre) as i64;
    let im = ((viewport.upper_left.im as i128) - dim) as i64;
    Complex { re, im }
}

/// The rounded-down portion `x * span / w` of a positive span lies
/// between 0 and the span, is 0 at `x == 0`, and is the whole span at
/// `x == w`.
proof fn lemma_ratio_of_span(x: int, w: int, span: int)
    requires
        0 <= x <= w,
        1 <= w <= 20_000_000_000_000_000_000,
        1 <= span <= 2_000_000_000_000,
    ensures
        0 <= x * span <= 40_000_000_000_000_000_000_000_000_000_000,
        0 <= x * span / w <= span,
        x == 0 ==> x * span / w == 0,
        x == w ==> x * span / w == span,
{
    assert(0 <= x * span <= 40_000_000_000_000_000_000_000_000_000_000int) by (nonlinear_arith)
        requires
            0 <= x <= 20_000_000_000_000_000_000int,
            0 <= span <= 2_000_000_000_000int,
    ;
    lemma_div_pos_is_pos(x * span, w);
    lemma_mul_inequality(x, w, span);
    lemma_div_is_ordered(x * span, w * span, w);
    lemma_div_multiples_vanish(span, w);
    assert(w * span / w == span);
    if x == 0 {
        assert(x * span == 0);
        lemma_div_of0(w);
    }
}

} // verus!
