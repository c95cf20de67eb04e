//! The rectangular region of the complex plane mapped onto the image,
//! and the pan and zoom commands the input layer issues between frames.

use vstd::prelude::*;
use vstd::arithmetic::div_mod::{
    lemma_div_pos_is_pos, lemma_fundamental_div_mod, lemma_mod_division_less_than_divisor,
};
use crate::complex::{div_pos, Complex, COORD_BOUND};

verus! {

/// A viewport: `upper_left` and `lower_right` corners with positive width
/// (`lr.re > ul.re`) and positive height (`ul.im > lr.im`).
#[derive(Clone, Copy, Debug, PartialEq, Eq, Structural)]
pub struct Viewport {
    pub upper_left: Complex,
    pub lower_right: Complex,
}

/// The mathematical image of a viewport: its four coordinates as
/// unbounded integers (still in ticks).
pub struct Region {
    pub ul_re: int,
    pub ul_im: int,
    pub lr_re: int,
    pub lr_im: int,
}

impl Region {
    /// Positive width and height, coordinates within the representable range.
    pub open spec fn wf(self) -> bool {
        &&& -COORD_BOUND <= self.ul_re <= COORD_BOUND
        &&& -COORD_BOUND <= self.ul_im <= COORD_BOUND
        &&& -COORD_BOUND <= self.lr_re <= COORD_BOUND
        &&& -COORD_BOUND <= self.lr_im <= COORD_BOUND
        &&& self.lr_re > self.ul_re
        &&& self.ul_im > self.lr_im
    }
}

impl View for Viewport {
    type V = Region;

    open spec fn view(&self) -> Region {
        Region {
            ul_re: self.upper_left.re as int,
            ul_im: self.upper_left.im as int,
            lr_re: self.lower_right.re as int,
            lr_im: self.lower_right.im as int,
        }
    }
}

/// One pan step along the real axis: a tenth of the viewport's width.
pub open spec fn pan_step_re(v: Viewport) -> int {
    (v.lower_right.re - v.upper_left.re) / 10
}

/// One pan step along the imaginary axis: a tenth of the viewport's height.
pub open spec fn pan_step_im(v: Viewport) -> int {
    (v.upper_left.im - v.lower_right.im) / 10
}

impl Viewport {
    /// Positive width and height, coordinates within the representable range.
    pub open spec fn wf(self) -> bool {
        self@.wf()
    }

    /// Runtime check of `wf`: a viewport that fails it is a configuration
    /// error and must not reach a render.
    pub fn is_valid(&self) -> (r: bool)
        ensures
            r == self.wf(),
    {
        self.upper_left.re >= -COORD_BOUND && self.upper_left.re <= COORD_BOUND
            && self.upper_left.im >= -COORD_BOUND && self.upper_left.im <= COORD_BOUND
            && self.lower_right.re >= -COORD_BOUND && self.lower_right.re <= COORD_BOUND
            && self.lower_right.im >= -COORD_BOUND && self.lower_right.im <= COORD_BOUND
            && self.lower_right.re > self.upper_left.re
            && self.upper_left.im > self.lower_right.im
    }

    /// Shift the viewport up (toward larger imaginary parts) by a tenth of
    /// its height; `None` if that would leave the representable range.
    pub fn pan_up(&self) -> (r: Option<Viewport>)
        requires
            self.wf(),
        ensures
            r is Some <==> self.upper_left.im + pan_step_im(*self) <= COORD_BOUND,
            r matches Some(v) ==> {
                &&& v.upper_left.re == self.upper_left.re
                &&& v.lower_right.re == self.lower_right.re
                &&& v.upper_left.im == self.upper_left.im + pan_step_im(*self)
                &&& v.lower_right.im == self.lower_right.im + pan_step_im(*self)
                &&& v.wf()
            },
    {
        let d = tenth_of_span(self.upper_left.im, self.lower_right.im);
        if self.upper_left.im <= COORD_BOUND - d {
            Some(Viewport {
                upper_left: Complex { re: self.upper_left.re, im: self.upper_left.im + d },
                lower_right: Complex { re: self.lower_right.re, im: self.lower_right.im + d },
            })
        } else {
            None
        }
    }

    /// Shift the viewport down by a tenth of its height; `None` if that
    /// would leave the representable range.
    pub fn pan_down(&self) -> (r: Option<Viewport>)
        requires
            self.wf(),
        ensures
            r is Some <==> self.lower_right.im - pan_step_im(*self) >= -COORD_BOUND,
            r matches Some(v) ==> {
                &&& v.upper_left.re == self.upper_left.re
                &&& v.lower_right.re == self.lower_right.re
                &&& v.upper_left.im == self.upper_left.im - pan_step_im(*self)
                &&& v.lower_right.im == self.lower_right.im - pan_step_im(*self)
                &&& v.wf()
            },
    {
        let d = tenth_of_span(self.upper_left.im, self.lower_right.im);
        if self.lower_right.im >= -COORD_BOUND + d {
            Some(Viewport {
                upper_left: Complex { re: self.upper_left.re, im: self.upper_left.im - d },
                lower_right: Complex { re: self.lower_right.re, im: self.lower_right.im - d },
            })
        } else {
            None
        }
    }

    /// Shift the viewport left by a tenth of its width; `None` if that
    /// would leave the representable range.
    pub fn pan_left(&self) -> (r: Option<Viewport>)
        requires
            self.wf(),
        ensures
            r is Some <==> self.upper_left.re - pan_step_re(*self) >= -COORD_BOUND,
            r matches Some(v) ==> {
                &&& v.upper_left.re == self.upper_left.re - pan_step_re(*self)
                &&& v.lower_right.re == self.lower_right.re - pan_step_re(*self)
                &&& v.upper_left.im == self.upper_left.im
                &&& v.lower_right.im == self.lower_right.im
                &&& v.wf()
            },
    {
        let d = tenth_of_span(self.lower_right.re, self.upper_left.re);
        if self.upper_left.re >= -COORD_BOUND + d {
            Some(Viewport {
                upper_left: Complex { re: self.upper_left.re - d, im: self.upper_left.im },
                lower_right: Complex { re: self.lower_right.re - d, im: self.lower_right.im },
            })
        } else {
            None
        }
    }

    /// Shift the viewport right by a tenth of its width; `None` if that
    /// would leave the representable range.
    pub fn pan_right(&self) -> (r: Option<Viewport>)
        requires
            self.wf(),
        ensures
            r is Some <==> self.lower_right.re + pan_step_re(*self) <= COORD_BOUND,
            r matches Some(v) ==> {
                &&& v.upper_left.re == self.upper_left.re + pan_step_re(*self)
                &&& v.lower_right.re == self.lower_right.re + pan_step_re(*self)
                &&& v.upper_left.im == self.upper_left.im
                &&& v.lower_right.im == self.lower_right.im
                &&& v.wf()
            },
    {
        let d = tenth_of_span(self.lower_right.re, self.upper_left.re);
        if self.lower_right.re <= COORD_BOUND - d {
            Some(Viewport {
                upper_left: Complex { re: self.upper_left.re + d, im: self.upper_left.im },
                lower_right: Complex { re: self.lower_right.re + d, im: self.lower_right.im },
            })
        } else {
            None
        }
    }

    /// Zoom in: both axes shrink symmetrically by a tenth of their span.
    /// The result is always a well-formed viewport.
    pub fn zoom_in(&self) -> (v: Viewport)
        requires
            self.wf(),
        ensures
            v.upper_left.re == self.upper_left.re + pan_step_re(*self),
            v.lower_right.re == self.lower_right.re - pan_step_re(*self),
            v.upper_left.im == self.upper_left.im - pan_step_im(*self),
            v.lower_right.im == self.lower_right.im + pan_step_im(*self),
            v.wf(),
    {
        let dre = tenth_of_span(self.lower_right.re, self.upper_left.re);
        let dim = tenth_of_span(self.upper_left.im, self.lower_right.im);
        proof {
            lemma_two_tenths_below_span(
                self.lower_right.re as int - self.upper_left.re as int,
            );
            lemma_two_tenths_below_span(
                self.upper_left.im as int - self.lower_right.im as int,
            );
        }
        Viewport {
            upper_left: Complex {
                re: self.upper_left.re + dre,
                im: self.upper_left.im - dim,
            },
            lower_right: Complex {
                re: self.lower_right.re - dre,
                im: self.lower_right.im + dim,
            },
        }
    }

    /// Zoom out: both axes grow symmetrically by a tenth of their span;
    /// `None` if a corner would leave the representable range.
    pub fn zoom_out(&self) -> (r: Option<Viewport>)
        requires
            self.wf(),
        ensures
            r is Some <==> {
                &&& self.upper_left.re - pan_step_re(*self) >= -COORD_BOUND
                &&& self.lower_right.re + pan_step_re(*self) <= COORD_BOUND
                &&& self.upper_left.im + pan_step_im(*self) <= COORD_BOUND
                &&& self.lower_right.im - pan_step_im(*self) >= -COORD_BOUND
            },
            r matches Some(v) ==> {
                &&& v.upper_left.re == self.upper_left.re - pan_step_re(*self)
                &&& v.lower_right.re == self.lower_right.re + pan_step_re(*self)
                &&& v.upper_left.im == self.upper_left.im + pan_step_im(*self)
                &&& v.lower_right.im == self.lower_right.im - pan_step_im(*self)
                &&& v.wf()
            },
    {
        let dre = tenth_of_span(self.lower_right.re, self.upper_left.re);
        let dim = tenth_of_span(self.upper_left.im, self.lower_right.im);
        if self.upper_left.re >= -COORD_BOUND + dre
            && self.lower_right.re <= COORD_BOUND - dre
            && self.upper_left.im <= COORD_BOUND - dim
            && self.lower_right.im >= -COORD_BOUND + dim
        {
            Some(Viewport {
                upper_left: Complex {
                    re: self.upper_left.re - dre,
                    im: self.upper_left.im + dim,
                },
                lower_right: Complex {
                    re: self.lower_right.re + dre,
                    im: self.lower_right.im - dim,
                },
            })
        } else {
            None
        }
    }
}

/// A tenth of the positive span `hi - lo`, rounded down.
fn tenth_of_span(hi: i64, lo: i64) -> (r: i64)
    requires
        -COORD_BOUND <= lo <= COORD_BOUND,
        -COORD_BOUND <= hi <= COORD_BOUND,
        lo < hi,
    ensures
        r == (hi - lo) / 10,
        0 <= r <= hi - lo,
{
    let span = (hi as i128) - (lo as i128);
    proof {
        lemma_div_pos_is_pos(span as int, 10);
        lemma_fundamental_div_mod(span as int, 10);
        lemma_mod_division_less_than_divisor(span as int, 10);
    }
    div_pos(span, 10) as i64
}

/// Two tenth-steps stay strictly below the whole span, so zooming in
/// keeps both spans positive.
proof fn lemma_two_tenths_below_span(span: int)
    requires
        1 <= span,
    ensures
        2 * (span / 10) < span,
{
    lemma_div_pos_is_pos(span, 10);
    lemma_fundamental_div_mod(span, 10);
    lemma_mod_division_less_than_divisor(span, 10);
}

} // verus!
