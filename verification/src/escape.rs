//! The escape-time evaluator: iterate `z <- z^2 + c` from `z = 0` and
//! report the iteration at which `|z|^2` first exceeds the bailout
//! radius, or that the point stayed bounded within the limit.

use vstd::prelude::*;
use crate::complex::{
    bailout_sqr, norm_exceeds_bailout, norm_sqr, square_add, step_im, step_re, z_in_range, Complex,
};

verus! {

/// Outcome of the evaluation: the point never escaped within the limit,
/// or it escaped at the given 0-based iteration.
#[derive(Clone, Copy, Debug, PartialEq, Eq, Structural)]
pub enum EscapeResult {
    Bounded,
    Diverged(usize),
}

impl View for EscapeResult {
    type V = Option<nat>;

    open spec fn view(&self) -> Option<nat> {
        match *self {
            EscapeResult::Bounded => None,
            EscapeResult::Diverged(k) => Some(k as nat),
        }
    }
}

/// Continue the iteration from `z` with `i` iterations already done:
/// `Some(k)` if `|z|^2` exceeds the bailout at iteration `k < limit`,
/// `None` if it never does before the limit.
pub open spec fn escape_from(
    zre: int,
    zim: int,
    cre: int,
    cim: int,
    i: nat,
    limit: nat,
) -> Option<nat>
    decreases limit - i,
{
    if i >= limit {
        None
    } else if norm_sqr(zre, zim) > bailout_sqr() {
        Some(i)
    } else {
        escape_from(step_re(zre, zim, cre), step_im(zre, zim, cim), cre, cim, i + 1, limit)
    }
}

/// Escape time of the point `c`, starting the iteration at `z = 0`.
pub open spec fn escape_spec(cre: int, cim: int, limit: nat) -> Option<nat> {
    escape_from(0, 0, cre, cim, 0, limit)
}

/// An escape iteration always lies below the limit.
pub proof fn lemma_escape_below_limit(zre: int, zim: int, cre: int, cim: int, i: nat, limit: nat)
    requires
        i <= limit,
    ensures
        escape_from(zre, zim, cre, cim, i, limit) matches Some(k) ==> i <= k < limit,
    decreases limit - i,
{
    if i < limit && !(norm_sqr(zre, zim) > bailout_sqr()) {
        lemma_escape_below_limit(
            step_re(zre, zim, cre),
            step_im(zre, zim, cim),
            cre,
            cim,
            i + 1,
            limit,
        );
    }
}

/// Evaluate the escape time of `c` with the given iteration limit.
pub fn complex_square_add_loop(c: Complex, loop_limit: usize) -> (r: EscapeResult)
    requires
        c.in_range(),
    ensures
        r@ == escape_spec(c.re as int, c.im as int, loop_limit as nat),
        r matches EscapeResult::Diverged(k) ==> k < loop_limit,
{
    let mut z = Complex { re: 0, im: 0 };
    let mut i: usize = 0;
    while i < loop_limit
        invariant
            i <= loop_limit,
            c.in_range(),
            z_in_range(z.re as int, z.im as int),
            escape_from(
                z.re as int,
                z.im as int,
                c.re as int,
                c.im as int,
                i as nat,
                loop_limit as nat,
            ) == escape_spec(c.re as int, c.im as int, loop_limit as nat),
        decreases loop_limit - i,
    {
        if norm_exceeds_bailout(z) {
            proof {
                lemma_escape_below_limit(
                    z.re as int,
                    z.im as int,
                    c.re as int,
                    c.im as int,
                    i as nat,
                    loop_limit as nat,
                );
            }
            return EscapeResult::Diverged(i);
        }
        z = square_add(z, c);
        i = i + 1;
    }
    EscapeResult::Bounded
}

/// The origin never escapes: from `z = 0` with `c = 0` every step stays
/// at 0, whose squared magnitude never exceeds the bailout.
pub proof fn lemma_origin_bounded(limit: nat)
    ensures
        escape_spec(0, 0, limit) == None::<nat>,
{
    lemma_origin_bounded_from(0, limit);
}

proof fn lemma_origin_bounded_from(i: nat, limit: nat)
    ensures
        escape_from(0, 0, 0, 0, i, limit) == None::<nat>,
    decreases limit - i,
{
    vstd::arithmetic::div_mod::lemma_div_of0(crate::complex::SCALE as int);
    if i < limit {
        assert(step_re(0, 0, 0) == 0);
        assert(step_im(0, 0, 0) == 0);
        lemma_origin_bounded_from(i + 1, limit);
    }
}

/// A point already beyond the bailout radius escapes at iteration 1: the
/// first step carries `z = 0` exactly onto `c`, which then escapes.
pub proof fn lemma_far_point_escapes(cre: int, cim: int, limit: nat)
    requires
        norm_sqr(cre, cim) > bailout_sqr(),
        2 <= limit,
    ensures
        escape_spec(cre, cim, limit) == Some(1nat),
{
    vstd::arithmetic::div_mod::lemma_div_of0(crate::complex::SCALE as int);
    assert(norm_sqr(0, 0) == 0);
    assert(step_re(0, 0, cre) == cre);
    assert(step_im(0, 0, cim) == cim);
    assert(escape_from(cre, cim, cre, cim, 1, limit) == Some(1nat));
    assert(escape_spec(cre, cim, limit) == escape_from(cre, cim, cre, cim, 1, limit));
}

} // verus!
