//! Fixed-point complex numbers and one step of the quadratic map.
//!
//! A coordinate of the complex plane is a signed count of ticks: the tick
//! count `x` stands for the real number `x / SCALE`.  Squared magnitudes
//! are therefore counted in `SCALE * SCALE` ticks per unit.

use vstd::prelude::*;
use vstd::arithmetic::div_mod::{
    lemma_div_is_ordered, lemma_div_nonincreasing, lemma_div_pos_is_pos,
    lemma_fundamental_div_mod_converse,
};

verus! {

/// Fixed-point ticks per unit of the complex plane.
pub const SCALE: i64 = 1_000_000;

/// Largest magnitude, in ticks, a viewport coordinate may have.
pub const COORD_BOUND: i64 = 1_000_000_000_000;

/// Largest magnitude, in ticks, a component of the iterated value can
/// reach: a step is taken only while `|z|^2 <= 4`, so each new component
/// is at most `4 * SCALE` plus the matching coordinate of `c`.
pub const ITER_BOUND: i64 = 4 * SCALE + COORD_BOUND;

/// The squared bailout radius `|z|^2 > 4` in squared ticks,
/// `4 * SCALE * SCALE`.
pub const BAILOUT_SQR_TICKS: i128 = 4_000_000_000_000;

/// A point of the complex plane, both coordinates in ticks.
#[derive(Clone, Copy, Debug, PartialEq, Eq, Structural)]
pub struct Complex {
    pub re: i64,
    pub im: i64,
}

impl Complex {
    /// Both coordinates lie within the representable viewport range.
    pub open spec fn in_range(self) -> bool {
        &&& -COORD_BOUND <= self.re <= COORD_BOUND
        &&& -COORD_BOUND <= self.im <= COORD_BOUND
    }
}

/// `|z|^2` in squared ticks.
pub open spec fn norm_sqr(re: int, im: int) -> int {
    re * re + im * im
}

/// The squared bailout radius, in squared ticks: `|z|^2 > 4`.
pub open spec fn bailout_sqr() -> int {
    4 * (SCALE as int) * (SCALE as int)
}

/// Quotient by `SCALE`, rounded toward zero — the rounding the
/// executable arithmetic performs.
pub open spec fn div_scale(x: int) -> int {
    if x >= 0 {
        x / (SCALE as int)
    } else {
        -((-x) / (SCALE as int))
    }
}

/// Real part of `z^2 + c` in ticks.
pub open spec fn step_re(zre: int, zim: int, cre: int) -> int {
    zre * zre / (SCALE as int) - zim * zim / (SCALE as int) + cre
}

/// Imaginary part of `z^2 + c` in ticks.
pub open spec fn step_im(zre: int, zim: int, cim: int) -> int {
    div_scale(2 * zre * zim) + cim
}

/// The component range the iterated value stays in.
pub open spec fn z_in_range(zre: int, zim: int) -> bool {
    &&& -ITER_BOUND <= zre <= ITER_BOUND
    &&& -ITER_BOUND <= zim <= ITER_BOUND
}

/// Numeric identities of the tick constants.
pub proof fn lemma_tick_constants()
    ensures
        bailout_sqr() == BAILOUT_SQR_TICKS as int,
        bailout_sqr() / (SCALE as int) == 4 * (SCALE as int),
{
    assert(4 * (SCALE as int) * (SCALE as int) == 4_000_000_000_000int) by (nonlinear_arith)
        requires
            SCALE == 1_000_000,
    ;
    lemma_fundamental_div_mod_converse(
        4_000_000_000_000int,
        SCALE as int,
        4 * (SCALE as int),
        0int,
    );
}

/// Truncating division of a nonnegative value by a positive one.
pub(crate) fn div_pos(a: i128, b: i128) -> (r: i128)
    requires
        0 <= a,
        1 <= b,
    ensures
        r == a as int / b as int,
{
    proof {
        lemma_div_pos_is_pos(a as int, b as int);
        lemma_div_nonincreasing(a as int, b as int);
    }
    ((a as u128) / (b as u128)) as i128
}

/// Whether `|z|^2` exceeds the bailout radius.
pub fn norm_exceeds_bailout(z: Complex) -> (r: bool)
    requires
        z_in_range(z.re as int, z.im as int),
    ensures
        r == (norm_sqr(z.re as int, z.im as int) > bailout_sqr()),
{
    let zre = z.re as i128;
    let zim = z.im as i128;
    proof {
        lemma_tick_constants();
        assert(0 <= zre * zre <= 1_100_000_000_000_000_000_000_000int
            && 0 <= zim * zim <= 1_100_000_000_000_000_000_000_000int) by (nonlinear_arith)
            requires
                -1_000_004_000_000 <= zre <= 1_000_004_000_000,
                -1_000_004_000_000 <= zim <= 1_000_004_000_000,
        ;
    }
    let n = zre * zre + zim * zim;
    n > BAILOUT_SQR_TICKS
}

/// One step of the iteration: `z^2 + c`, in ticks.
pub fn square_add(z: Complex, c: Complex) -> (r: Complex)
    requires
        z_in_range(z.re as int, z.im as int),
        norm_sqr(z.re as int, z.im as int) <= bailout_sqr(),
        c.in_range(),
    ensures
        r.re == step_re(z.re as int, z.im as int, c.re as int),
        r.im == step_im(z.re as int, z.im as int, c.im as int),
        z_in_range(r.re as int, r.im as int),
{
    let zre = z.re as i128;
    let zim = z.im as i128;
    let s = SCALE as i128;
    proof {
        lemma_tick_constants();
        assert(0 <= zre * zre && 0 <= zim * zim
            && zre * zre <= 4_000_000_000_000int
            && zim * zim <= 4_000_000_000_000int
            && -4_000_000_000_000int <= 2 * zre * zim <= 4_000_000_000_000int)
            by (nonlinear_arith)
            requires
                zre * zre + zim * zim <= 4_000_000_000_000int,
        ;
    }
    let re2 = zre * zre;
    let im2 = zim * zim;
    let cross = 2 * zre * zim;
    proof {
        lemma_div_pos_is_pos(re2 as int, s as int);
        lemma_div_pos_is_pos(im2 as int, s as int);
        lemma_div_is_ordered(re2 as int, bailout_sqr(), s as int);
        lemma_div_is_ordered(im2 as int, bailout_sqr(), s as int);
    }
    let q_re2 = div_pos(re2, s);
    let q_im2 = div_pos(im2, s);
    let q_cross = if cross >= 0 {
        proof {
            lemma_div_pos_is_pos(cross as int, s as int);
            lemma_div_is_ordered(cross as int, bailout_sqr(), s as int);
        }
        div_pos(cross, s)
    } else {
        proof {
            lemma_div_pos_is_pos(-(cross as int), s as int);
            lemma_div_is_ordered(-(cross as int), bailout_sqr(), s as int);
        }
        -div_pos(-cross, s)
    };
    let new_re = q_re2 - q_im2 + (c.re as i128);
    let new_im = q_cross + (c.im as i128);
    Complex { re: new_re as i64, im: new_im as i64 }
}

} // verus!
