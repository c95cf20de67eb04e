use mandelbrot::complex::Complex;
use mandelbrot::escape::{complex_square_add_loop, EscapeResult};

#[test]
fn origin_is_bounded_for_any_positive_limit() {
    let c = Complex { re: 0, im: 0 };
    assert_eq!(complex_square_add_loop(c, 1), EscapeResult::Bounded);
    assert_eq!(complex_square_add_loop(c, 10), EscapeResult::Bounded);
    assert_eq!(complex_square_add_loop(c, 255), EscapeResult::Bounded);
}

#[test]
fn far_point_escapes_at_iteration_one() {
    // c = 3 + 3i: |c|^2 = 18 > 4, so the first step (which lands on c)
    // is already out.
    let c = Complex { re: 3_000_000, im: 3_000_000 };
    assert_eq!(complex_square_add_loop(c, 255), EscapeResult::Diverged(1));
    assert_eq!(complex_square_add_loop(c, 2), EscapeResult::Diverged(1));
}

#[test]
fn point_two_escapes_at_iteration_two() {
    // c = 2: z runs 0, 2, 6; |2|^2 = 4 is not beyond the bailout, |6|^2 is.
    let c = Complex { re: 2_000_000, im: 0 };
    assert_eq!(complex_square_add_loop(c, 255), EscapeResult::Diverged(2));
}

#[test]
fn minus_one_cycles_and_stays_bounded() {
    // c = -1: z alternates 0, -1, 0, -1, ... exactly in ticks.
    let c = Complex { re: -1_000_000, im: 0 };
    assert_eq!(complex_square_add_loop(c, 255), EscapeResult::Bounded);
}

#[test]
fn limit_one_never_sees_the_first_step_escape() {
    // With limit 1 the only bailout test happens at z = 0, so even a far
    // point comes back bounded.
    let c = Complex { re: 3_000_000, im: 3_000_000 };
    assert_eq!(complex_square_add_loop(c, 1), EscapeResult::Bounded);
}

#[test]
fn pure_imaginary_far_point_escapes_at_one() {
    // c = 2.5i: |c|^2 = 6.25 > 4.
    let c = Complex { re: 0, im: 2_500_000 };
    assert_eq!(complex_square_add_loop(c, 255), EscapeResult::Diverged(1));
}
