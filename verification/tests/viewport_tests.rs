use mandelbrot::complex::{Complex, COORD_BOUND};
use mandelbrot::viewport::Viewport;

fn square_viewport() -> Viewport {
    Viewport {
        upper_left: Complex { re: -1_200_000, im: 1_200_000 },
        lower_right: Complex { re: 1_200_000, im: -1_200_000 },
    }
}

#[test]
fn validity_checks_both_spans() {
    assert!(square_viewport().is_valid());
    let flat = Viewport {
        upper_left: Complex { re: 0, im: 0 },
        lower_right: Complex { re: 1_000_000, im: 0 },
    };
    assert!(!flat.is_valid());
    let mirrored = Viewport {
        upper_left: Complex { re: 1_000_000, im: 1_000_000 },
        lower_right: Complex { re: 0, im: -1_000_000 },
    };
    assert!(!mirrored.is_valid());
}

#[test]
fn pan_shifts_by_a_tenth_of_the_span() {
    let vp = square_viewport();
    // Both spans are 2.4, so one step is 0.24.
    let right = vp.pan_right().unwrap();
    assert_eq!(right.upper_left, Complex { re: -960_000, im: 1_200_000 });
    assert_eq!(right.lower_right, Complex { re: 1_440_000, im: -1_200_000 });
    let left = vp.pan_left().unwrap();
    assert_eq!(left.upper_left, Complex { re: -1_440_000, im: 1_200_000 });
    assert_eq!(left.lower_right, Complex { re: 960_000, im: -1_200_000 });
    let up = vp.pan_up().unwrap();
    assert_eq!(up.upper_left, Complex { re: -1_200_000, im: 1_440_000 });
    assert_eq!(up.lower_right, Complex { re: 1_200_000, im: -960_000 });
    let down = vp.pan_down().unwrap();
    assert_eq!(down.upper_left, Complex { re: -1_200_000, im: 960_000 });
    assert_eq!(down.lower_right, Complex { re: 1_200_000, im: -1_440_000 });
}

#[test]
fn pan_refuses_to_leave_the_representable_range() {
    let vp = Viewport {
        upper_left: Complex { re: COORD_BOUND - 10, im: 10 },
        lower_right: Complex { re: COORD_BOUND, im: 0 },
    };
    assert_eq!(vp.pan_right(), None);
    assert!(vp.pan_left().is_some());
}

#[test]
fn zoom_in_shrinks_both_axes_symmetrically() {
    let vp = square_viewport();
    let zoomed = vp.zoom_in();
    assert_eq!(zoomed.upper_left, Complex { re: -960_000, im: 960_000 });
    assert_eq!(zoomed.lower_right, Complex { re: 960_000, im: -960_000 });
}

#[test]
fn zoom_in_keeps_a_tiny_viewport_well_formed() {
    let vp = Viewport {
        upper_left: Complex { re: 0, im: 1 },
        lower_right: Complex { re: 1, im: 0 },
    };
    let zoomed = vp.zoom_in();
    assert_eq!(zoomed, vp);
    assert!(zoomed.is_valid());
}

#[test]
fn zoom_out_expands_both_axes_symmetrically() {
    let vp = square_viewport();
    let zoomed = vp.zoom_out().unwrap();
    assert_eq!(zoomed.upper_left, Complex { re: -1_440_000, im: 1_440_000 });
    assert_eq!(zoomed.lower_right, Complex { re: 1_440_000, im: -1_440_000 });
}

#[test]
fn zoom_out_refuses_to_leave_the_representable_range() {
    let vp = Viewport {
        upper_left: Complex { re: -COORD_BOUND, im: COORD_BOUND },
        lower_right: Complex { re: COORD_BOUND, im: -COORD_BOUND },
    };
    assert_eq!(vp.zoom_out(), None);
    assert!(vp.zoom_in().is_valid());
}
