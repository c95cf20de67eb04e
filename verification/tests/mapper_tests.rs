use mandelbrot::complex::Complex;
use mandelbrot::mapper::pixel_to_complex;
use mandelbrot::viewport::Viewport;

fn square_viewport() -> Viewport {
    // upper_left = -1.2 + 1.2i, lower_right = 1.2 - 1.2i, in ticks.
    Viewport {
        upper_left: Complex { re: -1_200_000, im: 1_200_000 },
        lower_right: Complex { re: 1_200_000, im: -1_200_000 },
    }
}

#[test]
fn corner_pixels_map_exactly() {
    let vp = square_viewport();
    let ul = pixel_to_complex((800, 800), (0, 0), &vp);
    assert_eq!(ul, vp.upper_left);
    let lr = pixel_to_complex((800, 800), (800, 800), &vp);
    assert_eq!(lr, vp.lower_right);
}

#[test]
fn mixed_corners_map_exactly() {
    let vp = square_viewport();
    let tr = pixel_to_complex((800, 800), (800, 0), &vp);
    assert_eq!(tr, Complex { re: 1_200_000, im: 1_200_000 });
    let bl = pixel_to_complex((800, 800), (0, 800), &vp);
    assert_eq!(bl, Complex { re: -1_200_000, im: -1_200_000 });
}

#[test]
fn center_pixel_maps_to_origin() {
    let vp = square_viewport();
    let c = pixel_to_complex((800, 800), (400, 400), &vp);
    assert_eq!(c, Complex { re: 0, im: 0 });
}

#[test]
fn interior_pixel_maps_by_ratio() {
    let vp = square_viewport();
    // x = 200 of 800: re = -1.2 + (200/800) * 2.4 = -0.6
    // y = 600 of 800: im = 1.2 - (600/800) * 2.4 = -0.6
    let c = pixel_to_complex((800, 800), (200, 600), &vp);
    assert_eq!(c, Complex { re: -600_000, im: -600_000 });
}

#[test]
fn rounding_goes_toward_upper_left() {
    // A 3-pixel-wide image of a 1-tick-wide viewport: interior columns
    // round down onto the left edge.
    let vp = Viewport {
        upper_left: Complex { re: 0, im: 1 },
        lower_right: Complex { re: 1, im: 0 },
    };
    let c = pixel_to_complex((3, 3), (1, 1), &vp);
    assert_eq!(c, Complex { re: 0, im: 1 });
    let end = pixel_to_complex((3, 3), (3, 3), &vp);
    assert_eq!(end, Complex { re: 1, im: 0 });
}
