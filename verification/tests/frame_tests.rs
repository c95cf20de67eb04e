use mandelbrot::bands::{band_viewport, make_bands};
use mandelbrot::complex::Complex;
use mandelbrot::escape::{complex_square_add_loop, EscapeResult};
use mandelbrot::frame::{intensity_to_rgb, render_frame, RenderError};
use mandelbrot::mapper::pixel_to_complex;
use mandelbrot::render::render;
use mandelbrot::viewport::Viewport;

fn square_viewport() -> Viewport {
    Viewport {
        upper_left: Complex { re: -1_200_000, im: 1_200_000 },
        lower_right: Complex { re: 1_200_000, im: -1_200_000 },
    }
}

#[test]
fn rerendering_identical_inputs_is_byte_identical() {
    let vp = square_viewport();
    let a = render_frame(&vp, (64, 64), 4).unwrap();
    let b = render_frame(&vp, (64, 64), 4).unwrap();
    assert_eq!(a, b);
}

#[test]
fn frame_is_the_concatenation_of_its_bands() {
    let vp = square_viewport();
    let bounds = (100, 40);
    let workers = 3;
    let frame = render_frame(&vp, bounds, workers).unwrap();
    let mut by_hand: Vec<u8> = Vec::new();
    for band in &make_bands(bounds.1, workers) {
        let sub = band_viewport(&vp, bounds, band);
        by_hand.extend_from_slice(&render((bounds.0, band.height), &sub));
    }
    assert_eq!(frame, by_hand);
}

#[test]
fn invalid_viewport_is_a_configuration_error() {
    // Swapped corners: negative width and height.
    let vp = Viewport {
        upper_left: Complex { re: 1_200_000, im: -1_200_000 },
        lower_right: Complex { re: -1_200_000, im: 1_200_000 },
    };
    assert_eq!(render_frame(&vp, (8, 8), 2), Err(RenderError::InvalidViewport));
}

#[test]
fn collapsing_band_is_a_worker_failure() {
    // A viewport only 1 tick tall split over 4 pixel rows: the first
    // band's sub-viewport has zero height.
    let vp = Viewport {
        upper_left: Complex { re: 0, im: 1 },
        lower_right: Complex { re: 4, im: 0 },
    };
    assert_eq!(render_frame(&vp, (2, 4), 2), Err(RenderError::DegenerateBand));
}

#[test]
fn end_to_end_scenario() {
    // 800 by 800 pixels, viewport -1.2+1.2i to 1.2-1.2i, 16 bands.
    let vp = square_viewport();
    let frame = render_frame(&vp, (800, 800), 16).unwrap();
    assert_eq!(frame.len(), 800 * 800);
    // The center pixel maps exactly onto the origin, which is bounded,
    // so after normalization it stays 0.
    let center = pixel_to_complex((800, 800), (400, 400), &vp);
    assert_eq!(center, Complex { re: 0, im: 0 });
    assert_eq!(frame[400 * 800 + 400], 0);
    // Synthetic evaluator-only check: c = 3 + 3i lies outside every pixel
    // of this viewport and escapes immediately (its first step lands on c).
    let far = Complex { re: 3_000_000, im: 3_000_000 };
    assert_eq!(complex_square_add_loop(far, 255), EscapeResult::Diverged(1));
}

#[test]
fn grayscale_spreads_into_three_channels() {
    let pixels = vec![0u8, 128, 255];
    let rgb = intensity_to_rgb(&pixels);
    assert_eq!(rgb, vec![0, 0, 0, 128, 128, 128, 255, 255, 255]);
}
