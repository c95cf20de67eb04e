use mandelbrot::complex::Complex;
use mandelbrot::render::render;
use mandelbrot::viewport::Viewport;

#[test]
fn normalization_rescales_by_the_band_maximum() {
    // A 2-by-1 band whose pixels map to c = 2 (escapes at 2, raw 253) and
    // c = 2.5 (escapes at 1, raw 254).  The band maximum is 254, so the
    // brighter pixel becomes 255 and the other round(253 * 255 / 254) = 254.
    let vp = Viewport {
        upper_left: Complex { re: 2_000_000, im: 0 },
        lower_right: Complex { re: 3_000_000, im: -1_000_000 },
    };
    let pixels = render((2, 1), &vp);
    assert_eq!(pixels, vec![254, 255]);
}

#[test]
fn divergent_band_peaks_at_255() {
    // Every pixel of this band lies beyond the bailout radius, so after
    // normalization the brightest pixel is exactly 255.
    let vp = Viewport {
        upper_left: Complex { re: 2_000_000, im: 1_000_000 },
        lower_right: Complex { re: 4_000_000, im: -1_000_000 },
    };
    let pixels = render((4, 4), &vp);
    assert_eq!(pixels.iter().copied().max(), Some(255));
    assert_eq!(pixels.len(), 16);
}

#[test]
fn bounded_band_stays_dark() {
    // A small region around the origin lies entirely within the set, so
    // every raw intensity is 0 and normalization keeps the band dark.
    let vp = Viewport {
        upper_left: Complex { re: -100_000, im: 100_000 },
        lower_right: Complex { re: 100_000, im: -100_000 },
    };
    let pixels = render((8, 8), &vp);
    assert_eq!(pixels.len(), 64);
    assert!(pixels.iter().all(|&p| p == 0));
}
