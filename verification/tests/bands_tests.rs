use mandelbrot::bands::{band_viewport, make_bands, Band};
use mandelbrot::complex::Complex;
use mandelbrot::viewport::Viewport;

fn assert_partition(height: usize, workers: usize) {
    let bands = make_bands(height, workers);
    let rows_per_band = height / workers + 1;
    assert!(!bands.is_empty());
    assert_eq!(bands[0].top, 0);
    let mut next = 0;
    for b in &bands {
        assert_eq!(b.top, next, "bands must be consecutive");
        assert!(b.height >= 1);
        assert!(b.height <= rows_per_band);
        next = b.top + b.height;
    }
    assert_eq!(next, height, "bands must cover every row");
}

#[test]
fn sixteen_bands_of_800_rows() {
    let bands = make_bands(800, 16);
    // 800 / 16 + 1 = 51 rows per band; 15 full bands and a short last one.
    assert_eq!(bands.len(), 16);
    for i in 0..15 {
        assert_eq!(bands[i], Band { top: 51 * i, height: 51 });
    }
    assert_eq!(bands[15], Band { top: 765, height: 35 });
}

#[test]
fn ten_rows_for_three_workers() {
    let bands = make_bands(10, 3);
    assert_eq!(
        bands,
        vec![
            Band { top: 0, height: 4 },
            Band { top: 4, height: 4 },
            Band { top: 8, height: 2 },
        ]
    );
}

#[test]
fn five_rows_for_five_workers() {
    let bands = make_bands(5, 5);
    assert_eq!(
        bands,
        vec![
            Band { top: 0, height: 2 },
            Band { top: 2, height: 2 },
            Band { top: 4, height: 1 },
        ]
    );
}

#[test]
fn single_row_single_worker() {
    let bands = make_bands(1, 1);
    assert_eq!(bands, vec![Band { top: 0, height: 1 }]);
}

#[test]
fn partitions_cover_exactly_without_overlap() {
    assert_partition(800, 16);
    assert_partition(97, 8);
    assert_partition(1, 7);
    assert_partition(64, 64);
    assert_partition(1000, 1);
}

#[test]
fn band_viewports_tile_the_full_viewport() {
    let vp = Viewport {
        upper_left: Complex { re: -1_200_000, im: 1_200_000 },
        lower_right: Complex { re: 1_200_000, im: -1_200_000 },
    };
    let bounds = (800, 800);
    let bands = make_bands(bounds.1, 16);
    let mut prev_bottom = vp.upper_left.im;
    for b in &bands {
        let sub = band_viewport(&vp, bounds, b);
        // The real span is the full viewport's; the imaginary ranges abut.
        assert_eq!(sub.upper_left.re, vp.upper_left.re);
        assert_eq!(sub.lower_right.re, vp.lower_right.re);
        assert_eq!(sub.upper_left.im, prev_bottom);
        prev_bottom = sub.lower_right.im;
    }
    assert_eq!(prev_bottom, vp.lower_right.im);
}
