use cocuyo::sampling::gpu::HistogramBin;
use cocuyo::sampling::{
    all_strategies, bin_index, extract_dominant_from_histogram, luminance_u32, sample_extremum, sample_region_px,
    sample_stride, sampled_pixels, Average, BoxedStrategy, Max, Min, Palette, SamplingStrategy, NUM_BINS,
};

/// 2x2 BGRA buffer: (0,0) red, (1,0) green, (0,1) blue, (1,1) white.
fn make_2x2() -> Vec<u8> {
    vec![
        0, 0, 255, 255, // red
        0, 255, 0, 255, // green
        255, 0, 0, 255, // blue
        255, 255, 255, 255, // white
    ]
}

fn average() -> BoxedStrategy {
    BoxedStrategy::new(Average)
}

fn max() -> BoxedStrategy {
    BoxedStrategy::new(Max)
}

fn min() -> BoxedStrategy {
    BoxedStrategy::new(Min)
}

fn palette() -> BoxedStrategy {
    BoxedStrategy::new(Palette)
}

/// A region given as `x, y, w, h` in whole pixels, as the float region
/// `(x, y, w, h)` truncates to.
fn region(data: &[u8], fw: u32, fh: u32, x: u32, y: u32, w: u32, h: u32, s: &BoxedStrategy) -> Option<(u8, u8, u8)> {
    sample_region_px(data, fw, fh, x, y, x + w, y + h, s)
}

#[test]
fn average_2x2_full() {
    let data = make_2x2();
    assert_eq!(region(&data, 2, 2, 0, 0, 2, 2, &average()), Some((127, 127, 127)));
}

#[test]
fn max_2x2_full() {
    let data = make_2x2();
    assert_eq!(region(&data, 2, 2, 0, 0, 2, 2, &max()), Some((255, 255, 255)));
}

#[test]
fn min_2x2_full() {
    let data = make_2x2();
    assert_eq!(region(&data, 2, 2, 0, 0, 2, 2, &min()), Some((0, 0, 255)));
}

#[test]
fn zero_sized_region_returns_none() {
    let data = make_2x2();
    assert_eq!(region(&data, 2, 2, 0, 0, 0, 0, &average()), None);
    assert_eq!(region(&data, 2, 2, 0, 0, 0, 1, &average()), None);
    assert_eq!(region(&data, 2, 2, 0, 0, 1, 0, &average()), None);
}

#[test]
fn out_of_bounds_region_returns_none() {
    let data = make_2x2();
    assert_eq!(region(&data, 2, 2, 5, 5, 1, 1, &average()), None);
}

#[test]
fn partially_out_of_bounds_region_clamps() {
    let data = make_2x2();
    assert_eq!(region(&data, 2, 2, 1, 0, 10, 10, &average()), Some((127, 255, 127)));
}

#[test]
fn single_pixel_last() {
    let data = make_2x2();
    assert_eq!(region(&data, 2, 2, 1, 1, 1, 1, &average()), Some((255, 255, 255)));
}

#[test]
fn single_pixel_first() {
    let data = make_2x2();
    assert_eq!(region(&data, 2, 2, 0, 0, 1, 1, &average()), Some((255, 0, 0)));
}

#[test]
fn palette_dominant_color() {
    let red = [0u8, 0, 255, 255];
    let blue = [255u8, 0, 0, 255];
    let mut data = Vec::new();
    for _ in 0..4 {
        data.extend_from_slice(&red);
        data.extend_from_slice(&red);
        data.extend_from_slice(&red);
        data.extend_from_slice(&blue);
    }
    assert_eq!(region(&data, 4, 4, 0, 0, 4, 4, &palette()), Some((255, 0, 0)));
}

#[test]
fn palette_single_color() {
    let data = make_2x2();
    assert_eq!(region(&data, 2, 2, 0, 0, 1, 1, &palette()), Some((255, 0, 0)));
}

#[test]
fn extract_dominant_picks_highest_count() {
    let mut bins = vec![HistogramBin { r_sum: 0, g_sum: 0, b_sum: 0, count: 0 }; NUM_BINS];
    bins[0] = HistogramBin { r_sum: 2000, g_sum: 100, b_sum: 50, count: 10 };
    bins[7] = HistogramBin { r_sum: 30, g_sum: 60, b_sum: 750, count: 3 };
    let (r, g, b) = extract_dominant_from_histogram(&bins).unwrap();
    assert_eq!(r, 200);
    assert_eq!(g, 10);
    assert_eq!(b, 5);
}

#[test]
fn extract_dominant_all_zero_returns_none() {
    let bins = vec![HistogramBin { r_sum: 0, g_sum: 0, b_sum: 0, count: 0 }; NUM_BINS];
    assert!(extract_dominant_from_histogram(&bins).is_none());
}

// -- further cases --

#[test]
fn extract_dominant_prefers_last_bin_on_ties() {
    let mut bins = vec![HistogramBin::default(); NUM_BINS];
    bins[3] = HistogramBin { r_sum: 40, g_sum: 0, b_sum: 0, count: 4 };
    bins[9] = HistogramBin { r_sum: 0, g_sum: 0, b_sum: 80, count: 4 };
    assert_eq!(extract_dominant_from_histogram(&bins), Some((0, 0, 20)));
    assert_eq!(extract_dominant_from_histogram(&[]), None);
}

#[test]
fn luminance_weights() {
    assert_eq!(luminance_u32(255, 255, 255), 255_000);
    assert_eq!(luminance_u32(0, 0, 255), 29_070);
    assert_eq!(luminance_u32(1, 2, 3), 299 + 1174 + 342);
}

#[test]
fn bin_index_uses_top_three_bits() {
    assert_eq!(bin_index(0, 0, 0), 0);
    assert_eq!(bin_index(255, 255, 255), 511);
    assert_eq!(bin_index(255, 0, 0), 7 << 6);
    assert_eq!(bin_index(0, 32, 224), (1 << 3) | 7);
}

#[test]
fn stride_samples_about_a_thousand_pixels() {
    assert_eq!(sample_stride(0, 0), 1);
    assert_eq!(sample_stride(1, 1), 1);
    assert_eq!(sample_stride(1000, 1), 1);
    assert_eq!(sample_stride(1001, 1), 2);
    assert_eq!(sample_stride(40, 25), 1);
    assert_eq!(sample_stride(41, 25), 2);
    assert_eq!(sample_stride(64, 64), 3);
    assert_eq!(sample_stride(100, 100), 4);
    // A full-HD region keeps the area rule: ceil(sqrt(1920 * 1080 / 1000)) = 46.
    assert_eq!(sample_stride(1920, 1080), 46);
    assert_eq!(sample_stride(19, 10000), 14);
}

#[test]
fn stride_caps_a_thin_region() {
    // A 1 x 10000 strip is sampled every 10th row: 1000 pixels, not 2500.
    assert_eq!(sample_stride(1, 10000), 10);
    assert_eq!(sample_stride(10000, 1), 10);
    let data = vec![0u8; 4 * 10000];
    let pixels = sampled_pixels(&data, 1, 0, 0, 1, 10000, sample_stride(1, 10000));
    assert_eq!(pixels.len(), 1000);
}

#[test]
fn sampled_pixels_skip_bytes_past_the_buffer() {
    let data = make_2x2();
    let px = sampled_pixels(&data[..12], 2, 0, 0, 2, 2, 1);
    assert_eq!(px, vec![(255, 0, 0), (0, 255, 0), (0, 0, 255)]);
    let strided = sampled_pixels(&data, 2, 0, 0, 2, 2, 2);
    assert_eq!(strided, vec![(255, 0, 0)]);
}

#[test]
fn extremum_picks_first_on_ties() {
    let data = vec![0u8, 0, 10, 0, 0, 0, 10, 0];
    assert_eq!(sample_extremum::<true>(&data, 2, 0, 0, 2, 1, 1), Some((10, 0, 0)));
    assert_eq!(sample_extremum::<false>(&data, 2, 0, 0, 2, 1, 1), Some((10, 0, 0)));
}

#[test]
fn strategies_by_id() {
    let all = all_strategies();
    let ids: Vec<&str> = all.iter().map(|s| s.id()).collect();
    assert_eq!(ids, vec!["average", "max", "min", "palette"]);
    assert_eq!(BoxedStrategy::from_id("palette"), Some(palette()));
    assert_eq!(BoxedStrategy::from_id("min").map(|s| s.name()), Some("Min (darkest)"));
    assert_eq!(BoxedStrategy::from_id("median"), None);
    assert_eq!(BoxedStrategy::default(), average());
    assert!(palette().supports_gpu() && average().supports_gpu());
    assert!(!max().supports_gpu() && !min().supports_gpu());
    assert_eq!(Max.name(), "Max (brightest)");
}

#[test]
fn uniform_region_samples_to_its_color_with_every_strategy() {
    let pixel = [30u8, 140, 220, 255];
    let mut data = Vec::new();
    for _ in 0..(40 * 30) {
        data.extend_from_slice(&pixel);
    }
    for s in all_strategies() {
        assert_eq!(region(&data, 40, 30, 3, 2, 30, 25, &s), Some((220, 140, 30)), "{}", s.id());
    }
}

#[test]
fn stride_keeps_the_area_rule_when_the_region_spans_a_stride() {
    for w in (1u32..=4000).step_by(37) {
        for h in (1u32..=3000).step_by(53) {
            let area = ((w as u64 * h as u64) as f64 / 1000.0).sqrt().ceil() as u32;
            let area = area.max(1);
            if w >= area && h >= area {
                assert_eq!(sample_stride(w, h), area, "region {}x{}", w, h);
            }
        }
    }
}
