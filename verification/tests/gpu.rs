use cocuyo::sampling::gpu::{
    aligned_stride, apply_average_readback, apply_palette_readback, build_valid_slots, classify_regions,
    decode_average, no_colors, pair_region_colors, region_colors, workgroup_counts, GpuParams, GpuResult, GpuSamplerError,
    HistogramBin, ResultLayout, PALETTE_BINS,
};
use cocuyo::sampling::{Average, BoxedStrategy, Max, Min, Palette};

#[test]
fn aligned_stride_rounds_up() {
    assert_eq!(aligned_stride(16, 256), 256);
    assert_eq!(aligned_stride(256, 256), 256);
    assert_eq!(aligned_stride(257, 256), 512);
    assert_eq!(aligned_stride(0, 4), 0);
    assert_eq!(aligned_stride(8192, 256), 8192);
}

#[test]
fn classify_splits_gpu_and_cpu_regions() {
    let strategies = [
        BoxedStrategy::new(Average),
        BoxedStrategy::new(Max),
        BoxedStrategy::new(Palette),
        BoxedStrategy::new(Average),
        BoxedStrategy::new(Min),
    ];
    let c = classify_regions(&strategies);
    assert_eq!(c.avg_slots, vec![(0, 0, 0), (2, 1, 3)]);
    assert_eq!(c.palette_slots, vec![(1, 0, 2)]);
    assert_eq!(c.cpu_indices, vec![1, 4]);
    assert_eq!(c.gpu_count, 3);
}

#[test]
fn valid_slots_keep_regions_with_bounds() {
    let p = GpuParams { x0: 0, y0: 0, x1: 10, y1: 10 };
    let bounds = [Some(p), None, Some(p)];
    let valid = build_valid_slots(&[(0, 0, 0), (1, 1, 1), (2, 2, 2)], &bounds);
    assert_eq!(valid, vec![(0, 0, 0, p), (2, 2, 2, p)]);
}

#[test]
fn workgroups_cover_the_region() {
    assert_eq!(workgroup_counts(GpuParams { x0: 0, y0: 0, x1: 16, y1: 17 }), (1, 2));
    assert_eq!(workgroup_counts(GpuParams { x0: 5, y0: 5, x1: 5, y1: 6 }), (0, 1));
}

#[test]
fn readbacks_fill_results() {
    assert_eq!(decode_average(GpuResult { r_sum: 30, g_sum: 60, b_sum: 90, count: 3 }), Some((10, 20, 30)));
    assert_eq!(decode_average(GpuResult::default()), None);
    let mut results = vec![None; 3];
    let p = GpuParams::default();
    let valid = [(0, 0, 2, p), (1, 1, 0, p)];
    let readback = [GpuResult { r_sum: 10, g_sum: 20, b_sum: 30, count: 10 }, GpuResult::default()];
    apply_average_readback(&mut results, &valid, &readback);
    assert_eq!(results, vec![None, None, Some((1, 2, 3))]);
    let mut bins = vec![HistogramBin::default(); PALETTE_BINS * 2];
    bins[PALETTE_BINS + 5] = HistogramBin { r_sum: 40, g_sum: 80, b_sum: 120, count: 4 };
    apply_palette_readback(&mut results, &[(3, 1, 1, p), (2, 0, 0, p)], &bins);
    assert_eq!(results, vec![None, Some((10, 20, 30)), Some((1, 2, 3))]);
    assert_eq!(
        pair_region_colors(&[7, 8, 9], &results),
        vec![(7, None), (8, Some((10, 20, 30))), (9, Some((1, 2, 3)))]
    );
    assert_eq!(no_colors(&[4, 5]), vec![(4, None), (5, None)]);
}

#[test]
fn result_layout_grows_only_when_needed() {
    let mut layout = ResultLayout::new(2048, 256);
    assert_eq!(layout.stride, 2048);
    assert_eq!(layout.capacity, 1);
    assert!(!layout.ensure_capacity(0));
    assert!(!layout.ensure_capacity(1));
    assert!(layout.ensure_capacity(4));
    assert_eq!(layout.capacity, 4);
    assert!(!layout.ensure_capacity(3));
    assert_eq!(layout.total_bytes(3), 6144);
}

#[test]
fn sampler_error_messages() {
    assert_eq!(GpuSamplerError::ImportFailed("x".to_string()).message(), "frame import failed: x");
    assert_eq!(GpuSamplerError::MapFailed.message(), "buffer mapping failed");
}

#[test]
fn region_colors_combines_gpu_and_cpu_results_in_region_order() {
    let strategies = [
        BoxedStrategy::new(Average),
        BoxedStrategy::new(Max),
        BoxedStrategy::new(Palette),
        BoxedStrategy::new(Average),
        BoxedStrategy::new(Average),
    ];
    let full = Some(GpuParams { x0: 0, y0: 0, x1: 2, y1: 2 });
    let bounds = [full, full, full, None, full];
    // Averaging slots: region 0 -> slot 0, region 3 -> slot 1, region 4 -> slot 2.
    let readback = [
        GpuResult { r_sum: 40, g_sum: 80, b_sum: 120, count: 4 },
        GpuResult { r_sum: 1, g_sum: 1, b_sum: 1, count: 1 },
        GpuResult { r_sum: 0, g_sum: 0, b_sum: 0, count: 0 },
    ];
    let mut bins = vec![HistogramBin::default(); PALETTE_BINS];
    bins[7] = HistogramBin { r_sum: 30, g_sum: 60, b_sum: 90, count: 3 };
    // 2x2 BGRA frame: red, green, blue, white.
    let cpu = [0, 0, 255, 255, 0, 255, 0, 255, 255, 0, 0, 255, 255, 255, 255, 255];
    let out = region_colors(&[10, 11, 12, 13, 14], &strategies, &bounds, &readback, &bins, Some(&cpu), 2, 2);
    assert_eq!(
        out,
        vec![
            (10, Some((10, 20, 30))),
            (11, Some((255, 255, 255))),
            (12, Some((10, 20, 30))),
            (13, None),
            (14, None),
        ]
    );
    let no_cpu = region_colors(&[10, 11, 12, 13, 14], &strategies, &bounds, &readback, &bins, None, 2, 2);
    assert_eq!(no_cpu[1], (11, None));
}
