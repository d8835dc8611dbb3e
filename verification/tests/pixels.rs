use cocuyo::pixels::{bgra_to_rgba, convert_mapped_rows, strip_stride_padding};

#[test]
fn strip_stride_padding_tight_rows_are_copied() {
    let src: Vec<u8> = (0..16).collect();
    assert_eq!(strip_stride_padding(&src, 2, 2, 8), src);
    // A short buffer yields what is there.
    assert_eq!(strip_stride_padding(&src[..10], 2, 2, 8), src[..10].to_vec());
}

#[test]
fn strip_stride_padding_drops_padding() {
    // 1-pixel rows padded to 8 bytes.
    let src: Vec<u8> = (0..16).collect();
    assert_eq!(strip_stride_padding(&src, 1, 2, 8), vec![0, 1, 2, 3, 8, 9, 10, 11]);
}

#[test]
fn strip_stride_padding_zero_fills_past_the_end() {
    let src: Vec<u8> = (1..=10).collect();
    // Row 1 starts at byte 8: two bytes left, the rest zero.
    assert_eq!(strip_stride_padding(&src, 1, 3, 8), vec![1, 2, 3, 4, 9, 10, 0, 0, 0, 0, 0, 0]);
}

#[test]
fn bgra_to_rgba_swaps_and_strips() {
    let src = vec![1u8, 2, 3, 4, 9, 9, 9, 9, 5, 6, 7, 8, 9, 9, 9, 9];
    assert_eq!(bgra_to_rgba(&src, 1, 2, 8), vec![3, 2, 1, 4, 7, 6, 5, 8]);
}

#[test]
fn bgra_to_rgba_stops_at_the_end_of_the_data() {
    // Second row has only 6 bytes: one whole pixel; third row starts past the end.
    let src = vec![1u8, 2, 3, 4, 5, 6, 7, 8, 10, 20, 30, 40, 50, 60];
    assert_eq!(bgra_to_rgba(&src, 2, 3, 8), vec![3, 2, 1, 4, 7, 6, 5, 8, 30, 20, 10, 40]);
    assert_eq!(bgra_to_rgba(&[], 2, 3, 8), Vec::<u8>::new());
}

#[test]
fn convert_mapped_rows_swaps_and_forces_alpha() {
    // offset 2, stride 6, one pixel per row.
    let mapped = vec![0u8, 0, 1, 2, 3, 4, 0, 0, 5, 6, 7, 8, 0, 0];
    assert_eq!(convert_mapped_rows(&mapped, 1, 2, 6, 2, false, false), vec![1, 2, 3, 4, 5, 6, 7, 8]);
    assert_eq!(convert_mapped_rows(&mapped, 1, 2, 6, 2, true, false), vec![3, 2, 1, 4, 7, 6, 5, 8]);
    assert_eq!(convert_mapped_rows(&mapped, 1, 2, 6, 2, true, true), vec![3, 2, 1, 255, 7, 6, 5, 255]);
}
