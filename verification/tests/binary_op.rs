use texture_processor::binary_op::{
    buffered_binary_op, buffered_binary_op_masked, mask_covers_row, open_streamable_masked_triple,
    open_streamable_pair, stream_binary_op, stream_binary_op_masked,
};
use texture_processor::bytes::{multiply_byte, subtract_byte};
use texture_processor::error::ProcessError;
use texture_processor::format::TextureFormat;
use texture_processor::layout::{RgbaBuffer, SourceLayout};

fn rgba(width: u32, height: u32) -> SourceLayout {
    SourceLayout { width, height, channels: 4, is_gray: false, has_alpha: true }
}

fn gray_alpha(width: u32, height: u32) -> SourceLayout {
    SourceLayout { width, height, channels: 2, is_gray: true, has_alpha: true }
}

fn message<T>(r: Result<T, ProcessError>) -> String {
    match r {
        Err(ProcessError::InvalidInput(m)) => m,
        Ok(_) => panic!("expected an error"),
    }
}

/// Rows of the 11x6 test image `a` (x*5, y*7, x+y, 200) and the constant
/// image `b` (250, 10, 100, 220).
fn rows() -> (Vec<Vec<u8>>, Vec<Vec<u8>>) {
    let mut a = Vec::new();
    let mut b = Vec::new();
    for y in 0..6u32 {
        let mut ra = Vec::new();
        let mut rb = Vec::new();
        for x in 0..11u32 {
            ra.extend([(x * 5) as u8, (y * 7) as u8, (x + y) as u8, 200]);
            rb.extend([250u8, 10, 100, 220]);
        }
        a.push(ra);
        b.push(rb);
    }
    (a, b)
}

#[test]
fn streamed_mul_rows_match_multiply_blend() {
    let (a, b) = rows();
    for (ra, rb) in a.iter().zip(b.iter()) {
        let out = stream_binary_op(Some(ra.clone()), Some(rb.clone()), &multiply_byte).unwrap();
        let expected: Vec<u8> = ra.iter().zip(rb).map(|(x, y)| multiply_byte(*x, *y)).collect();
        assert_eq!(out, expected);
    }
}

#[test]
fn streamed_sub_rows_match_saturating_difference() {
    let (a, b) = rows();
    for (ra, rb) in a.iter().zip(b.iter()) {
        let out = stream_binary_op(Some(ra.clone()), Some(rb.clone()), &subtract_byte).unwrap();
        let expected: Vec<u8> = ra.iter().zip(rb).map(|(x, y)| x.saturating_sub(*y)).collect();
        assert_eq!(out, expected);
    }
    assert_eq!(stream_binary_op(Some(vec![10u8, 250]), Some(vec![20u8, 5]), &subtract_byte).unwrap(), vec![0, 245]);
}

#[test]
fn streamed_rows_stop_at_the_shorter_row() {
    let out = stream_binary_op(Some(vec![1u8, 2, 3]), Some(vec![4u8, 5]), &|x: u8, y: u8| x + y).unwrap();
    assert_eq!(out, vec![5, 7]);
}

#[test]
fn streamed_rows_report_which_input_ended() {
    assert_eq!(
        message(stream_binary_op(None, Some(vec![1u8]), &multiply_byte)),
        "the first image ended before the second"
    );
    assert_eq!(
        message(stream_binary_op(Some(vec![1u8]), None, &multiply_byte)),
        "the second image ended before the first"
    );
    assert_eq!(
        message(stream_binary_op_masked(Some(vec![1u8]), Some(vec![1u8]), None, 1, false, 1, &multiply_byte)),
        "the mask ended before the images"
    );
}

#[test]
fn masked_pixel_passes_through_streamed_mul() {
    // Two RGBA pixels; the mask (grayscale, black excluded) masks the second.
    let a = vec![10u8, 20, 30, 200, 40, 50, 60, 200];
    let b = vec![10u8, 10, 10, 10, 10, 10, 10, 10];
    let mask = vec![255u8, 0];
    let out = stream_binary_op_masked(Some(a.clone()), Some(b.clone()), Some(mask), 1, false, 4, &multiply_byte)
        .unwrap();
    assert_eq!(
        &out[0..4],
        &[multiply_byte(10, 10), multiply_byte(20, 10), multiply_byte(30, 10), multiply_byte(200, 10)]
    );
    assert_eq!(&out[4..8], &a[4..8]);
}

#[test]
fn masked_pixel_passes_through_streamed_sub() {
    let a = vec![10u8, 20, 30, 200, 40, 50, 60, 200];
    let b = vec![10u8, 10, 10, 10, 10, 10, 10, 10];
    // White mask: the white (first) pixel is excluded.
    let mask = vec![255u8, 255, 255, 0, 0, 0];
    let out = stream_binary_op_masked(Some(a.clone()), Some(b), Some(mask), 3, true, 4, &subtract_byte).unwrap();
    assert_eq!(&out[0..4], &a[0..4]);
    assert_eq!(&out[4..8], &[30, 40, 50, 190]);
}

#[test]
fn mask_coverage_counts_partial_pixels() {
    assert!(mask_covers_row(0, 4, 0, 1));
    assert!(mask_covers_row(8, 4, 2, 1));
    assert!(!mask_covers_row(9, 4, 2, 1));
    assert!(mask_covers_row(9, 4, 5, 2));
    assert!(!mask_covers_row(9, 4, 4, 2));
}

#[test]
fn pair_of_matching_sources_streams() {
    let r = open_streamable_pair("a.png", "b.png", Some((rgba(4, 4), 1)), Some((rgba(4, 4), 2)), TextureFormat::Png, "mul");
    let ((la, ha), (lb, hb)) = r.unwrap().unwrap();
    assert_eq!((la, ha, lb, hb), (rgba(4, 4), 1, rgba(4, 4), 2));
}

#[test]
fn pair_with_unstreamable_source_falls_back() {
    let r = open_streamable_pair("a.png", "b.png", None, Some((rgba(4, 4), 2)), TextureFormat::Png, "mul");
    assert!(matches!(r, Ok(None)));
    let r = open_streamable_pair("a.png", "b.png", Some((rgba(4, 4), 1)), None, TextureFormat::Png, "mul");
    assert!(matches!(r, Ok(None)));
}

#[test]
fn pair_with_different_layouts_falls_back() {
    let r = open_streamable_pair("a.png", "b.png", Some((rgba(4, 4), 1)), Some((gray_alpha(4, 4), 2)), TextureFormat::Png, "mul");
    assert!(matches!(r, Ok(None)));
}

#[test]
fn gray_alpha_pair_streams_to_png_but_not_to_tiff() {
    let r = open_streamable_pair("a", "b", Some((gray_alpha(2, 2), 1)), Some((gray_alpha(2, 2), 2)), TextureFormat::Tiff, "add");
    assert!(matches!(r, Ok(None)));
    let r = open_streamable_pair("a", "b", Some((gray_alpha(2, 2), 1)), Some((gray_alpha(2, 2), 2)), TextureFormat::Png, "add");
    assert!(matches!(r, Ok(Some(_))));
}

#[test]
fn pair_with_different_sizes_is_rejected() {
    let r = open_streamable_pair("small.png", "big.png", Some((rgba(4, 4), 1)), Some((rgba(8, 16), 2)), TextureFormat::Png, "mul");
    assert_eq!(
        message(r),
        "`small.png` is 4x4, but `big.png` is 8x16 \u{2014} both images must be the same size to mul"
    );
}

#[test]
fn triple_checks_mask_size() {
    let pair = Some(((rgba(6, 6), 1), (rgba(6, 6), 2)));
    let r = open_streamable_masked_triple(pair, "mask.png", Some((gray_alpha(6, 5), 3)));
    assert_eq!(
        message(r),
        "mask `mask.png` is 6x5, but the images being combined are 6x6 \u{2014} the mask must match their dimensions"
    );
    let pair = Some(((rgba(6, 6), 1), (rgba(6, 6), 2)));
    let r = open_streamable_masked_triple(pair, "mask.png", Some((gray_alpha(6, 6), 3))).unwrap().unwrap();
    assert_eq!((r.0 .1, r.1 .1, r.2 .1), (1, 2, 3));
    let r = open_streamable_masked_triple(None, "mask.png", None::<(SourceLayout, u8)>);
    assert!(matches!(r, Ok(None)));
    let r = open_streamable_masked_triple(Some(((rgba(6, 6), 1), (rgba(6, 6), 2))), "mask.png", None);
    assert!(matches!(r, Ok(None)));
}

#[test]
fn buffered_binary_op_combines_every_channel() {
    let a = RgbaBuffer { width: 2, height: 1, pixels: vec![10, 20, 30, 40, 50, 60, 70, 80] };
    let b = RgbaBuffer { width: 2, height: 1, pixels: vec![1, 2, 3, 4, 5, 6, 7, 8] };
    let out = buffered_binary_op("a", "b", &a, &b, "sub", &subtract_byte).unwrap();
    assert_eq!((out.width, out.height), (2, 1));
    assert_eq!(out.pixels, vec![9, 18, 27, 36, 45, 54, 63, 72]);

    let c = RgbaBuffer { width: 1, height: 2, pixels: vec![0; 8] };
    assert_eq!(
        message(buffered_binary_op("a", "c", &a, &c, "sub", &subtract_byte)),
        "`a` is 2x1, but `c` is 1x2 \u{2014} both images must be the same size to sub"
    );
}

#[test]
fn buffered_masked_binary_op_passes_masked_pixels_through() {
    let a = RgbaBuffer { width: 2, height: 1, pixels: vec![10, 20, 30, 40, 50, 60, 70, 80] };
    let b = RgbaBuffer { width: 2, height: 1, pixels: vec![1, 2, 3, 4, 5, 6, 7, 8] };
    let mask = RgbaBuffer { width: 2, height: 1, pixels: vec![0, 0, 0, 255, 255, 255, 255, 255] };
    let out = buffered_binary_op_masked("a", "b", "m", &a, &b, &mask, false, "sub", &subtract_byte).unwrap();
    assert_eq!(out.pixels, vec![10, 20, 30, 40, 45, 54, 63, 72]);

    let small = RgbaBuffer { width: 1, height: 1, pixels: vec![0; 4] };
    assert_eq!(
        message(buffered_binary_op_masked("a", "b", "m", &a, &b, &small, false, "sub", &subtract_byte)),
        "mask `m` is 1x1, but the images being combined are 2x1 \u{2014} the mask must match their dimensions"
    );
}
