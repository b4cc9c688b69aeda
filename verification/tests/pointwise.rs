use texture_processor::bytes::invert_byte;
use texture_processor::error::ProcessError;
use texture_processor::layout::{write_rows_by_layout, PngColor, RgbaBuffer, RowEncoding, TiffColor};
use texture_processor::format::TextureFormat;
use texture_processor::pointwise::{
    buffered_fallback_masked, check_mask_size, png_pointwise_plan, pointwise_row, pointwise_row_masked,
    tiff_pointwise_plan, transform_strip_row_masked, PngSourceColor, PointwisePlan, TiffSourceColor,
};
use texture_processor::signature::{is_png_header, is_tiff_header};

fn message<T>(r: Result<T, ProcessError>) -> String {
    match r {
        Err(ProcessError::InvalidInput(m)) => m,
        Ok(_) => panic!("expected an error"),
    }
}

#[test]
fn png_plan_rejects_unstreamable_headers() {
    assert_eq!(png_pointwise_plan(true, 8, PngSourceColor::Rgb, false), None);
    assert_eq!(png_pointwise_plan(false, 16, PngSourceColor::Rgb, false), None);
    assert_eq!(png_pointwise_plan(false, 8, PngSourceColor::Indexed, false), None);
    assert_eq!(
        png_pointwise_plan(false, 8, PngSourceColor::Rgba, true),
        Some(PointwisePlan { channels: 4, skip_alpha: true })
    );
    assert_eq!(
        png_pointwise_plan(false, 8, PngSourceColor::GrayscaleAlpha, false),
        Some(PointwisePlan { channels: 2, skip_alpha: false })
    );
    assert_eq!(
        png_pointwise_plan(false, 8, PngSourceColor::Rgb, true),
        Some(PointwisePlan { channels: 3, skip_alpha: false })
    );
}

#[test]
fn tiff_plan_takes_only_stripped_chunky_8_bit() {
    assert_eq!(tiff_pointwise_plan(false, true, TiffSourceColor::Rgb(8), false), None);
    assert_eq!(tiff_pointwise_plan(true, false, TiffSourceColor::Rgb(8), false), None);
    assert_eq!(tiff_pointwise_plan(true, true, TiffSourceColor::Rgb(16), false), None);
    assert_eq!(tiff_pointwise_plan(true, true, TiffSourceColor::Other, false), None);
    assert_eq!(
        tiff_pointwise_plan(true, true, TiffSourceColor::Gray(8), true),
        Some(PointwisePlan { channels: 1, skip_alpha: false })
    );
    assert_eq!(
        tiff_pointwise_plan(true, true, TiffSourceColor::Rgba(8), true),
        Some(PointwisePlan { channels: 4, skip_alpha: true })
    );
}

#[test]
fn pointwise_row_skips_alpha_when_exempt() {
    let row = [0u8, 10, 20, 30, 40, 50, 60, 70];
    assert_eq!(pointwise_row(&row, 4, true, &invert_byte), vec![255, 245, 235, 30, 215, 205, 195, 70]);
    assert_eq!(pointwise_row(&row, 4, false, &invert_byte), vec![255, 245, 235, 225, 215, 205, 195, 185]);
    assert_eq!(pointwise_row(&row, 2, true, &invert_byte), vec![255, 10, 235, 30, 215, 50, 195, 70]);
}

#[test]
fn masked_pointwise_row_leaves_masked_pixels() {
    let row = [0u8, 10, 20, 30];
    // Grayscale+alpha pixels; white mask excludes the second pixel.
    let out = pointwise_row_masked(&row, 2, true, Some(vec![0, 255]), 1, true, &invert_byte).unwrap();
    assert_eq!(out, vec![255, 10, 20, 30]);
    assert_eq!(
        message(pointwise_row_masked(&row, 2, true, None, 1, true, &invert_byte)),
        "mask source ended before image"
    );
}

#[test]
fn strip_row_transform_touches_only_its_row() {
    let mut strip = vec![1u8, 2, 3, 4, 5, 6];
    transform_strip_row_masked(&mut strip, 1, 2, 1, false, Some(vec![255, 0]), 1, false, &invert_byte).unwrap();
    assert_eq!(strip, vec![1, 2, 252, 4, 5, 6]);
    let r = transform_strip_row_masked(&mut strip, 2, 2, 1, false, None, 1, false, &invert_byte);
    assert_eq!(message(r), "mask source ended before image");
    assert_eq!(strip, vec![1, 2, 252, 4, 5, 6]);
}

#[test]
fn buffered_masked_fallback_transforms_valid_pixels() {
    let img = RgbaBuffer { width: 2, height: 1, pixels: vec![0, 10, 20, 30, 40, 50, 60, 70] };
    let mask = RgbaBuffer { width: 2, height: 1, pixels: vec![255, 0, 0, 0, 0, 0, 0, 0] };
    let out = buffered_fallback_masked("in.png", "m.png", &img, &mask, false, true, &invert_byte).unwrap();
    assert_eq!(out.pixels, vec![255, 245, 235, 30, 40, 50, 60, 70]);
    let small = RgbaBuffer { width: 1, height: 1, pixels: vec![0; 4] };
    assert_eq!(
        message(buffered_fallback_masked("in.png", "m.png", &img, &small, false, true, &invert_byte)),
        "mask `m.png` is 1x1, but image `in.png` is 2x1 \u{2014} the mask must match the image's dimensions"
    );
    assert!(check_mask_size("m", 3, 4, "i", 3, 4).is_ok());
}

#[test]
fn row_encodings_by_layout() {
    assert_eq!(write_rows_by_layout(TextureFormat::Png, 2, true, true).unwrap(), RowEncoding::Png(PngColor::GrayscaleAlpha));
    assert_eq!(write_rows_by_layout(TextureFormat::Png, 1, true, false).unwrap(), RowEncoding::Png(PngColor::Grayscale));
    assert_eq!(write_rows_by_layout(TextureFormat::Tiff, 1, true, false).unwrap(), RowEncoding::Tiff(TiffColor::Gray8));
    assert_eq!(write_rows_by_layout(TextureFormat::Tiff, 3, false, false).unwrap(), RowEncoding::Tiff(TiffColor::Rgb8));
    assert_eq!(write_rows_by_layout(TextureFormat::Tiff, 4, false, true).unwrap(), RowEncoding::Tiff(TiffColor::Rgba8));
    assert_eq!(
        message(write_rows_by_layout(TextureFormat::Tiff, 2, true, true)),
        "TIFF output has no color type for 2-channel data (is_gray=true, has_alpha=true)"
    );
}

#[test]
fn file_signatures() {
    assert!(is_png_header(&[0x89, 0x50, 0x4E, 0x47, 0x0D, 0x0A, 0x1A, 0x0A]));
    assert!(is_png_header(&[0x89, 0x50, 0x4E, 0x47, 0x0D, 0x0A, 0x1A, 0x0A, 0]));
    assert!(!is_png_header(&[0x89, 0x50, 0x4E, 0x47, 0x0D, 0x0A, 0x1A]));
    assert!(!is_png_header(&[0x88, 0x50, 0x4E, 0x47, 0x0D, 0x0A, 0x1A, 0x0A]));
    assert!(is_tiff_header(&[0x49, 0x49, 0x2A, 0x00]));
    assert!(is_tiff_header(&[0x4D, 0x4D, 0x00, 0x2A]));
    assert!(!is_tiff_header(&[0x4D, 0x4D, 0x2A, 0x00]));
    assert!(!is_tiff_header(&[0x49, 0x49]));
}
