use texture_processor::layout::{png_source_layout, tiff_source_layout, RgbaBuffer, SourceLayout};
use texture_processor::ops::{scale_rgba, FilterType, ScaleImage};
use texture_processor::pointwise::{PngSourceColor, TiffSourceColor};

fn scale_args(width: u32, height: u32, filter_type: FilterType) -> ScaleImage {
    ScaleImage {
        width,
        height,
        input: "in.png".into(),
        output: "out.png".into(),
        filter_type,
        format: Default::default(),
    }
}

fn sample_image() -> RgbaBuffer {
    let pixels: Vec<u8> = (0..2 * 3 * 4).map(|i| (i * 11) as u8).collect();
    RgbaBuffer { width: 2, height: 3, pixels }
}

#[test]
fn scaling_to_the_same_size_keeps_the_pixels() {
    let image = sample_image();
    for filter in [FilterType::Nearest, FilterType::Triangle, FilterType::CatmullRom, FilterType::Gaussian, FilterType::Lanczos3] {
        let out = scale_rgba(&image, &scale_args(2, 3, filter));
        assert_eq!((out.width, out.height), (2, 3));
        assert_eq!(out.pixels, image.pixels);
    }
}

#[test]
fn scaling_gives_the_requested_size() {
    let out = scale_rgba(&sample_image(), &scale_args(5, 4, FilterType::Nearest));
    assert_eq!((out.width, out.height), (5, 4));
    assert_eq!(out.pixels.len(), 5 * 4 * 4);
    assert_ne!(out.pixels, vec![0u8; 80]);
    let out = scale_rgba(&sample_image(), &scale_args(0, 7, FilterType::Gaussian));
    assert_eq!((out.width, out.height, out.pixels.len()), (0, 7, 0));
}

#[test]
fn scaling_an_empty_image_gives_zero_bytes() {
    let empty = RgbaBuffer { width: 0, height: 0, pixels: vec![] };
    let out = scale_rgba(&empty, &scale_args(3, 2, FilterType::Lanczos3));
    assert_eq!((out.width, out.height), (3, 2));
    assert_eq!(out.pixels, vec![0u8; 24]);
}

#[test]
fn png_rows_stream_only_for_plain_8_bit_images() {
    assert_eq!(
        png_source_layout(7, 3, false, 8, PngSourceColor::GrayscaleAlpha),
        Some(SourceLayout { width: 7, height: 3, channels: 2, is_gray: true, has_alpha: true })
    );
    assert_eq!(
        png_source_layout(7, 3, false, 8, PngSourceColor::Rgb),
        Some(SourceLayout { width: 7, height: 3, channels: 3, is_gray: false, has_alpha: false })
    );
    assert_eq!(png_source_layout(7, 3, true, 8, PngSourceColor::Rgb), None);
    assert_eq!(png_source_layout(7, 3, false, 16, PngSourceColor::Rgba), None);
    assert_eq!(png_source_layout(7, 3, false, 8, PngSourceColor::Indexed), None);
}

#[test]
fn tiff_rows_stream_only_for_chunky_8_bit_strips() {
    assert_eq!(
        tiff_source_layout(4, 9, true, true, TiffSourceColor::Rgba(8)),
        Some(SourceLayout { width: 4, height: 9, channels: 4, is_gray: false, has_alpha: true })
    );
    assert_eq!(
        tiff_source_layout(4, 9, true, true, TiffSourceColor::GrayA(8)),
        Some(SourceLayout { width: 4, height: 9, channels: 2, is_gray: true, has_alpha: true })
    );
    assert_eq!(tiff_source_layout(4, 9, false, true, TiffSourceColor::Gray(8)), None);
    assert_eq!(tiff_source_layout(4, 9, true, false, TiffSourceColor::Gray(8)), None);
    assert_eq!(tiff_source_layout(4, 9, true, true, TiffSourceColor::Rgb(16)), None);
    assert_eq!(tiff_source_layout(4, 9, true, true, TiffSourceColor::Other), None);
}

#[test]
fn nearest_upscale_repeats_the_pixel() {
    let one = RgbaBuffer { width: 1, height: 1, pixels: vec![10, 20, 30, 255] };
    let out = scale_rgba(&one, &scale_args(2, 2, FilterType::Nearest));
    assert_eq!(out.pixels, [10u8, 20, 30, 255].repeat(4));
}
