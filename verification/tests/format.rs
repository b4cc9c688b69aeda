use texture_processor::format::{DisplayFormat, TextureFormat};
use texture_processor::ops::{BlurKernel, FilterType};

#[test]
fn formats_display_and_default() {
    assert_eq!(TextureFormat::default(), TextureFormat::Png);
    assert_eq!(TextureFormat::Png.as_str(), "png");
    assert_eq!(TextureFormat::Tiff.as_str(), "tiff");
    assert_eq!(DisplayFormat::default(), DisplayFormat::Console);
    assert_eq!(DisplayFormat::Json.as_str(), "json");
    assert_eq!(DisplayFormat::Console.as_str(), "console");
}

#[test]
fn kernels_and_filters_display_and_default() {
    assert_eq!(BlurKernel::default(), BlurKernel::Gaussian);
    assert_eq!(BlurKernel::Box.as_str(), "box");
    assert_eq!(BlurKernel::Gaussian.as_str(), "gaussian");
    assert_eq!(FilterType::default(), FilterType::Gaussian);
    assert_eq!(FilterType::CatmullRom.as_str(), "catmullrom");
    assert_eq!(FilterType::Lanczos3.as_str(), "lanczos3");
    assert_eq!(FilterType::Nearest.as_str(), "nearest");
    assert_eq!(FilterType::Triangle.as_str(), "triangle");
}
