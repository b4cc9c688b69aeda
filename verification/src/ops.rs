use std::path::PathBuf;

use vstd::prelude::*;

use crate::format::TextureFormat;
use crate::layout::RgbaBuffer;
use crate::mask::MaskArgs;

verus! {

/// Arguments of the `blur` operation.
#[derive(Clone)]
pub struct Blur {
    pub input: PathBuf,
    pub output: PathBuf,
    pub radius: u32,
    pub kernel: BlurKernel,
    pub format: TextureFormat,
    pub mask: MaskArgs,
}

/// The two separable blur kernels: a flat box, or a Gaussian whose sigma
/// is a third of the radius.
#[derive(Debug, PartialEq, Eq, Structural, Clone, Copy, Hash)]
pub enum BlurKernel {
    Box,
    Gaussian,
}

impl Default for BlurKernel {
    fn default() -> (r: Self)
        ensures
            r == BlurKernel::Gaussian,
    {
        BlurKernel::Gaussian
    }
}

impl BlurKernel {
    /// The name under which the kernel is shown and chosen on the command
    /// line.
    pub fn as_str(&self) -> (r: &'static str)
        ensures
            r@ == (match *self {
                BlurKernel::Box => "box"@,
                BlurKernel::Gaussian => "gaussian"@,
            }),
    {
        match self {
            BlurKernel::Box => "box",
            BlurKernel::Gaussian => "gaussian",
        }
    }
}

/// Arguments of the `sub` operation: `file1 - file2`, clamped at `0`.
#[derive(Clone)]
pub struct Sub {
    pub file1: PathBuf,
    pub file2: PathBuf,
    pub output: PathBuf,
    pub format: TextureFormat,
    pub mask: MaskArgs,
}

/// Arguments of the `scale-image` operation.
#[derive(Clone)]
pub struct ScaleImage {
    pub width: u32,
    pub height: u32,
    pub input: PathBuf,
    pub output: PathBuf,
    pub filter_type: FilterType,
    pub format: TextureFormat,
}

/// The resampling filters `scale-image` offers.
#[derive(Debug, PartialEq, Eq, Structural, Clone, Copy, Hash)]
pub enum FilterType {
    Nearest,
    Triangle,
    CatmullRom,
    Gaussian,
    Lanczos3,
}

impl Default for FilterType {
    fn default() -> (r: Self)
        ensures
            r == FilterType::Gaussian,
    {
        FilterType::Gaussian
    }
}

impl FilterType {
    /// The name under which the filter is shown and chosen on the command
    /// line.
    pub fn as_str(&self) -> (r: &'static str)
        ensures
            r@ == (match *self {
                FilterType::Nearest => "nearest"@,
                FilterType::Triangle => "triangle"@,
                FilterType::CatmullRom => "catmullrom"@,
                FilterType::Gaussian => "gaussian"@,
                FilterType::Lanczos3 => "lanczos3"@,
            }),
    {
        match self {
            FilterType::Nearest => "nearest",
            FilterType::Triangle => "triangle",
            FilterType::CatmullRom => "catmullrom",
            FilterType::Gaussian => "gaussian",
            FilterType::Lanczos3 => "lanczos3",
        }
    }
}


/// The resize can be carried out: the output buffer's bytes fit in an
/// allocation, and so, when the image is really resampled, do the
/// intermediate floating-point samples of its first pass (four 4-byte
/// samples per pixel, source width by new height).
pub open spec fn resize_fits(image: RgbaBuffer, new_width: u32, new_height: u32) -> bool {
    &&& 4 * new_width * new_height <= isize::MAX
    &&& (image.width != 0 && image.height != 0 && (new_width != image.width || new_height
        != image.height)) ==> 16 * image.width * new_height <= isize::MAX
}

/// The RGBA bytes `image::imageops::resize` gives for an image of `width` by
/// `height` pixels with bytes `pixels`, resized to `new_width` by
/// `new_height` with `filter`.
pub uninterp spec fn resized_rgba(
    pixels: Seq<u8>,
    width: u32,
    height: u32,
    new_width: u32,
    new_height: u32,
    filter: FilterType,
) -> Seq<u8>;

/// `image::imageops::resize` on the image's pixels, with the matching
/// filter: the result has the requested size and four bytes per pixel; an
/// image asked for at its own size comes back unchanged, and an empty image
/// (no width or no height) gives all-zero bytes. With the nearest and
/// triangle filters, whose kernels are plain arithmetic, the bytes are
/// `resized_rgba` of the arguments. With the Catmull-Rom, Gaussian and
/// Lanczos filters nothing more is said of the resampled bytes: their
/// kernels call `exp`, `sin` and `powi`, whose results may differ from one
/// machine to another.
#[verifier::external_body]
fn resize_rgba(image: &RgbaBuffer, new_width: u32, new_height: u32, filter: FilterType) -> (r: RgbaBuffer)
    requires
        image.wf(),
        resize_fits(*image, new_width, new_height),
    ensures
        r.wf(),
        r.width == new_width,
        r.height == new_height,
        (image.width == 0 || image.height == 0) ==> forall|i: int|
            0 <= i < r.pixels@.len() ==> #[trigger] r.pixels@[i] == 0,
        (new_width == image.width && new_height == image.height) ==> r.pixels@ == image.pixels@,
        (filter == FilterType::Nearest || filter == FilterType::Triangle) ==> r.pixels@ == resized_rgba(
            image.pixels@,
            image.width,
            image.height,
            new_width,
            new_height,
            filter,
        ),
{
    let source = image::RgbaImage::from_raw(image.width, image.height, image.pixels.clone()).unwrap();
    let filter = match filter {
        FilterType::Nearest => image::imageops::FilterType::Nearest,
        FilterType::Triangle => image::imageops::FilterType::Triangle,
        FilterType::CatmullRom => image::imageops::FilterType::CatmullRom,
        FilterType::Gaussian => image::imageops::FilterType::Gaussian,
        FilterType::Lanczos3 => image::imageops::FilterType::Lanczos3,
    };
    let out = image::imageops::resize(&source, new_width, new_height, filter);
    RgbaBuffer { width: out.width(), height: out.height(), pixels: out.into_raw() }
}

/// The pixels `scale-image` writes for a decoded image: the image resized to
/// the requested width and height with the requested filter, four bytes per
/// pixel. At its own size the image is written unchanged; an empty image
/// gives all-zero bytes; with the nearest and triangle filters the bytes are
/// `resized_rgba` of the image and the arguments.
pub fn scale_rgba(image: &RgbaBuffer, args: &ScaleImage) -> (r: RgbaBuffer)
    requires
        image.wf(),
        resize_fits(*image, args.width, args.height),
    ensures
        r.wf(),
        r.width == args.width,
        r.height == args.height,
        (image.width == 0 || image.height == 0) ==> forall|i: int|
            0 <= i < r.pixels@.len() ==> #[trigger] r.pixels@[i] == 0,
        (args.width == image.width && args.height == image.height) ==> r.pixels@ == image.pixels@,
        (args.filter_type == FilterType::Nearest || args.filter_type == FilterType::Triangle) ==> r.pixels@
            == resized_rgba(image.pixels@, image.width, image.height, args.width, args.height, args.filter_type),
{
    resize_rgba(image, args.width, args.height, args.filter_type)
}

} // verus!
