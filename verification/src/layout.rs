use vstd::prelude::*;

use crate::error::ProcessError;
use crate::format::TextureFormat;
use crate::pointwise::{
    spec_png_pointwise_plan, spec_tiff_pointwise_plan, PngSourceColor, TiffSourceColor,
};
use crate::text::{append_bool, append_usize, bool_text, decimal};

verus! {

/// What a row-streamable image source reports about itself: its size and
/// the interleaved 8-bit sample layout of each decoded row.
#[derive(Debug, PartialEq, Eq, Structural, Clone, Copy)]
pub struct SourceLayout {
    pub width: u32,
    pub height: u32,
    pub channels: usize,
    pub is_gray: bool,
    pub has_alpha: bool,
}

impl SourceLayout {
    /// The four layouts a row source produces: grayscale, grayscale+alpha,
    /// RGB and RGBA, each with one byte per sample.
    pub open spec fn wf(self) -> bool {
        ||| (self.channels == 1 && self.is_gray && !self.has_alpha)
        ||| (self.channels == 2 && self.is_gray && self.has_alpha)
        ||| (self.channels == 3 && !self.is_gray && !self.has_alpha)
        ||| (self.channels == 4 && !self.is_gray && self.has_alpha)
    }

    /// Whether two sources have the same size.
    pub open spec fn same_size(self, other: SourceLayout) -> bool {
        self.width == other.width && self.height == other.height
    }

    /// Whether two sources have the same channel layout.
    pub open spec fn same_channels(self, other: SourceLayout) -> bool {
        self.channels == other.channels && self.is_gray == other.is_gray && self.has_alpha
            == other.has_alpha
    }
}

/// The row layout of a PNG that can be decoded row by row: 8-bit,
/// non-interlaced, and not indexed; `None` for any other PNG.
pub open spec fn spec_png_source_layout(
    width: u32,
    height: u32,
    interlaced: bool,
    bit_depth: u8,
    color: PngSourceColor,
) -> Option<SourceLayout> {
    if interlaced || bit_depth != 8 {
        None
    } else {
        match color {
            PngSourceColor::Grayscale => Some(
                SourceLayout { width, height, channels: 1, is_gray: true, has_alpha: false },
            ),
            PngSourceColor::GrayscaleAlpha => Some(
                SourceLayout { width, height, channels: 2, is_gray: true, has_alpha: true },
            ),
            PngSourceColor::Rgb => Some(
                SourceLayout { width, height, channels: 3, is_gray: false, has_alpha: false },
            ),
            PngSourceColor::Rgba => Some(
                SourceLayout { width, height, channels: 4, is_gray: false, has_alpha: true },
            ),
            PngSourceColor::Indexed => None,
        }
    }
}

/// Decides from its header whether a PNG can be read row by row, and with
/// which layout.
pub fn png_source_layout(width: u32, height: u32, interlaced: bool, bit_depth: u8, color: PngSourceColor) -> (r:
    Option<SourceLayout>)
    ensures
        r == spec_png_source_layout(width, height, interlaced, bit_depth, color),
        r matches Some(l) ==> l.wf(),
        r matches Some(l) ==> l.has_alpha == (color == PngSourceColor::GrayscaleAlpha || color
            == PngSourceColor::Rgba) && l.channels == (match color {
            PngSourceColor::Grayscale => 1usize,
            PngSourceColor::GrayscaleAlpha => 2usize,
            PngSourceColor::Rgb => 3usize,
            _ => 4usize,
        }),
{
    proof {
        lemma_png_source_layout_fits_color(width, height, interlaced, bit_depth, color, false);
    }
    if interlaced || bit_depth != 8 {
        return None;
    }
    match color {
        PngSourceColor::Grayscale => Some(
            SourceLayout { width, height, channels: 1, is_gray: true, has_alpha: false },
        ),
        PngSourceColor::GrayscaleAlpha => Some(
            SourceLayout { width, height, channels: 2, is_gray: true, has_alpha: true },
        ),
        PngSourceColor::Rgb => Some(SourceLayout { width, height, channels: 3, is_gray: false, has_alpha: false }),
        PngSourceColor::Rgba => Some(SourceLayout { width, height, channels: 4, is_gray: false, has_alpha: true }),
        PngSourceColor::Indexed => None,
    }
}

/// The row layout of a TIFF that can be read row by row: stored in strips,
/// chunky (samples interleaved), and 8-bit gray, gray+alpha, RGB or RGBA;
/// `None` for any other TIFF.
pub open spec fn spec_tiff_source_layout(
    width: u32,
    height: u32,
    stripped: bool,
    chunky: bool,
    color: TiffSourceColor,
) -> Option<SourceLayout> {
    if !stripped || !chunky {
        None
    } else {
        match color {
            TiffSourceColor::Gray(8) => Some(
                SourceLayout { width, height, channels: 1, is_gray: true, has_alpha: false },
            ),
            TiffSourceColor::GrayA(8) => Some(
                SourceLayout { width, height, channels: 2, is_gray: true, has_alpha: true },
            ),
            TiffSourceColor::Rgb(8) => Some(
                SourceLayout { width, height, channels: 3, is_gray: false, has_alpha: false },
            ),
            TiffSourceColor::Rgba(8) => Some(
                SourceLayout { width, height, channels: 4, is_gray: false, has_alpha: true },
            ),
            _ => None,
        }
    }
}

/// Decides from its layout whether a TIFF can be read row by row, and with
/// which row layout.
pub fn tiff_source_layout(width: u32, height: u32, stripped: bool, chunky: bool, color: TiffSourceColor) -> (r:
    Option<SourceLayout>)
    ensures
        r == spec_tiff_source_layout(width, height, stripped, chunky, color),
        r matches Some(l) ==> l.wf(),
{
    if !stripped || !chunky {
        return None;
    }
    match color {
        TiffSourceColor::Gray(8) => Some(SourceLayout { width, height, channels: 1, is_gray: true, has_alpha: false }),
        TiffSourceColor::GrayA(8) => Some(SourceLayout { width, height, channels: 2, is_gray: true, has_alpha: true }),
        TiffSourceColor::Rgb(8) => Some(SourceLayout { width, height, channels: 3, is_gray: false, has_alpha: false }),
        TiffSourceColor::Rgba(8) => Some(SourceLayout { width, height, channels: 4, is_gray: false, has_alpha: true }),
        _ => None,
    }
}

/// The PNG color types rows are written with.
#[derive(Debug, PartialEq, Eq, Structural, Clone, Copy)]
pub enum PngColor {
    Grayscale,
    GrayscaleAlpha,
    Rgb,
    Rgba,
}

/// The 8-bit TIFF color types rows are written with.
#[derive(Debug, PartialEq, Eq, Structural, Clone, Copy)]
pub enum TiffColor {
    Gray8,
    Rgb8,
    Rgba8,
}

/// How synthesized rows are encoded into the output file.
#[derive(Debug, PartialEq, Eq, Structural, Clone, Copy)]
pub enum RowEncoding {
    Png(PngColor),
    Tiff(TiffColor),
}

/// The PNG color type of a row-source layout.
pub open spec fn spec_png_color_type(channels: usize, is_gray: bool, has_alpha: bool) -> PngColor {
    if channels == 1 {
        PngColor::Grayscale
    } else if channels == 2 {
        PngColor::GrayscaleAlpha
    } else if channels == 3 {
        PngColor::Rgb
    } else {
        PngColor::Rgba
    }
}

/// The PNG color type of one of the four row-source layouts.
pub fn png_color_type(channels: usize, is_gray: bool, has_alpha: bool) -> (r: PngColor)
    requires
        (SourceLayout { width: 0, height: 0, channels, is_gray, has_alpha }).wf(),
    ensures
        r == spec_png_color_type(channels, is_gray, has_alpha),
        png_color_samples(r) == channels,
        (r == PngColor::GrayscaleAlpha || r == PngColor::Rgba) == has_alpha,
{
    proof {
        lemma_png_color_fits_layout(channels, is_gray, has_alpha);
    }
    if channels == 1 {
        PngColor::Grayscale
    } else if channels == 2 {
        PngColor::GrayscaleAlpha
    } else if channels == 3 {
        PngColor::Rgb
    } else {
        PngColor::Rgba
    }
}

/// The samples per pixel of a PNG color type rows are written with.
pub open spec fn png_color_samples(color: PngColor) -> int {
    match color {
        PngColor::Grayscale => 1,
        PngColor::GrayscaleAlpha => 2,
        PngColor::Rgb => 3,
        PngColor::Rgba => 4,
    }
}

/// The samples per pixel of an 8-bit TIFF color type rows are written with.
pub open spec fn tiff_color_samples(color: TiffColor) -> int {
    match color {
        TiffColor::Gray8 => 1,
        TiffColor::Rgb8 => 3,
        TiffColor::Rgba8 => 4,
    }
}

/// Rows are written under a PNG color type that fits them: for each of the
/// four row layouts, the color type has as many samples per pixel as the
/// rows have channels, is gray exactly when the rows are gray, and has alpha
/// exactly when the rows have alpha.
pub proof fn lemma_png_color_fits_layout(channels: usize, is_gray: bool, has_alpha: bool)
    requires
        (SourceLayout { width: 0, height: 0, channels, is_gray, has_alpha }).wf(),
    ensures
        png_color_samples(spec_png_color_type(channels, is_gray, has_alpha)) == channels,
        (spec_png_color_type(channels, is_gray, has_alpha) == PngColor::Grayscale
            || spec_png_color_type(channels, is_gray, has_alpha) == PngColor::GrayscaleAlpha) == is_gray,
        (spec_png_color_type(channels, is_gray, has_alpha) == PngColor::GrayscaleAlpha
            || spec_png_color_type(channels, is_gray, has_alpha) == PngColor::Rgba) == has_alpha,
{
}

/// What a PNG source layout is: there is one exactly for a non-interlaced
/// 8-bit image that is not indexed, of the image's own size, with as many
/// channels as the color type has samples per pixel (gray 1, gray+alpha 2,
/// RGB 3, RGBA 4), gray for the gray types, and with alpha exactly for the
/// types that carry it; and it agrees with the pointwise plan for the same
/// header: both exist or neither does, they walk pixels of the same size,
/// and the plan skips alpha only where the layout has it.
pub proof fn lemma_png_source_layout_fits_color(
    width: u32,
    height: u32,
    interlaced: bool,
    bit_depth: u8,
    color: PngSourceColor,
    alpha_exempt: bool,
)
    ensures
        spec_png_source_layout(width, height, interlaced, bit_depth, color) is Some <==> (!interlaced
            && bit_depth == 8 && color != PngSourceColor::Indexed),
        spec_png_source_layout(width, height, interlaced, bit_depth, color) matches Some(l) ==> {
            &&& l.wf()
            &&& l.width == width && l.height == height
            &&& color == PngSourceColor::Grayscale ==> l.channels == 1 && l.is_gray && !l.has_alpha
            &&& color == PngSourceColor::GrayscaleAlpha ==> l.channels == 2 && l.is_gray && l.has_alpha
            &&& color == PngSourceColor::Rgb ==> l.channels == 3 && !l.is_gray && !l.has_alpha
            &&& color == PngSourceColor::Rgba ==> l.channels == 4 && !l.is_gray && l.has_alpha
        },
        spec_png_source_layout(width, height, interlaced, bit_depth, color) is Some
            <==> spec_png_pointwise_plan(interlaced, bit_depth, color, alpha_exempt) is Some,
        spec_png_source_layout(width, height, interlaced, bit_depth, color) matches Some(l) ==> {
            let p = spec_png_pointwise_plan(interlaced, bit_depth, color, alpha_exempt).unwrap();
            &&& p.channels == l.channels
            &&& p.skip_alpha == (alpha_exempt && l.has_alpha)
        },
{
}

/// What a TIFF source layout is: there is one exactly for a stripped,
/// chunky image of 8-bit gray, gray+alpha, RGB or RGBA samples, of the
/// image's own size, with as many channels as the color type has samples
/// per pixel, gray for the gray types, and with alpha exactly for the types
/// that carry it; and, but for gray+alpha (which only concatenation reads
/// row by row), it agrees with the pointwise plan for the same image.
pub proof fn lemma_tiff_source_layout_fits_color(
    width: u32,
    height: u32,
    stripped: bool,
    chunky: bool,
    color: TiffSourceColor,
    alpha_exempt: bool,
)
    ensures
        spec_tiff_source_layout(width, height, stripped, chunky, color) is Some <==> (stripped && chunky
            && (color == TiffSourceColor::Gray(8) || color == TiffSourceColor::GrayA(8) || color
            == TiffSourceColor::Rgb(8) || color == TiffSourceColor::Rgba(8))),
        spec_tiff_source_layout(width, height, stripped, chunky, color) matches Some(l) ==> {
            &&& l.wf()
            &&& l.width == width && l.height == height
            &&& color == TiffSourceColor::Gray(8) ==> l.channels == 1 && l.is_gray && !l.has_alpha
            &&& color == TiffSourceColor::GrayA(8) ==> l.channels == 2 && l.is_gray && l.has_alpha
            &&& color == TiffSourceColor::Rgb(8) ==> l.channels == 3 && !l.is_gray && !l.has_alpha
            &&& color == TiffSourceColor::Rgba(8) ==> l.channels == 4 && !l.is_gray && l.has_alpha
        },
        color != TiffSourceColor::GrayA(8) ==> (spec_tiff_source_layout(width, height, stripped, chunky, color)
            is Some <==> spec_tiff_pointwise_plan(stripped, chunky, color, alpha_exempt) is Some),
        spec_tiff_pointwise_plan(stripped, chunky, color, alpha_exempt) matches Some(p) ==> {
            let l = spec_tiff_source_layout(width, height, stripped, chunky, color).unwrap();
            &&& p.channels == l.channels
            &&& p.skip_alpha == (alpha_exempt && l.has_alpha)
        },
{
}

/// The text of the error for a layout that TIFF output cannot represent.
pub open spec fn tiff_layout_message(channels: usize, is_gray: bool, has_alpha: bool) -> Seq<char> {
    "TIFF output has no color type for "@ + decimal(channels as nat) + "-channel data (is_gray="@
        + bool_text(is_gray) + ", has_alpha="@ + bool_text(has_alpha) + ")"@
}

/// Chooses how rows of the given layout are written in the given format:
/// PNG takes all four layouts; TIFF has 8-bit gray, RGB and RGBA color types
/// but none for grayscale+alpha (or any other layout), which is an error.
pub fn write_rows_by_layout(
    format: TextureFormat,
    channels: usize,
    is_gray: bool,
    has_alpha: bool,
) -> (r: Result<RowEncoding, ProcessError>)
    requires
        format == TextureFormat::Png ==> (SourceLayout {
            width: 0,
            height: 0,
            channels,
            is_gray,
            has_alpha,
        }).wf(),
    ensures
        format == TextureFormat::Png ==> r == Ok::<RowEncoding, ProcessError>(
            RowEncoding::Png(spec_png_color_type(channels, is_gray, has_alpha)),
        ),
        format == TextureFormat::Tiff ==> {
            if channels == 1 && is_gray && !has_alpha {
                r == Ok::<RowEncoding, ProcessError>(RowEncoding::Tiff(TiffColor::Gray8))
            } else if channels == 3 && !is_gray && !has_alpha {
                r == Ok::<RowEncoding, ProcessError>(RowEncoding::Tiff(TiffColor::Rgb8))
            } else if channels == 4 && !is_gray && has_alpha {
                r == Ok::<RowEncoding, ProcessError>(RowEncoding::Tiff(TiffColor::Rgba8))
            } else {
                r matches Err(ProcessError::InvalidInput(m)) && m@ == tiff_layout_message(
                    channels,
                    is_gray,
                    has_alpha,
                )
            }
        },
        r matches Ok(RowEncoding::Png(c)) ==> png_color_samples(c) == channels && (c
            == PngColor::GrayscaleAlpha || c == PngColor::Rgba) == has_alpha,
        r matches Ok(RowEncoding::Tiff(t)) ==> tiff_color_samples(t) == channels && (t
            == TiffColor::Rgba8) == has_alpha,
{
    proof {
        if format == TextureFormat::Png {
            lemma_png_color_fits_layout(channels, is_gray, has_alpha);
        }
    }
    match format {
        TextureFormat::Png => Ok(RowEncoding::Png(png_color_type(channels, is_gray, has_alpha))),
        TextureFormat::Tiff => {
            if channels == 1 && is_gray && !has_alpha {
                Ok(RowEncoding::Tiff(TiffColor::Gray8))
            } else if channels == 3 && !is_gray && !has_alpha {
                Ok(RowEncoding::Tiff(TiffColor::Rgb8))
            } else if channels == 4 && !is_gray && has_alpha {
                Ok(RowEncoding::Tiff(TiffColor::Rgba8))
            } else {
                let mut m = "TIFF output has no color type for ".to_owned();
                append_usize(&mut m, channels);
                m.append("-channel data (is_gray=");
                append_bool(&mut m, is_gray);
                m.append(", has_alpha=");
                append_bool(&mut m, has_alpha);
                m.append(")");
                Err(ProcessError::InvalidInput(m))
            }
        },
    }
}

} // verus!

verus! {

/// A fully decoded image normalized to 8-bit RGBA: `width * height` pixels
/// of four bytes each, row by row.
#[derive(Debug, Clone)]
pub struct RgbaBuffer {
    pub width: u32,
    pub height: u32,
    pub pixels: Vec<u8>,
}

impl RgbaBuffer {
    /// The buffer holds exactly four bytes for each of its pixels.
    pub open spec fn wf(self) -> bool {
        self.pixels@.len() == self.width as int * self.height as int * 4
    }
}

} // verus!
