use vstd::prelude::*;

use crate::binary_op::mask_covers;
use crate::error::{is_invalid_input, ProcessError};
use crate::layout::{RgbaBuffer, SourceLayout};
use crate::mask::{mask_row_to_valid, spec_mask_row_to_valid};
use crate::text::{append_u32, decimal};

verus! {

/// The color types a PNG header can declare.
#[derive(Debug, PartialEq, Eq, Structural, Clone, Copy)]
pub enum PngSourceColor {
    Grayscale,
    Rgb,
    Indexed,
    GrayscaleAlpha,
    Rgba,
}

/// The color types a TIFF image can declare, with their bits per sample;
/// `Other` for every other kind.
#[derive(Debug, PartialEq, Eq, Structural, Clone, Copy)]
pub enum TiffSourceColor {
    Gray(u8),
    GrayA(u8),
    Rgb(u8),
    Rgba(u8),
    Other,
}

/// How a pointwise transform walks the flat samples of a decoded row:
/// `channels` samples per pixel, and whether each pixel's last sample
/// (its alpha) is left untouched.
#[derive(Debug, PartialEq, Eq, Structural, Clone, Copy)]
pub struct PointwisePlan {
    pub channels: usize,
    pub skip_alpha: bool,
}

/// The number of samples per pixel of a PNG color type.
pub open spec fn png_samples(color: PngSourceColor) -> usize {
    match color {
        PngSourceColor::Grayscale => 1,
        PngSourceColor::Rgb => 3,
        PngSourceColor::Indexed => 1,
        PngSourceColor::GrayscaleAlpha => 2,
        PngSourceColor::Rgba => 4,
    }
}

/// Whether a PNG can be transformed row by row, and how: not for interlaced
/// images (rows arrive out of order), indexed color (samples are palette
/// indices) or depths other than 8 bits. Alpha is skipped when the transform
/// exempts it and the color type has alpha.
pub open spec fn spec_png_pointwise_plan(
    interlaced: bool,
    bit_depth: u8,
    color: PngSourceColor,
    alpha_exempt: bool,
) -> Option<PointwisePlan> {
    if interlaced || bit_depth != 8 || color == PngSourceColor::Indexed {
        None
    } else {
        Some(
            PointwisePlan {
                channels: png_samples(color),
                skip_alpha: alpha_exempt && (color == PngSourceColor::GrayscaleAlpha || color
                    == PngSourceColor::Rgba),
            },
        )
    }
}

/// Decides whether a PNG with the given header can be transformed row by
/// row (`None`: fall back to decoding it whole), and how.
pub fn png_pointwise_plan(
    interlaced: bool,
    bit_depth: u8,
    color: PngSourceColor,
    alpha_exempt: bool,
) -> (r: Option<PointwisePlan>)
    ensures
        r == spec_png_pointwise_plan(interlaced, bit_depth, color, alpha_exempt),
        r matches Some(p) ==> p.skip_alpha == (alpha_exempt && png_color_has_alpha(color)),
{
    proof {
        lemma_png_plan_skips_only_alpha(interlaced, bit_depth, color, alpha_exempt);
    }
    if interlaced || bit_depth != 8 || matches!(color, PngSourceColor::Indexed) {
        return None;
    }
    let channels: usize = match color {
        PngSourceColor::Grayscale => 1,
        PngSourceColor::Rgb => 3,
        PngSourceColor::Indexed => 1,
        PngSourceColor::GrayscaleAlpha => 2,
        PngSourceColor::Rgba => 4,
    };
    let has_alpha = matches!(color, PngSourceColor::GrayscaleAlpha | PngSourceColor::Rgba);
    Some(PointwisePlan { channels, skip_alpha: alpha_exempt && has_alpha })
}

/// Whether a TIFF can be transformed strip by strip, and how: only
/// stripped (not tiled), chunky (not planar) 8-bit gray, RGB or RGBA images.
/// Alpha is skipped when the transform exempts it and the image is RGBA.
pub open spec fn spec_tiff_pointwise_plan(
    stripped: bool,
    chunky: bool,
    color: TiffSourceColor,
    alpha_exempt: bool,
) -> Option<PointwisePlan> {
    if !stripped || !chunky {
        None
    } else {
        match color {
            TiffSourceColor::Gray(8) => Some(PointwisePlan { channels: 1, skip_alpha: false }),
            TiffSourceColor::Rgb(8) => Some(PointwisePlan { channels: 3, skip_alpha: false }),
            TiffSourceColor::Rgba(8) => Some(PointwisePlan { channels: 4, skip_alpha: alpha_exempt }),
            _ => None,
        }
    }
}

/// Decides whether a TIFF with the given layout can be transformed strip by
/// strip (`None`: fall back to decoding it whole), and how.
pub fn tiff_pointwise_plan(
    stripped: bool,
    chunky: bool,
    color: TiffSourceColor,
    alpha_exempt: bool,
) -> (r: Option<PointwisePlan>)
    ensures
        r == spec_tiff_pointwise_plan(stripped, chunky, color, alpha_exempt),
        r matches Some(p) ==> p.skip_alpha == (alpha_exempt && color == TiffSourceColor::Rgba(8)),
{
    proof {
        lemma_tiff_plan_skips_only_alpha(stripped, chunky, color, alpha_exempt);
    }
    if !stripped || !chunky {
        return None;
    }
    match color {
        TiffSourceColor::Gray(8) => Some(PointwisePlan { channels: 1, skip_alpha: false }),
        TiffSourceColor::Rgb(8) => Some(PointwisePlan { channels: 3, skip_alpha: false }),
        TiffSourceColor::Rgba(8) => Some(PointwisePlan { channels: 4, skip_alpha: alpha_exempt }),
        _ => None,
    }
}

/// The text of the error for a mask whose size differs from the image's.
pub open spec fn image_mask_size_message(
    mask: Seq<char>,
    mw: u32,
    mh: u32,
    input: Seq<char>,
    w: u32,
    h: u32,
) -> Seq<char> {
    "mask `"@ + mask + "` is "@ + decimal(mw as nat) + "x"@ + decimal(mh as nat) + ", but image `"@
        + input + "` is "@ + decimal(w as nat) + "x"@ + decimal(h as nat)
        + " \u{2014} the mask must match the image's dimensions"@
}

/// Checks that a mask has the size of the image it gates; an error
/// otherwise.
pub fn check_mask_size(mask: &str, mw: u32, mh: u32, input: &str, w: u32, h: u32) -> (r: Result<
    (),
    ProcessError,
>)
    ensures
        (mw == w && mh == h) ==> r is Ok,
        !(mw == w && mh == h) ==> is_invalid_input(
            r,
            image_mask_size_message(mask@, mw, mh, input@, w, h),
        ),
{
    if mw == w && mh == h {
        return Ok(());
    }
    let mut m = "mask `".to_owned();
    m.append(mask);
    m.append("` is ");
    append_u32(&mut m, mw);
    m.append("x");
    append_u32(&mut m, mh);
    m.append(", but image `");
    m.append(input);
    m.append("` is ");
    append_u32(&mut m, w);
    m.append("x");
    append_u32(&mut m, h);
    m.append(" \u{2014} the mask must match the image's dimensions");
    Err(ProcessError::InvalidInput(m))
}

/// Whether a PNG color type carries an alpha sample in each pixel.
pub open spec fn png_color_has_alpha(color: PngSourceColor) -> bool {
    color == PngSourceColor::GrayscaleAlpha || color == PngSourceColor::Rgba
}

/// What a PNG pointwise plan is: there is one exactly for a non-interlaced
/// 8-bit image that is not indexed; it walks the pixels one whole pixel at a
/// time (gray 1 sample, gray+alpha 2, RGB 3, RGBA 4); and it skips a sample
/// only when the transform exempts alpha and the color type has an alpha
/// sample, which is then each pixel's last sample.
pub proof fn lemma_png_plan_skips_only_alpha(
    interlaced: bool,
    bit_depth: u8,
    color: PngSourceColor,
    alpha_exempt: bool,
)
    ensures
        spec_png_pointwise_plan(interlaced, bit_depth, color, alpha_exempt) is Some <==> (!interlaced
            && bit_depth == 8 && color != PngSourceColor::Indexed),
        spec_png_pointwise_plan(interlaced, bit_depth, color, alpha_exempt) matches Some(p) ==> {
            &&& p.skip_alpha == (alpha_exempt && png_color_has_alpha(color))
            &&& color == PngSourceColor::Grayscale ==> p.channels == 1
            &&& color == PngSourceColor::GrayscaleAlpha ==> p.channels == 2
            &&& color == PngSourceColor::Rgb ==> p.channels == 3
            &&& color == PngSourceColor::Rgba ==> p.channels == 4
        },
{
}

/// What a TIFF pointwise plan is: there is one exactly for a stripped,
/// chunky image of 8-bit gray, RGB or RGBA samples; it walks the pixels one
/// whole pixel at a time (gray 1 sample, RGB 3, RGBA 4); and it skips a
/// sample only for an RGBA image whose transform exempts alpha, never for a
/// gray or RGB image.
pub proof fn lemma_tiff_plan_skips_only_alpha(
    stripped: bool,
    chunky: bool,
    color: TiffSourceColor,
    alpha_exempt: bool,
)
    ensures
        spec_tiff_pointwise_plan(stripped, chunky, color, alpha_exempt) is Some <==> (stripped && chunky
            && (color == TiffSourceColor::Gray(8) || color == TiffSourceColor::Rgb(8) || color
            == TiffSourceColor::Rgba(8))),
        spec_tiff_pointwise_plan(stripped, chunky, color, alpha_exempt) matches Some(p) ==> {
            &&& p.skip_alpha == (alpha_exempt && color == TiffSourceColor::Rgba(8))
            &&& color == TiffSourceColor::Gray(8) ==> p.channels == 1 && !p.skip_alpha
            &&& color == TiffSourceColor::Rgb(8) ==> p.channels == 3 && !p.skip_alpha
            &&& color == TiffSourceColor::Rgba(8) ==> p.channels == 4
        },
{
}

/// What a row transformed under a plan looks like: with a plan that skips
/// alpha, each pixel's last sample (its alpha) comes out as it went in and
/// every other sample is transformed; with one that does not, every sample
/// is transformed.
pub proof fn lemma_plan_transforms_all_but_alpha<F: Fn(u8) -> u8>(
    row: Seq<u8>,
    plan: PointwisePlan,
    out: Seq<u8>,
    transform: F,
)
    requires
        plan.channels > 0,
        transformed_bytes(row, plan.channels as int, plan.skip_alpha, out, transform),
    ensures
        out.len() == row.len(),
        forall|i: int|
            0 <= i < row.len() && plan.skip_alpha && i % (plan.channels as int) == plan.channels - 1
                ==> #[trigger] out[i] == row[i],
        forall|i: int|
            0 <= i < row.len() && !(plan.skip_alpha && i % (plan.channels as int) == plan.channels - 1)
                ==> transform.ensures((row[i],), #[trigger] out[i]),
        !plan.skip_alpha ==> forall|i: int| 0 <= i < row.len() ==> transform.ensures((row[i],), #[trigger] out[i]),
{
}

/// Whether sample `i` of a row is a pixel's alpha that the transform skips.
pub open spec fn is_skipped_alpha(i: int, channels: int, skip_alpha: bool) -> bool {
    skip_alpha && i % channels == channels - 1
}

/// `out` is `row` with `transform` applied to every sample except the
/// skipped alpha samples, which pass through unchanged.
pub open spec fn transformed_bytes<F: Fn(u8) -> u8>(
    row: Seq<u8>,
    channels: int,
    skip_alpha: bool,
    out: Seq<u8>,
    transform: F,
) -> bool {
    &&& out.len() == row.len()
    &&& forall|i: int|
        0 <= i < row.len() ==> if is_skipped_alpha(i, channels, skip_alpha) {
            #[trigger] out[i] == row[i]
        } else {
            transform.ensures((row[i],), out[i])
        }
}

/// `out` is `row` with `transform` applied to every sample of the pixels
/// the mask marks valid, except the skipped alpha samples; the samples of
/// masked pixels and the skipped alpha samples pass through unchanged.
pub open spec fn masked_transformed_bytes<F: Fn(u8) -> u8>(
    row: Seq<u8>,
    channels: int,
    skip_alpha: bool,
    valid: Seq<bool>,
    out: Seq<u8>,
    transform: F,
) -> bool {
    &&& out.len() == row.len()
    &&& forall|i: int|
        0 <= i < row.len() ==> if !valid[i / channels] || is_skipped_alpha(i, channels, skip_alpha) {
            #[trigger] out[i] == row[i]
        } else {
            transform.ensures((row[i],), out[i])
        }
}

/// Applies a per-sample transform to one decoded row (or TIFF strip),
/// leaving each pixel's alpha sample untouched when `skip_alpha` is set.
pub fn pointwise_row<F: Fn(u8) -> u8>(
    row: &[u8],
    channels: usize,
    skip_alpha: bool,
    transform: &F,
) -> (out: Vec<u8>)
    requires
        channels > 0,
        forall|x: u8| transform.requires((x,)),
    ensures
        transformed_bytes(row@, channels as int, skip_alpha, out@, *transform),
{
    let n = row.len();
    let mut out: Vec<u8> = Vec::new();
    let mut i: usize = 0;
    while i < n
        invariant
            n == row@.len(),
            channels > 0,
            i <= n,
            out@.len() == i,
            forall|x: u8| transform.requires((x,)),
            forall|j: int|
                0 <= j < i ==> if is_skipped_alpha(j, channels as int, skip_alpha) {
                    #[trigger] out@[j] == row@[j]
                } else {
                    transform.ensures((row@[j],), out@[j])
                },
        decreases n - i,
    {
        let byte = row[i];
        let v = if skip_alpha && i % channels == channels - 1 {
            byte
        } else {
            transform(byte)
        };
        out.push(v);
        i = i + 1;
    }
    out
}

/// The text of the error for a mask running out of rows before the image.
pub open spec fn mask_source_ended_message() -> Seq<char> {
    "mask source ended before image"@
}

/// Applies a per-sample transform to one decoded row, gated by the next
/// row of a mask (`None` if the mask has run out): samples of pixels the
/// mask excludes, and skipped alpha samples, pass through unchanged.
pub fn pointwise_row_masked<F: Fn(u8) -> u8>(
    row: &[u8],
    channels: usize,
    skip_alpha: bool,
    mask_row: Option<Vec<u8>>,
    mask_channels: usize,
    mask_excludes_white: bool,
    transform: &F,
) -> (r: Result<Vec<u8>, ProcessError>)
    requires
        channels > 0,
        mask_channels > 0,
        forall|x: u8| transform.requires((x,)),
        mask_row is Some ==> mask_covers(
            row@.len() as int,
            channels as int,
            mask_row.unwrap()@.len() as int,
            mask_channels as int,
        ),
    ensures
        mask_row is None ==> is_invalid_input(r, mask_source_ended_message()),
        mask_row is Some ==> (r matches Ok(out) && masked_transformed_bytes(
            row@,
            channels as int,
            skip_alpha,
            spec_mask_row_to_valid(mask_row.unwrap()@, mask_channels as int, mask_excludes_white),
            out@,
            *transform,
        )),
{
    let mr = match mask_row {
        Some(mr) => mr,
        None => {
            return Err(ProcessError::InvalidInput("mask source ended before image".to_owned()));
        },
    };
    let valid = mask_row_to_valid(mr.as_slice(), mask_channels, mask_excludes_white);
    let n = row.len();
    let mut out: Vec<u8> = Vec::new();
    let mut i: usize = 0;
    while i < n
        invariant
            n == row@.len(),
            channels > 0,
            n == 0 || (n - 1) / (channels as int) < valid@.len(),
            i <= n,
            out@.len() == i,
            forall|x: u8| transform.requires((x,)),
            forall|j: int|
                0 <= j < i ==> if !valid@[j / (channels as int)] || is_skipped_alpha(
                    j,
                    channels as int,
                    skip_alpha,
                ) {
                    #[trigger] out@[j] == row@[j]
                } else {
                    transform.ensures((row@[j],), out@[j])
                },
        decreases n - i,
    {
        proof {
            vstd::arithmetic::div_mod::lemma_div_is_ordered(i as int, n - 1, channels as int);
        }
        let byte = row[i];
        let masked = !valid[i / channels];
        let alpha_channel = skip_alpha && i % channels == channels - 1;
        let v = if masked || alpha_channel {
            byte
        } else {
            transform(byte)
        };
        out.push(v);
        i = i + 1;
    }
    Ok(out)
}

/// Applies the masked per-sample transform to row `row_index` of a TIFF
/// strip of rows of `row_len` samples, in place, gated by the mask's next
/// row (`None` if the mask has run out). The rest of the strip is left as it
/// was, and so is the whole strip on an error.
pub fn transform_strip_row_masked<F: Fn(u8) -> u8>(
    strip: &mut Vec<u8>,
    row_index: usize,
    row_len: usize,
    channels: usize,
    skip_alpha: bool,
    mask_row: Option<Vec<u8>>,
    mask_channels: usize,
    mask_excludes_white: bool,
    transform: &F,
) -> (r: Result<(), ProcessError>)
    requires
        channels > 0,
        mask_channels > 0,
        (row_index + 1) * row_len <= old(strip)@.len(),
        forall|x: u8| transform.requires((x,)),
        mask_row is Some ==> mask_covers(
            row_len as int,
            channels as int,
            mask_row.unwrap()@.len() as int,
            mask_channels as int,
        ),
    ensures
        final(strip)@.len() == old(strip)@.len(),
        mask_row is None ==> is_invalid_input(r, mask_source_ended_message()) && final(strip)@ == old(
            strip,
        )@,
        mask_row is Some ==> r is Ok && final(strip)@.subrange(0, row_index * row_len) == old(
            strip,
        )@.subrange(0, row_index * row_len) && final(strip)@.subrange(
            (row_index + 1) * row_len,
            old(strip)@.len() as int,
        ) == old(strip)@.subrange((row_index + 1) * row_len, old(strip)@.len() as int)
            && masked_transformed_bytes(
            old(strip)@.subrange(row_index * row_len, (row_index + 1) * row_len),
            channels as int,
            skip_alpha,
            spec_mask_row_to_valid(mask_row.unwrap()@, mask_channels as int, mask_excludes_white),
            final(strip)@.subrange(row_index * row_len, (row_index + 1) * row_len),
            *transform,
        ),
{
    let ghost start = strip@;
    let len = strip.len();
    assert(row_index * row_len + row_len == (row_index + 1) * row_len) by (nonlinear_arith);
    let begin = row_index * row_len;
    let mut row: Vec<u8> = Vec::new();
    let mut i: usize = 0;
    while i < row_len
        invariant
            begin + row_len <= strip@.len(),
            len == strip@.len(),
            strip@ == start,
            i <= row_len,
            row@ == start.subrange(begin as int, begin + i),
        decreases row_len - i,
    {
        row.push(strip[begin + i]);
        i = i + 1;
        assert(row@ =~= start.subrange(begin as int, begin + i));
    }
    let out = match pointwise_row_masked(
        row.as_slice(),
        channels,
        skip_alpha,
        mask_row,
        mask_channels,
        mask_excludes_white,
        transform,
    ) {
        Ok(out) => out,
        Err(e) => return Err(e),
    };
    let mut i: usize = 0;
    while i < row_len
        invariant
            begin + row_len <= start.len(),
            len == start.len(),
            out@.len() == row_len,
            strip@.len() == start.len(),
            i <= row_len,
            forall|j: int|
                0 <= j < start.len() ==> #[trigger] strip@[j] == if begin <= j < begin + i {
                    out@[j - begin]
                } else {
                    start[j]
                },
        decreases row_len - i,
    {
        strip.set(begin + i, out[i]);
        i = i + 1;
    }
    assert(strip@.subrange(0, begin as int) =~= start.subrange(0, begin as int));
    assert(strip@.subrange(begin + row_len, start.len() as int) =~= start.subrange(
        begin + row_len,
        start.len() as int,
    ));
    assert(strip@.subrange(begin as int, begin + row_len) =~= out@);
    Ok(())
}

/// Applies a per-sample transform to a fully decoded RGBA image, gated per
/// pixel by an RGBA mask image read from its first channel, and skipping
/// alpha when `alpha_exempt` is set. An error if the mask's size differs
/// from the image's.
pub fn buffered_fallback_masked<F: Fn(u8) -> u8>(
    input: &str,
    mask: &str,
    img: &RgbaBuffer,
    mask_img: &RgbaBuffer,
    mask_excludes_white: bool,
    alpha_exempt: bool,
    transform: &F,
) -> (r: Result<RgbaBuffer, ProcessError>)
    requires
        img.wf(),
        mask_img.wf(),
        forall|x: u8| transform.requires((x,)),
    ensures
        !(mask_img.width == img.width && mask_img.height == img.height) ==> is_invalid_input(
            r,
            image_mask_size_message(
                mask@,
                mask_img.width,
                mask_img.height,
                input@,
                img.width,
                img.height,
            ),
        ),
        (mask_img.width == img.width && mask_img.height == img.height) ==> (r matches Ok(out)
            && out.wf() && out.width == img.width && out.height == img.height
            && masked_transformed_bytes(
            img.pixels@,
            4,
            alpha_exempt,
            spec_mask_row_to_valid(mask_img.pixels@, 4, mask_excludes_white),
            out.pixels@,
            *transform,
        )),
{
    match check_mask_size(mask, mask_img.width, mask_img.height, input, img.width, img.height) {
        Ok(()) => {},
        Err(e) => return Err(e),
    }
    let n = img.pixels.len();
    assert(mask_covers(n as int, 4, mask_img.pixels@.len() as int, 4)) by (nonlinear_arith)
        requires
            n == mask_img.pixels@.len(),
    ;
    match pointwise_row_masked(
        img.pixels.as_slice(),
        4,
        alpha_exempt,
        Some(mask_img.pixels.clone()),
        4,
        mask_excludes_white,
        transform,
    ) {
        Ok(pixels) => Ok(RgbaBuffer { width: img.width, height: img.height, pixels }),
        Err(e) => Err(e),
    }
}

} // verus!
