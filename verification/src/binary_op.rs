use vstd::prelude::*;

use crate::error::{is_invalid_input, ProcessError};
use crate::format::TextureFormat;
use crate::layout::{RgbaBuffer, SourceLayout};
use crate::mask::{mask_row_to_valid, pixel_count, spec_mask_byte_valid, spec_mask_row_to_valid};
use crate::text::{append_u32, decimal};

verus! {

/// `out` is `a` and `b` combined byte by byte: as long as the shorter of the
/// two, and each byte a result `combine` may give for the pair of bytes at
/// the same position.
pub open spec fn combined_bytes<F: Fn(u8, u8) -> u8>(
    a: Seq<u8>,
    b: Seq<u8>,
    out: Seq<u8>,
    combine: F,
) -> bool {
    &&& out.len() == if a.len() <= b.len() { a.len() } else { b.len() }
    &&& forall|i: int| 0 <= i < out.len() ==> combine.ensures((a[i], b[i]), #[trigger] out[i])
}

/// `out` is `a` and `b` combined byte by byte where the mask row marks a
/// pixel valid, and `a`'s byte passed through unchanged where it does not.
/// Byte `i` belongs to pixel `i / channels`.
pub open spec fn masked_combined_bytes<F: Fn(u8, u8) -> u8>(
    a: Seq<u8>,
    b: Seq<u8>,
    valid: Seq<bool>,
    channels: int,
    out: Seq<u8>,
    combine: F,
) -> bool {
    &&& out.len() == if a.len() <= b.len() { a.len() } else { b.len() }
    &&& forall|i: int|
        0 <= i < out.len() ==> if valid[i / channels] {
            combine.ensures((a[i], b[i]), #[trigger] out[i])
        } else {
            out[i] == a[i]
        }
}

/// A mask row with `mask_len` bytes of `mask_channels` bytes per pixel has a
/// pixel for every one of the first `n` bytes of an image row with `channels`
/// bytes per pixel.
pub open spec fn mask_covers(n: int, channels: int, mask_len: int, mask_channels: int) -> bool {
    n == 0 || (n - 1) / channels < pixel_count(mask_len, mask_channels)
}

/// Whether a mask row of `mask_len` bytes covers the first `n` bytes of an
/// image row (see `mask_covers`).
pub fn mask_covers_row(n: usize, channels: usize, mask_len: usize, mask_channels: usize) -> (r: bool)
    requires
        channels > 0,
        mask_channels > 0,
    ensures
        r == mask_covers(n as int, channels as int, mask_len as int, mask_channels as int),
{
    if n == 0 {
        return true;
    }
    let q = mask_len / mask_channels;
    let rem = mask_len % mask_channels;
    let k = (n - 1) / channels;
    let ghost pixels: int = q + if rem == 0 { 0int } else { 1int };
    assert(pixels == pixel_count(mask_len as int, mask_channels as int)) by (nonlinear_arith)
        requires
            mask_channels > 0,
            pixels == mask_len / mask_channels + if mask_len % mask_channels == 0 { 0int } else { 1int },
            mask_len >= 0,
    {
        let q = mask_len / mask_channels;
        let r = mask_len % mask_channels;
        assert(mask_len == q * mask_channels + r);
        assert(0 <= r < mask_channels);
        if r == 0 {
            assert((mask_len + mask_channels - 1) == q * mask_channels + (mask_channels - 1));
        } else {
            assert((mask_len + mask_channels - 1) == (q + 1) * mask_channels + (r - 1));
        }
    }
    k < q || (k == q && rem != 0)
}

/// Combines two byte rows position by position, up to the shorter one.
fn combine_bytes<F: Fn(u8, u8) -> u8>(a: &[u8], b: &[u8], combine: &F) -> (out: Vec<u8>)
    requires
        forall|x: u8, y: u8| combine.requires((x, y)),
    ensures
        combined_bytes(a@, b@, out@, *combine),
{
    let n = if a.len() <= b.len() { a.len() } else { b.len() };
    let mut out: Vec<u8> = Vec::new();
    let mut i: usize = 0;
    while i < n
        invariant
            n <= a.len(),
            n <= b.len(),
            n == if a.len() <= b.len() { a@.len() } else { b@.len() },
            i <= n,
            out@.len() == i,
            forall|x: u8, y: u8| combine.requires((x, y)),
            forall|j: int| 0 <= j < i ==> combine.ensures((a@[j], b@[j]), #[trigger] out@[j]),
        decreases n - i,
    {
        let v = combine(a[i], b[i]);
        out.push(v);
        i = i + 1;
    }
    out
}

/// The text of the error for two inputs of different sizes.
pub open spec fn pair_size_message(
    file1: Seq<char>,
    w1: u32,
    h1: u32,
    file2: Seq<char>,
    w2: u32,
    h2: u32,
    op_name: Seq<char>,
) -> Seq<char> {
    "`"@ + file1 + "` is "@ + decimal(w1 as nat) + "x"@ + decimal(h1 as nat) + ", but `"@ + file2
        + "` is "@ + decimal(w2 as nat) + "x"@ + decimal(h2 as nat)
        + " \u{2014} both images must be the same size to "@ + op_name
}

fn pair_size_error(
    file1: &str,
    w1: u32,
    h1: u32,
    file2: &str,
    w2: u32,
    h2: u32,
    op_name: &str,
) -> (e: ProcessError)
    ensures
        e matches ProcessError::InvalidInput(m) && m@ == pair_size_message(
            file1@,
            w1,
            h1,
            file2@,
            w2,
            h2,
            op_name@,
        ),
{
    let mut m = "`".to_owned();
    m.append(file1);
    m.append("` is ");
    append_u32(&mut m, w1);
    m.append("x");
    append_u32(&mut m, h1);
    m.append(", but `");
    m.append(file2);
    m.append("` is ");
    append_u32(&mut m, w2);
    m.append("x");
    append_u32(&mut m, h2);
    m.append(" \u{2014} both images must be the same size to ");
    m.append(op_name);
    ProcessError::InvalidInput(m)
}

/// The text of the error for a mask whose size differs from the images'.
pub open spec fn mask_size_message(mask: Seq<char>, mw: u32, mh: u32, w: u32, h: u32) -> Seq<char> {
    "mask `"@ + mask + "` is "@ + decimal(mw as nat) + "x"@ + decimal(mh as nat)
        + ", but the images being combined are "@ + decimal(w as nat) + "x"@ + decimal(h as nat)
        + " \u{2014} the mask must match their dimensions"@
}

fn mask_size_error(mask: &str, mw: u32, mh: u32, w: u32, h: u32) -> (e: ProcessError)
    ensures
        e matches ProcessError::InvalidInput(m) && m@ == mask_size_message(mask@, mw, mh, w, h),
{
    let mut m = "mask `".to_owned();
    m.append(mask);
    m.append("` is ");
    append_u32(&mut m, mw);
    m.append("x");
    append_u32(&mut m, mh);
    m.append(", but the images being combined are ");
    append_u32(&mut m, w);
    m.append("x");
    append_u32(&mut m, h);
    m.append(" \u{2014} the mask must match their dimensions");
    ProcessError::InvalidInput(m)
}

/// The text of the error for the first input running out of rows.
pub open spec fn first_ended_message() -> Seq<char> {
    "the first image ended before the second"@
}

/// The text of the error for the second input running out of rows.
pub open spec fn second_ended_message() -> Seq<char> {
    "the second image ended before the first"@
}

/// The text of the error for the mask running out of rows.
pub open spec fn mask_ended_message() -> Seq<char> {
    "the mask ended before the images"@
}

/// Decides whether two opened inputs can be combined on the streaming path.
/// `a`/`b` are the inputs opened as row sources (`None` for one that is not
/// PNG/TIFF-streamable), each with its layout and the handle it was opened
/// as. Gives `Ok(None)` (fall back to the buffered path) if either is
/// missing, if their channel layouts differ, or if the output is TIFF and the
/// layout is grayscale+alpha, which TIFF cannot hold; an error if their sizes
/// differ; and both inputs otherwise.
pub fn open_streamable_pair<T>(
    file1: &str,
    file2: &str,
    a: Option<(SourceLayout, T)>,
    b: Option<(SourceLayout, T)>,
    format: TextureFormat,
    op_name: &str,
) -> (r: Result<Option<((SourceLayout, T), (SourceLayout, T))>, ProcessError>)
    ensures
        (a is None || b is None) ==> r == Ok::<
            Option<((SourceLayout, T), (SourceLayout, T))>,
            ProcessError,
        >(None),
        (a is Some && b is Some) ==> {
            let (sa, sb) = (a.unwrap(), b.unwrap());
            if !sa.0.same_size(sb.0) {
                is_invalid_input(
                    r,
                    pair_size_message(
                        file1@,
                        sa.0.width,
                        sa.0.height,
                        file2@,
                        sb.0.width,
                        sb.0.height,
                        op_name@,
                    ),
                )
            } else if !sa.0.same_channels(sb.0) || (format == TextureFormat::Tiff
                && sa.0.channels == 2) {
                r == Ok::<Option<((SourceLayout, T), (SourceLayout, T))>, ProcessError>(None)
            } else {
                r == Ok::<Option<((SourceLayout, T), (SourceLayout, T))>, ProcessError>(
                    Some((sa, sb)),
                )
            }
        },
{
    let (sa, sb) = match (a, b) {
        (Some(sa), Some(sb)) => (sa, sb),
        _ => return Ok(None),
    };
    let (la, lb) = (sa.0, sb.0);
    if la.width != lb.width || la.height != lb.height {
        return Err(pair_size_error(file1, la.width, la.height, file2, lb.width, lb.height, op_name));
    }
    let same_layout = la.channels == lb.channels && la.is_gray == lb.is_gray && la.has_alpha
        == lb.has_alpha;
    let tiff_representable = match format {
        TextureFormat::Tiff => la.channels != 2,
        TextureFormat::Png => true,
    };
    if !same_layout || !tiff_representable {
        return Ok(None);
    }
    Ok(Some((sa, sb)))
}

/// Produces the next output row of a streamed binary operation from the
/// next rows of both inputs (`None` for an input that has run out):
/// the two rows combined byte by byte, every channel alike.
pub fn stream_binary_op<F: Fn(u8, u8) -> u8>(
    row_a: Option<Vec<u8>>,
    row_b: Option<Vec<u8>>,
    combine: &F,
) -> (r: Result<Vec<u8>, ProcessError>)
    requires
        forall|x: u8, y: u8| combine.requires((x, y)),
    ensures
        row_a is None ==> is_invalid_input(r, first_ended_message()),
        row_a is Some && row_b is None ==> is_invalid_input(r, second_ended_message()),
        (row_a is Some && row_b is Some) ==> (r matches Ok(out) && combined_bytes(
            row_a.unwrap()@,
            row_b.unwrap()@,
            out@,
            *combine,
        )),
{
    let ra = match row_a {
        Some(ra) => ra,
        None => {
            return Err(
                ProcessError::InvalidInput("the first image ended before the second".to_owned()),
            );
        },
    };
    let rb = match row_b {
        Some(rb) => rb,
        None => {
            return Err(
                ProcessError::InvalidInput("the second image ended before the first".to_owned()),
            );
        },
    };
    Ok(combine_bytes(ra.as_slice(), rb.as_slice(), combine))
}

/// Decides whether the mask can be streamed alongside an input pair that
/// `open_streamable_pair` accepted (`pair`; `None` if it did not, in which
/// case the mask is not opened and `m` is `None` too). `m` is the mask opened
/// as a row source (`None` if it is not PNG/TIFF-streamable). Gives
/// `Ok(None)` (fall back) if either is missing, an error if the mask's size
/// differs from the images', and all three otherwise. The mask's channel
/// layout need not match, since only its first channel is read.
pub fn open_streamable_masked_triple<T>(
    pair: Option<((SourceLayout, T), (SourceLayout, T))>,
    mask: &str,
    m: Option<(SourceLayout, T)>,
) -> (r: Result<Option<((SourceLayout, T), (SourceLayout, T), (SourceLayout, T))>, ProcessError>)
    ensures
        (pair is None || m is None) ==> r == Ok::<
            Option<((SourceLayout, T), (SourceLayout, T), (SourceLayout, T))>,
            ProcessError,
        >(None),
        (pair is Some && m is Some) ==> {
            let (p, sm) = (pair.unwrap(), m.unwrap());
            if !p.0.0.same_size(sm.0) {
                is_invalid_input(
                    r,
                    mask_size_message(mask@, sm.0.width, sm.0.height, p.0.0.width, p.0.0.height),
                )
            } else {
                r == Ok::<
                    Option<((SourceLayout, T), (SourceLayout, T), (SourceLayout, T))>,
                    ProcessError,
                >(Some((p.0, p.1, sm)))
            }
        },
{
    let (sa, sb) = match pair {
        Some(p) => p,
        None => return Ok(None),
    };
    let sm = match m {
        Some(sm) => sm,
        None => return Ok(None),
    };
    if sa.0.width != sm.0.width || sa.0.height != sm.0.height {
        return Err(mask_size_error(mask, sm.0.width, sm.0.height, sa.0.width, sa.0.height));
    }
    Ok(Some((sa, sb, sm)))
}

/// Produces the next output row of a streamed, masked binary operation from
/// the next rows of both inputs and of the mask (`None` for one that has run
/// out): where the mask's pixel is valid the two rows' bytes are combined,
/// elsewhere the first input's byte passes through unchanged.
pub fn stream_binary_op_masked<F: Fn(u8, u8) -> u8>(
    row_a: Option<Vec<u8>>,
    row_b: Option<Vec<u8>>,
    mask_row: Option<Vec<u8>>,
    mask_channels: usize,
    mask_excludes_white: bool,
    channels: usize,
    combine: &F,
) -> (r: Result<Vec<u8>, ProcessError>)
    requires
        channels > 0,
        mask_channels > 0,
        forall|x: u8, y: u8| combine.requires((x, y)),
        (row_a is Some && row_b is Some && mask_row is Some) ==> {
            let (ra, rb, mr) = (row_a.unwrap(), row_b.unwrap(), mask_row.unwrap());
            let n = if ra.len() <= rb.len() { ra.len() as int } else { rb.len() as int };
            mask_covers(n, channels as int, mr.len() as int, mask_channels as int)
        },
    ensures
        row_a is None ==> is_invalid_input(r, first_ended_message()),
        row_a is Some && row_b is None ==> is_invalid_input(r, second_ended_message()),
        row_a is Some && row_b is Some && mask_row is None ==> is_invalid_input(r, mask_ended_message()),
        (row_a is Some && row_b is Some && mask_row is Some) ==> (r matches Ok(out)
            && masked_combined_bytes(
            row_a.unwrap()@,
            row_b.unwrap()@,
            spec_mask_row_to_valid(mask_row.unwrap()@, mask_channels as int, mask_excludes_white),
            channels as int,
            out@,
            *combine,
        )),
{
    let ra = match row_a {
        Some(ra) => ra,
        None => {
            return Err(
                ProcessError::InvalidInput("the first image ended before the second".to_owned()),
            );
        },
    };
    let rb = match row_b {
        Some(rb) => rb,
        None => {
            return Err(
                ProcessError::InvalidInput("the second image ended before the first".to_owned()),
            );
        },
    };
    let mr = match mask_row {
        Some(mr) => mr,
        None => {
            return Err(ProcessError::InvalidInput("the mask ended before the images".to_owned()));
        },
    };
    let valid = mask_row_to_valid(mr.as_slice(), mask_channels, mask_excludes_white);
    let n = if ra.len() <= rb.len() { ra.len() } else { rb.len() };
    let mut out: Vec<u8> = Vec::new();
    let mut i: usize = 0;
    while i < n
        invariant
            n <= ra.len(),
            n <= rb.len(),
            n == if ra@.len() <= rb@.len() { ra@.len() } else { rb@.len() },
            channels > 0,
            n == 0 || (n - 1) / (channels as int) < valid@.len(),
            i <= n,
            out@.len() == i,
            forall|x: u8, y: u8| combine.requires((x, y)),
            forall|j: int|
                0 <= j < i ==> if valid@[j / (channels as int)] {
                    combine.ensures((ra@[j], rb@[j]), #[trigger] out@[j])
                } else {
                    out@[j] == ra@[j]
                },
        decreases n - i,
    {
        proof {
            vstd::arithmetic::div_mod::lemma_div_is_ordered(i as int, n - 1, channels as int);
        }
        let v = if valid[i / channels] {
            combine(ra[i], rb[i])
        } else {
            ra[i]
        };
        out.push(v);
        i = i + 1;
    }
    Ok(out)
}

/// Combines two fully decoded RGBA images byte by byte (every channel,
/// alpha included). An error if their sizes differ.
pub fn buffered_binary_op<F: Fn(u8, u8) -> u8>(
    file1: &str,
    file2: &str,
    img1: &RgbaBuffer,
    img2: &RgbaBuffer,
    op_name: &str,
    combine: &F,
) -> (r: Result<RgbaBuffer, ProcessError>)
    requires
        img1.wf(),
        img2.wf(),
        forall|x: u8, y: u8| combine.requires((x, y)),
    ensures
        (img1.width != img2.width || img1.height != img2.height) ==> is_invalid_input(r, pair_size_message(
            file1@,
            img1.width,
            img1.height,
            file2@,
            img2.width,
            img2.height,
            op_name@,
        )),
        (img1.width == img2.width && img1.height == img2.height) ==> (r matches Ok(out) && out.wf()
            && out.width == img1.width && out.height == img1.height && combined_bytes(
            img1.pixels@,
            img2.pixels@,
            out.pixels@,
            *combine,
        )),
{
    if img1.width != img2.width || img1.height != img2.height {
        return Err(
            pair_size_error(file1, img1.width, img1.height, file2, img2.width, img2.height, op_name),
        );
    }
    let pixels = combine_bytes(img1.pixels.as_slice(), img2.pixels.as_slice(), combine);
    Ok(RgbaBuffer { width: img1.width, height: img1.height, pixels })
}

/// Masked variant of `buffered_binary_op`: where the mask's pixel (read from
/// its first channel) is valid the pixel's four bytes are combined, elsewhere
/// the first image's pixel passes through unchanged. An error if the two
/// images' sizes differ, or the mask's differs from theirs.
pub fn buffered_binary_op_masked<F: Fn(u8, u8) -> u8>(
    file1: &str,
    file2: &str,
    mask: &str,
    img1: &RgbaBuffer,
    img2: &RgbaBuffer,
    mask_img: &RgbaBuffer,
    mask_excludes_white: bool,
    op_name: &str,
    combine: &F,
) -> (r: Result<RgbaBuffer, ProcessError>)
    requires
        img1.wf(),
        img2.wf(),
        mask_img.wf(),
        forall|x: u8, y: u8| combine.requires((x, y)),
    ensures
        (img1.width != img2.width || img1.height != img2.height) ==> is_invalid_input(r, pair_size_message(
            file1@,
            img1.width,
            img1.height,
            file2@,
            img2.width,
            img2.height,
            op_name@,
        )),
        (img1.width == img2.width && img1.height == img2.height && (mask_img.width != img1.width
            || mask_img.height != img1.height)) ==> is_invalid_input(r, mask_size_message(
            mask@,
            mask_img.width,
            mask_img.height,
            img1.width,
            img1.height,
        )),
        (img1.width == img2.width && img1.height == img2.height && mask_img.width == img1.width
            && mask_img.height == img1.height) ==> (r matches Ok(out) && out.wf() && out.width
            == img1.width && out.height == img1.height && masked_combined_bytes(
            img1.pixels@,
            img2.pixels@,
            spec_mask_row_to_valid(mask_img.pixels@, 4, mask_excludes_white),
            4,
            out.pixels@,
            *combine,
        )),
{
    if img1.width != img2.width || img1.height != img2.height {
        return Err(
            pair_size_error(file1, img1.width, img1.height, file2, img2.width, img2.height, op_name),
        );
    }
    if mask_img.width != img1.width || mask_img.height != img1.height {
        return Err(
            mask_size_error(mask, mask_img.width, mask_img.height, img1.width, img1.height),
        );
    }
    let n = img1.pixels.len();
    proof {
        assert(mask_covers(n as int, 4, mask_img.pixels@.len() as int, 4)) by (nonlinear_arith)
            requires
                n == mask_img.pixels@.len(),
        ;
    }
    let r = stream_binary_op_masked(
        Some(img1.pixels.clone()),
        Some(img2.pixels.clone()),
        Some(mask_img.pixels.clone()),
        4,
        mask_excludes_white,
        4,
        combine,
    );
    match r {
        Ok(pixels) => Ok(RgbaBuffer { width: img1.width, height: img1.height, pixels }),
        Err(e) => Err(e),
    }
}

} // verus!
