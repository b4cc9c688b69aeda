use std::path::PathBuf;

use vstd::prelude::*;

use crate::error::ProcessError;

verus! {

/// The two optional mask flags an operation accepts: a black & white mask
/// image whose white pixels (`white_mask`) or black pixels (`black_mask`)
/// are excluded from the operation. At most one of them may be given.
#[derive(Clone)]
pub struct MaskArgs {
    pub white_mask: Option<PathBuf>,
    pub black_mask: Option<PathBuf>,
}

impl Default for MaskArgs {
    fn default() -> (r: Self)
        ensures
            r.white_mask is None,
            r.black_mask is None,
    {
        MaskArgs { white_mask: None, black_mask: None }
    }
}

/// A resolved mask: which file, and which of its two colors is excluded.
#[derive(Clone, Copy)]
pub struct MaskSpec<'a> {
    pub path: &'a PathBuf,
    pub excludes_white: bool,
}

/// The text of the error for giving both mask flags at once.
pub open spec fn both_masks_message() -> Seq<char> {
    "`--white-mask` and `--black-mask` are mutually exclusive"@
}

impl MaskArgs {
    /// Resolves the two flags into a single `MaskSpec`, or `None` if neither
    /// was given. Errors if both were.
    pub fn resolve(&self) -> (r: Result<Option<MaskSpec<'_>>, ProcessError>)
        ensures
            (self.white_mask is Some && self.black_mask is Some) <==> (r is Err),
            r matches Err(ProcessError::InvalidInput(m)) ==> m@ == both_masks_message(),
            (self.white_mask is None && self.black_mask is None) <==> (r == Ok::<
                Option<MaskSpec<'_>>,
                ProcessError,
            >(None)),
            self.white_mask is Some && self.black_mask is None ==> r == Ok::<
                Option<MaskSpec<'_>>,
                ProcessError,
            >(Some(MaskSpec { path: &self.white_mask.unwrap(), excludes_white: true })),
            self.white_mask is None && self.black_mask is Some ==> r == Ok::<
                Option<MaskSpec<'_>>,
                ProcessError,
            >(Some(MaskSpec { path: &self.black_mask.unwrap(), excludes_white: false })),
    {
        match (&self.white_mask, &self.black_mask) {
            (Some(_), Some(_)) => Err(
                ProcessError::InvalidInput(
                    "`--white-mask` and `--black-mask` are mutually exclusive".to_owned(),
                ),
            ),
            (Some(path), None) => Ok(Some(MaskSpec { path, excludes_white: true })),
            (None, Some(path)) => Ok(Some(MaskSpec { path, excludes_white: false })),
            (None, None) => Ok(None),
        }
    }
}

/// Whether a mask byte counts as valid (not excluded): bytes at or above the
/// midpoint `128` read as white, the others as black, and the excluded color
/// is the invalid one.
pub open spec fn spec_mask_byte_valid(byte: u8, excludes_white: bool) -> bool {
    (byte >= 128) != excludes_white
}

/// Whether a mask byte counts as valid (not excluded), given which color was
/// designated the mask color.
pub fn mask_byte_valid(byte: u8, excludes_white: bool) -> (r: bool)
    ensures
        r == spec_mask_byte_valid(byte, excludes_white),
{
    (byte >= 128) != excludes_white
}

/// The number of pixels in a row of `len` bytes with `channels` bytes per
/// pixel, counting a trailing partial pixel as one.
pub open spec fn pixel_count(len: int, channels: int) -> int {
    (len + channels - 1) / channels
}

/// The validity flags of a decoded mask row, one per pixel, read from each
/// pixel's first channel.
pub open spec fn spec_mask_row_to_valid(mask_row: Seq<u8>, mask_channels: int, excludes_white: bool) -> Seq<bool> {
    Seq::new(
        pixel_count(mask_row.len() as int, mask_channels) as nat,
        |k: int| spec_mask_byte_valid(mask_row[k * mask_channels], excludes_white),
    )
}

/// Reduces one decoded mask row to a per-pixel validity flag using only the
/// first channel of each pixel.
pub fn mask_row_to_valid(mask_row: &[u8], mask_channels: usize, excludes_white: bool) -> (r: Vec<bool>)
    requires
        mask_channels > 0,
    ensures
        r@ == spec_mask_row_to_valid(mask_row@, mask_channels as int, excludes_white),
{
    let len = mask_row.len();
    let mut out: Vec<bool> = Vec::new();
    let mut i: usize = 0;
    if len == 0 {
        assert(pixel_count(0, mask_channels as int) == 0) by (nonlinear_arith)
            requires mask_channels > 0;
        assert(out@ =~= spec_mask_row_to_valid(mask_row@, mask_channels as int, excludes_white));
        return out;
    }
    assert(0 * mask_channels == 0) by (nonlinear_arith);
    loop
        invariant_except_break
            i == out.len() * mask_channels,
        invariant
            len == mask_row@.len(),
            mask_channels > 0,
            i < len,
            forall|k: int|
                0 <= k < out.len() ==> out@[k] == spec_mask_byte_valid(
                    #[trigger] mask_row@[k * mask_channels],
                    excludes_white,
                ),
        ensures
            i == (out.len() - 1) * mask_channels,
            out.len() >= 1,
            i < len,
            len <= i + mask_channels,
            forall|k: int|
                0 <= k < out.len() ==> out@[k] == spec_mask_byte_valid(
                    #[trigger] mask_row@[k * mask_channels],
                    excludes_white,
                ),
        decreases len - i,
    {
        let ghost n = out.len();
        out.push(mask_byte_valid(mask_row[i], excludes_white));
        assert(out@[n as int] == spec_mask_byte_valid(mask_row@[n * mask_channels], excludes_white));
        if len - i <= mask_channels {
            break;
        }
        assert((n + 1) * mask_channels == n * mask_channels + mask_channels) by (nonlinear_arith);
        i = i + mask_channels;
    }
    let n = out.len();
    assert(pixel_count(len as int, mask_channels as int) == n) by (nonlinear_arith)
        requires
            i == (n - 1) * mask_channels,
            n >= 1,
            i < len,
            len <= i + mask_channels,
            mask_channels > 0,
    ;
    assert(out@ =~= spec_mask_row_to_valid(mask_row@, mask_channels as int, excludes_white));
    out
}

/// Exactly one of the two mask colors is excluded: a byte valid under a
/// white mask is invalid under a black mask, and the other way round.
pub proof fn lemma_mask_colors_complement(byte: u8)
    ensures
        spec_mask_byte_valid(byte, true) == !spec_mask_byte_valid(byte, false),
        spec_mask_byte_valid(byte, false) == (byte >= 128),
{
}

} // verus!
