use vstd::prelude::*;

verus! {

/// The eight bytes every PNG file starts with.
pub open spec fn png_signature() -> Seq<u8> {
    seq![0x89u8, 0x50u8, 0x4Eu8, 0x47u8, 0x0Du8, 0x0Au8, 0x1Au8, 0x0Au8]
}

/// Whether the first bytes of a file (as many as could be read, up to
/// eight) are the PNG signature.
pub fn is_png_header(header: &[u8]) -> (r: bool)
    ensures
        r == (header@.len() >= 8 && header@.subrange(0, 8) == png_signature()),
{
    if header.len() < 8 {
        return false;
    }
    let r = header[0] == 0x89 && header[1] == 0x50 && header[2] == 0x4E && header[3] == 0x47
        && header[4] == 0x0D && header[5] == 0x0A && header[6] == 0x1A && header[7] == 0x0A;
    assert(r == (header@.subrange(0, 8) =~= png_signature()));
    r
}

/// Whether the first bytes of a file (as many as could be read, up to
/// four) are a TIFF header: `II*\0` (little-endian) or `MM\0*`
/// (big-endian).
pub fn is_tiff_header(header: &[u8]) -> (r: bool)
    ensures
        r == (header@.len() >= 4 && (header@.subrange(0, 4) == seq![0x49u8, 0x49u8, 0x2Au8, 0x00u8]
            || header@.subrange(0, 4) == seq![0x4Du8, 0x4Du8, 0x00u8, 0x2Au8])),
{
    if header.len() < 4 {
        return false;
    }
    let little = header[0] == 0x49 && header[1] == 0x49 && header[2] == 0x2A && header[3] == 0x00;
    let big = header[0] == 0x4D && header[1] == 0x4D && header[2] == 0x00 && header[3] == 0x2A;
    assert(little == (header@.subrange(0, 4) =~= seq![0x49u8, 0x49u8, 0x2Au8, 0x00u8]));
    assert(big == (header@.subrange(0, 4) =~= seq![0x4Du8, 0x4Du8, 0x00u8, 0x2Au8]));
    little || big
}

} // verus!
