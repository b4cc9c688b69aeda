use vstd::prelude::*;

verus! {

/// The product of two bytes read as intensities in `[0, 1]` (`255` standing
/// for `1.0`), rounded down: `a * b / 255`.
pub open spec fn multiply_byte_spec(a: u8, b: u8) -> int {
    (a as int * b as int) / 255
}

/// Multiply blend of two bytes: `a * b / 255`, rounded down.
pub fn multiply_byte(a: u8, b: u8) -> (r: u8)
    ensures
        r as int == multiply_byte_spec(a, b),
{
    assert(0 <= a as int * b as int <= 255 * 255) by (nonlinear_arith)
        requires
            a <= 255,
            b <= 255,
    ;
    ((a as u16 * b as u16) / 255) as u8
}

/// Inverts a byte: `255 - byte`.
pub fn invert_byte(byte: u8) -> (r: u8)
    ensures
        r == 255 - byte,
{
    255 - byte
}

/// Subtracts `b` from `a`, clamping at `0` rather than wrapping: the
/// per-byte operation of `sub`.
pub fn subtract_byte(a: u8, b: u8) -> (r: u8)
    ensures
        r == if a >= b { a - b } else { 0 },
{
    a.saturating_sub(b)
}

/// Multiplying by `255` leaves a byte unchanged, multiplying by `0` gives
/// `0`, and the blend does not depend on the order of its two operands.
pub proof fn lemma_multiply_byte_identity_absorbing(a: u8, b: u8)
    ensures
        multiply_byte_spec(a, 255) == a,
        multiply_byte_spec(a, 0) == 0,
        multiply_byte_spec(a, b) == multiply_byte_spec(b, a),
        multiply_byte_spec(a, b) <= a,
        multiply_byte_spec(a, b) <= b,
{
    assert((a as int * 255) / 255 == a) by (nonlinear_arith);
    assert(a as int * b as int == b as int * a as int) by (nonlinear_arith);
    assert((a as int * b as int) / 255 <= a) by (nonlinear_arith)
        requires
            0 <= b <= 255,
            0 <= a,
    ;
    assert((a as int * b as int) / 255 <= b) by (nonlinear_arith)
        requires
            0 <= a <= 255,
            0 <= b,
    ;
}

/// Inverting twice gives back the original byte.
pub proof fn lemma_invert_byte_involution(byte: u8)
    ensures
        255 - (255 - byte) == byte,
{
}

} // verus!
