use texture_processor::bytes::{invert_byte, multiply_byte};

#[test]
fn multiply_byte_treats_255_as_identity_and_0_as_absorbing() {
    assert_eq!(multiply_byte(200, 255), 200);
    assert_eq!(multiply_byte(200, 0), 0);
    assert_eq!(multiply_byte(255, 255), 255);
    assert_eq!(multiply_byte(128, 128), 64);
}

#[test]
fn invert_byte_twice_is_identity() {
    for b in 0..=255u8 {
        assert_eq!(invert_byte(invert_byte(b)), b);
    }
    assert_eq!(invert_byte(0), 255);
    assert_eq!(invert_byte(200), 55);
}
