use std::path::PathBuf;

use texture_processor::error::ProcessError;
use texture_processor::mask::{mask_byte_valid, mask_row_to_valid, MaskArgs};

#[test]
fn mask_byte_valid_splits_at_midpoint() {
    // --black-mask: black pixels are excluded.
    assert!(!mask_byte_valid(0, false));
    assert!(!mask_byte_valid(127, false));
    assert!(mask_byte_valid(128, false));
    assert!(mask_byte_valid(255, false));
    // --white-mask: white pixels are excluded.
    assert!(mask_byte_valid(0, true));
    assert!(mask_byte_valid(127, true));
    assert!(!mask_byte_valid(128, true));
    assert!(!mask_byte_valid(255, true));
}

#[test]
fn mask_colors_are_complementary() {
    for b in 0..=255u8 {
        assert_eq!(mask_byte_valid(b, true), !mask_byte_valid(b, false));
    }
}

#[test]
fn mask_row_reads_first_channel_of_each_pixel() {
    let row = [0u8, 255, 255, 255, 200, 0, 0, 0, 10, 10];
    assert_eq!(mask_row_to_valid(&row, 4, false), vec![false, true, false]);
    assert_eq!(mask_row_to_valid(&row, 4, true), vec![true, false, true]);
    assert_eq!(mask_row_to_valid(&row, 1, false).len(), 10);
    assert_eq!(mask_row_to_valid(&[], 3, false), Vec::<bool>::new());
}

#[test]
fn resolve_picks_the_given_flag() {
    let none = MaskArgs { white_mask: None, black_mask: None };
    assert!(matches!(none.resolve(), Ok(None)));

    let white = MaskArgs { white_mask: Some(PathBuf::from("w.png")), black_mask: None };
    let spec = white.resolve().unwrap().unwrap();
    assert!(spec.excludes_white);
    assert_eq!(spec.path, &PathBuf::from("w.png"));

    let black = MaskArgs { white_mask: None, black_mask: Some(PathBuf::from("b.png")) };
    let spec = black.resolve().unwrap().unwrap();
    assert!(!spec.excludes_white);
    assert_eq!(spec.path, &PathBuf::from("b.png"));
}

#[test]
fn resolve_rejects_both_flags() {
    let both = MaskArgs {
        white_mask: Some(PathBuf::from("w.png")),
        black_mask: Some(PathBuf::from("b.png")),
    };
    match both.resolve() {
        Err(ProcessError::InvalidInput(m)) => {
            assert_eq!(m, "`--white-mask` and `--black-mask` are mutually exclusive")
        }
        _ => panic!("expected an error"),
    }
}
