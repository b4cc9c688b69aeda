use texture_processor::concat::{
    buffered_concat, concat_row_encoding, extract_role, open_all_row_sources, role_channel, role_index,
    stream_concat, DecodedSource, Role,
};
use texture_processor::error::ProcessError;
use texture_processor::format::TextureFormat;
use texture_processor::layout::{PngColor, RgbaBuffer, RowEncoding, SourceLayout, TiffColor};

fn message<T>(r: Result<T, ProcessError>) -> String {
    match r {
        Err(ProcessError::InvalidInput(m)) => m,
        Ok(_) => panic!("expected an error"),
    }
}

fn layout(width: u32, height: u32, channels: usize, is_gray: bool, has_alpha: bool) -> SourceLayout {
    SourceLayout { width, height, channels, is_gray, has_alpha }
}

/// Row `y` of the 17x5 RGBA test image (x*7, y*23, x+y, x*y % 256).
fn test_row(y: u32) -> Vec<u8> {
    let mut row = Vec::new();
    for x in 0..17u32 {
        row.extend([(x * 7) as u8, (y * 23) as u8, (x + y) as u8, ((x * y) % 256) as u8]);
    }
    row
}

#[test]
fn role_indices_and_flags() {
    assert_eq!(role_index(Role::Red), 0);
    assert_eq!(role_index(Role::Green), 1);
    assert_eq!(role_index(Role::Blue), 2);
    assert_eq!(role_index(Role::Alpha), 3);
    assert_eq!(Role::Alpha.flag_name(), "alpha");
    assert_eq!(Role::Red.flag_name(), "red");
}

#[test]
fn role_channels_follow_color_type() {
    assert_eq!(role_channel(true, false, Role::Green).unwrap(), 0);
    assert_eq!(role_channel(true, false, Role::Alpha).unwrap(), 0);
    assert_eq!(role_channel(true, true, Role::Alpha).unwrap(), 3);
    assert_eq!(role_channel(false, false, Role::Blue).unwrap(), 2);
    assert_eq!(role_channel(false, true, Role::Alpha).unwrap(), 3);
    assert_eq!(
        message(role_channel(false, false, Role::Alpha)),
        "`--alpha` source has no alpha channel to extract (pass an RGBA/grayscale+alpha image, or omit `--alpha` for RGB output)"
    );
}

#[test]
fn extract_role_reads_one_sample_per_pixel() {
    let ga = layout(3, 1, 2, true, true);
    let row = [10u8, 1, 20, 2, 30, 3];
    assert_eq!(extract_role(ga, &row, Role::Red).unwrap(), vec![10, 20, 30]);
    assert_eq!(extract_role(ga, &row, Role::Alpha).unwrap(), vec![1, 2, 3]);
    let rgb = layout(2, 1, 3, false, false);
    assert_eq!(extract_role(rgb, &[1, 2, 3, 4, 5, 6], Role::Blue).unwrap(), vec![3, 6]);
}

#[test]
fn streamed_concat_reproduces_source_when_all_roles_match() {
    let l = layout(17, 5, 4, false, true);
    for y in 0..5 {
        let row = test_row(y);
        let mut out = vec![0u8; 17 * 4];
        for role in [Role::Red, Role::Green, Role::Blue, Role::Alpha] {
            stream_concat(&mut out, 4, role, l, Some(row.clone())).unwrap();
        }
        assert_eq!(out, row);
    }
}

#[test]
fn streamed_grayscale_sources_fill_rgb_with_their_only_channel() {
    let l = layout(9, 4, 1, true, false);
    for y in 0..4u32 {
        let row: Vec<u8> = (0..9u32).map(|x| (x * 11 + y * 3) as u8).collect();
        let mut out = vec![0u8; 9 * 3];
        for role in [Role::Red, Role::Green, Role::Blue] {
            stream_concat(&mut out, 3, role, l, Some(row.clone())).unwrap();
        }
        for x in 0..9 {
            assert_eq!(&out[x * 3..x * 3 + 3], &[row[x], row[x], row[x]]);
        }
    }
}

#[test]
fn streamed_alpha_role_without_alpha_source_is_rejected() {
    let l = layout(4, 4, 3, false, false);
    let mut out = vec![7u8; 16];
    let r = stream_concat(&mut out, 4, Role::Alpha, l, Some(vec![0u8; 12]));
    assert!(matches!(r, Err(ProcessError::InvalidInput(_))));
    assert_eq!(out, vec![7u8; 16]);
}

#[test]
fn streamed_source_running_out_is_reported() {
    let l = layout(1, 1, 1, true, false);
    let mut out = vec![0u8; 3];
    assert_eq!(
        message(stream_concat(&mut out, 3, Role::Green, l, None)),
        "`--green` source ended before the others (all channel sources must be the same size)"
    );
}

#[test]
fn all_sources_open_when_sizes_match() {
    let sources = vec![
        (Role::Red, Some((layout(4, 4, 1, true, false), "r"))),
        (Role::Green, Some((layout(4, 4, 3, false, false), "g"))),
    ];
    let opened = open_all_row_sources(sources).unwrap().unwrap();
    assert_eq!(opened.len(), 2);
    assert_eq!(opened[1].0, Role::Green);
    assert_eq!(opened[1].1 .1, "g");
}

#[test]
fn unstreamable_source_falls_back() {
    let sources = vec![
        (Role::Red, Some((layout(4, 4, 1, true, false), 1))),
        (Role::Green, None),
    ];
    assert!(matches!(open_all_row_sources(sources), Ok(None)));
}

#[test]
fn mismatched_source_dimensions_are_rejected() {
    let sources = vec![
        (Role::Red, Some((layout(4, 4, 1, true, false), 1))),
        (Role::Green, Some((layout(8, 8, 1, true, false), 2))),
        (Role::Blue, Some((layout(4, 4, 1, true, false), 3))),
    ];
    assert_eq!(
        message(open_all_row_sources(sources)),
        "`--green` source is 8x8, but expected 4x4 to match the other channel sources"
    );
}

#[test]
fn buffered_concat_reproduces_source_when_all_roles_match() {
    let pixels: Vec<u8> = (0..6 * 5 * 4).map(|i| (i * 3) as u8).collect();
    let image = RgbaBuffer { width: 6, height: 5, pixels: pixels.clone() };
    let sources: Vec<DecodedSource> = [Role::Red, Role::Green, Role::Blue, Role::Alpha]
        .iter()
        .map(|&role| DecodedSource { role, is_gray: false, has_alpha: true, image: image.clone() })
        .collect();
    let out = buffered_concat(&sources).unwrap();
    assert_eq!((out.width, out.height), (6, 5));
    assert_eq!(out.pixels, pixels);
}

#[test]
fn buffered_concat_fills_missing_roles_with_zero_and_reads_gray() {
    // A grayscale image normalized to RGBA (luma repeated, alpha 255).
    let gray = RgbaBuffer { width: 2, height: 1, pixels: vec![9, 9, 9, 255, 4, 4, 4, 255] };
    let sources = vec![
        DecodedSource { role: Role::Blue, is_gray: true, has_alpha: false, image: gray.clone() },
        DecodedSource { role: Role::Alpha, is_gray: true, has_alpha: false, image: gray },
    ];
    let out = buffered_concat(&sources).unwrap();
    assert_eq!(out.pixels, vec![0, 0, 9, 9, 0, 0, 4, 4]);
}

#[test]
fn buffered_concat_errors() {
    let a = RgbaBuffer { width: 2, height: 1, pixels: vec![0; 8] };
    let b = RgbaBuffer { width: 1, height: 1, pixels: vec![0; 4] };
    let sources = vec![
        DecodedSource { role: Role::Red, is_gray: false, has_alpha: false, image: a.clone() },
        DecodedSource { role: Role::Alpha, is_gray: false, has_alpha: false, image: a.clone() },
        DecodedSource { role: Role::Blue, is_gray: false, has_alpha: false, image: b },
    ];
    // Sizes are checked before channels.
    assert_eq!(
        message(buffered_concat(&sources)),
        "`--blue` source is 1x1, but expected 2x1 to match the other channel sources"
    );
    let sources = vec![
        DecodedSource { role: Role::Red, is_gray: false, has_alpha: false, image: a.clone() },
        DecodedSource { role: Role::Alpha, is_gray: false, has_alpha: false, image: a },
    ];
    assert!(message(buffered_concat(&sources)).starts_with("`--alpha` source has no alpha channel"));
}

#[test]
fn concat_encoding_depends_on_alpha() {
    assert_eq!(concat_row_encoding(TextureFormat::Png, 4), RowEncoding::Png(PngColor::Rgba));
    assert_eq!(concat_row_encoding(TextureFormat::Png, 3), RowEncoding::Png(PngColor::Rgb));
    assert_eq!(concat_row_encoding(TextureFormat::Tiff, 4), RowEncoding::Tiff(TiffColor::Rgba8));
    assert_eq!(concat_row_encoding(TextureFormat::Tiff, 3), RowEncoding::Tiff(TiffColor::Rgb8));
}

#[test]
fn streamed_and_buffered_concat_pick_the_same_samples() {
    let layout = SourceLayout { width: 2, height: 1, channels: 2, is_gray: true, has_alpha: true };
    let row = vec![10u8, 200, 20, 100];
    // the same row normalized to RGBA, as the buffered path decodes it
    let rgba = RgbaBuffer { width: 2, height: 1, pixels: vec![10, 10, 10, 200, 20, 20, 20, 100] };
    let sources: Vec<DecodedSource> = [Role::Red, Role::Green, Role::Blue, Role::Alpha]
        .into_iter()
        .map(|role| DecodedSource { role, is_gray: true, has_alpha: true, image: rgba.clone() })
        .collect();
    let buffered = buffered_concat(&sources).unwrap();
    for (c, role) in [Role::Red, Role::Green, Role::Blue, Role::Alpha].into_iter().enumerate() {
        let streamed = extract_role(layout, &row, role).unwrap();
        let picked: Vec<u8> = (0..2).map(|x| buffered.pixels[x * 4 + c]).collect();
        assert_eq!(streamed, picked);
    }
}
