use acas_stitch::{ParsingError, StitchingOrder, StitchingQuality};
use acas_stitch::Rotation;
use acas_stitch::stitch::{stitch, stitch_allowed};

fn unturned(width: usize, height: usize) -> Rotation {
    let mut sources = Vec::new();
    for y in 0..height {
        for x in 0..width {
            sources.push((x as i64, y as i64));
        }
    }
    Rotation { width, height, sources }
}

fn opaque_source() -> Vec<u8> {
    let mut image = Vec::new();
    for i in 0..16u8 {
        image.extend_from_slice(&[i, 100 + i, 200, 255]);
    }
    image
}

fn opaque_appendage() -> Vec<u8> {
    vec![1, 1, 1, 255, 2, 2, 2, 255, 3, 3, 3, 255, 4, 4, 4, 255]
}

#[test]
fn opaque_appendage_on_top_overrides_the_source() {
    let src = opaque_source();
    let app = opaque_appendage();
    let (w, h, out) = stitch(
        &src,
        &app,
        &[0u8, 0, 0, 0],
        4,
        (4, 4),
        (0, 0),
        (2, 2),
        &unturned(2, 2),
        (0, 0),
        StitchingOrder::AppendageOnTop,
        StitchingQuality::Fast,
    )
    .unwrap();
    assert_eq!((w, h), (4, 4));
    assert_eq!(out.len(), 64);
    for y in 0..4 {
        for x in 0..4 {
            let at = (y * 4 + x) * 4;
            if x < 2 && y < 2 {
                let from = (y * 2 + x) * 4;
                assert_eq!(&out[at..at + 4], &app[from..from + 4]);
            } else {
                assert_eq!(&out[at..at + 4], &src[at..at + 4]);
            }
        }
    }
}

#[test]
fn opaque_source_on_top_hides_the_appendage() {
    let src = opaque_source();
    let app = opaque_appendage();
    let result = stitch(
        &src,
        &app,
        &[0u8, 0, 0, 0],
        4,
        (4, 4),
        (0, 0),
        (2, 2),
        &unturned(2, 2),
        (0, 0),
        StitchingOrder::SourceOnTop,
        StitchingQuality::Fast,
    );
    assert_eq!(result, Ok((4, 4, src)));
}

#[test]
fn canvas_grows_to_hold_both_images() {
    // source 2x1 with its anchor at its right end, appendage 1x2 with its
    // anchor below its last row
    let src: Vec<u8> = vec![10, 255, 20, 255];
    let app: Vec<u8> = vec![30, 255, 40, 255];
    let (w, h, out) = stitch(
        &src,
        &app,
        &[0u8, 0],
        2,
        (2, 1),
        (2, 0),
        (1, 2),
        &unturned(1, 2),
        (0, 2),
        StitchingOrder::AppendageOnTop,
        StitchingQuality::Fast,
    )
    .unwrap();
    assert_eq!((w, h), (3, 3));
    let expected: Vec<u8> = vec![
        0, 0, 0, 0, 30, 255, //
        0, 0, 0, 0, 40, 255, //
        10, 255, 20, 255, 0, 0,
    ];
    assert_eq!(out, expected);
}

#[test]
fn half_clear_appendage_is_mixed_with_what_lies_below() {
    let src: Vec<u8> = vec![0, 255, 200, 255];
    let app: Vec<u8> = vec![255, 128];
    let on_top = stitch(
        &src,
        &app,
        &[0u8, 0],
        2,
        (2, 1),
        (1, 0),
        (1, 1),
        &unturned(1, 1),
        (0, 0),
        StitchingOrder::AppendageOnTop,
        StitchingQuality::Fast,
    );
    // 255 * 128 / 255 + 200 * 127 / 255 = 128 + 99.6
    assert_eq!(on_top, Ok((2, 1, vec![0, 255, 228, 128])));
    let below = stitch(
        &src,
        &app,
        &[0u8, 0],
        2,
        (2, 1),
        (1, 0),
        (1, 1),
        &unturned(1, 1),
        (0, 0),
        StitchingOrder::SourceOnTop,
        StitchingQuality::Fast,
    );
    assert_eq!(below, Ok((2, 1, vec![0, 255, 200, 255])));
}

#[test]
fn appendage_over_empty_canvas_is_mixed_with_the_empty_pixel() {
    let src: Vec<u8> = vec![50, 255];
    let app: Vec<u8> = vec![100, 51];
    let result = stitch(
        &src,
        &app,
        &[200u8, 0],
        2,
        (1, 1),
        (1, 0),
        (1, 1),
        &unturned(1, 1),
        (0, 0),
        StitchingOrder::AppendageOnTop,
        StitchingQuality::Fast,
    );
    // 100 * 51 / 255 + 200 * 204 / 255 = 20 + 160
    assert_eq!(result, Ok((2, 1, vec![50, 255, 180, 0])));
}

#[test]
fn fancy_quality_rotates_at_eight_times_the_size() {
    let src = opaque_source();
    let app = opaque_appendage();
    let (w, h, out) = stitch(
        &src,
        &app,
        &[0u8, 0, 0, 0],
        4,
        (4, 4),
        (1, 1),
        (2, 2),
        &unturned(16, 16),
        (0, 0),
        StitchingOrder::AppendageOnTop,
        StitchingQuality::Fancy,
    )
    .unwrap();
    assert_eq!((w, h), (4, 4));
    for y in 0..4 {
        for x in 0..4 {
            let at = (y * 4 + x) * 4;
            if (1..3).contains(&x) && (1..3).contains(&y) {
                let from = ((y - 1) * 2 + (x - 1)) * 4;
                assert_eq!(&out[at..at + 4], &app[from..from + 4]);
            } else {
                assert_eq!(&out[at..at + 4], &src[at..at + 4]);
            }
        }
    }
}

#[test]
fn stitch_rejects_an_empty_appendage() {
    let src = opaque_source();
    let none: Vec<u8> = Vec::new();
    for quality in [StitchingQuality::Fast, StitchingQuality::Fancy] {
        let result = stitch(
            &src,
            &none,
            &[0u8, 0, 0, 0],
            4,
            (4, 4),
            (0, 0),
            (2, 2),
            &unturned(2, 2),
            (0, 0),
            StitchingOrder::AppendageOnTop,
            quality,
        );
        assert_eq!(result, Err(ParsingError::EmptyBufferError));
    }
}

#[test]
fn stitch_rejects_an_appendage_of_the_wrong_length() {
    let src = opaque_source();
    let app = opaque_appendage();
    for quality in [StitchingQuality::Fast, StitchingQuality::Fancy] {
        let result = stitch(
            &src,
            &app[..15],
            &[0u8, 0, 0, 0],
            4,
            (4, 4),
            (0, 0),
            (2, 2),
            &unturned(2, 2),
            (0, 0),
            StitchingOrder::SourceOnTop,
            quality,
        );
        assert_eq!(result, Err(ParsingError::BufferSizeMismatch));
    }
}

#[test]
fn stitch_rejects_a_bad_source() {
    let app = opaque_appendage();
    let src = opaque_source();
    let none: Vec<u8> = Vec::new();
    let empty_src = stitch(
        &none,
        &app,
        &[0u8, 0, 0, 0],
        4,
        (4, 4),
        (0, 0),
        (2, 2),
        &unturned(2, 2),
        (0, 0),
        StitchingOrder::AppendageOnTop,
        StitchingQuality::Fast,
    );
    assert_eq!(empty_src, Err(ParsingError::EmptyBufferError));
    let short_src = stitch(
        &src[..60],
        &app,
        &[0u8, 0, 0, 0],
        4,
        (4, 4),
        (0, 0),
        (2, 2),
        &unturned(2, 2),
        (0, 0),
        StitchingOrder::AppendageOnTop,
        StitchingQuality::Fast,
    );
    assert_eq!(short_src, Err(ParsingError::BufferSizeMismatch));
    let both_bad = stitch(
        &none,
        &app[..3],
        &[0u8, 0, 0, 0],
        4,
        (4, 4),
        (0, 0),
        (2, 2),
        &unturned(2, 2),
        (0, 0),
        StitchingOrder::AppendageOnTop,
        StitchingQuality::Fast,
    );
    assert_eq!(both_bad, Err(ParsingError::BufferSizeMismatch));
}

#[test]
fn stitch_is_allowed_with_anchors_inside_the_images() {
    let src = opaque_source();
    let app = opaque_appendage();
    let empty = [0u8, 0, 0, 0];
    let turn = unturned(2, 2);
    let fast = StitchingQuality::Fast;
    assert!(stitch_allowed(&src, &app, &empty, 4, (4, 4), (0, 0), (2, 2), &turn, (0, 0), fast));
    assert!(stitch_allowed(&src, &app, &empty, 4, (4, 4), (4, 4), (2, 2), &turn, (2, 2), fast));
    assert!(!stitch_allowed(&src, &app, &empty, 4, (4, 4), (5, 0), (2, 2), &turn, (0, 0), fast));
    assert!(!stitch_allowed(&src, &app, &empty, 4, (4, 4), (0, 0), (2, 2), &turn, (0, 3), fast));
    assert!(!stitch_allowed(&src, &app, &empty[..3], 4, (4, 4), (0, 0), (2, 2), &turn, (0, 0), fast));
    assert!(stitch_allowed(&src, &app[..3], &empty[..3], 4, (4, 4), (9, 9), (2, 2), &turn, (0, 0), fast));
    assert!(stitch_allowed(&src[..3], &app, &empty, 4, (4, 4), (9, 9), (2, 2), &turn, (0, 0), fast));
    let fancy = StitchingQuality::Fancy;
    let turn8 = unturned(16, 16);
    assert!(stitch_allowed(&src, &app, &empty, 4, (4, 4), (0, 0), (2, 2), &turn8, (2, 2), fancy));
    assert!(!stitch_allowed(&src, &app, &empty, 4, (4, 4), (0, 0), (2, 2), &turn8, (3, 0), fancy));
}

#[test]
fn stitch_mixes_channels_of_every_width() {
    let src: Vec<u128> = vec![1, u128::MAX];
    let app: Vec<u128> = vec![3, u128::MAX];
    let turn = unturned(1, 1);
    let fast = StitchingQuality::Fast;
    let empty = [0u128, 0];
    assert!(stitch_allowed(&src, &app, &empty, 2, (1, 1), (0, 0), (1, 1), &turn, (0, 0), fast));
    let result = stitch(
        &src,
        &app,
        &empty,
        2,
        (1, 1),
        (0, 0),
        (1, 1),
        &turn,
        (0, 0),
        StitchingOrder::AppendageOnTop,
        fast,
    );
    assert_eq!(result, Ok((1, 1, vec![3, u128::MAX])));
}
