use acas_stitch::error::ParsingError;
use acas_stitch::image::holds_image;
use acas_stitch::quality::{fancy_rotate, fancy_rotate_allowed};
use acas_stitch::rotate::{fast_rotate, fast_rotate_allowed, Rotation};

fn frame_for(width: usize, height: usize, angle: f64) -> (f64, f64) {
    let widthf = width as f64;
    let heightf = height as f64;
    let diag_length = (widthf.powf(2.0) + heightf.powf(2.0)).sqrt();
    let diag_angle = (heightf / widthf).atan();
    let angle_1 = diag_angle + angle;
    let angle_2 = -diag_angle + angle;
    (
        (f64::max(angle_1.cos().abs(), angle_2.cos().abs()) * diag_length).round(),
        (f64::max(angle_1.sin().abs(), angle_2.sin().abs()) * diag_length).round(),
    )
}

fn rotation_for(width: usize, height: usize, angle: f64) -> Rotation {
    let (new_width, new_height) = frame_for(width, height, angle);
    let (sin, cos) = (angle.sin(), angle.cos());
    let frame_width = new_width as usize;
    let frame_height = new_height as usize;
    let mut sources = Vec::new();
    for y in 0..frame_height {
        for x in 0..frame_width {
            let px = x as f64 + 0.5 - new_width / 2.0;
            let py = y as f64 + 0.5 - new_height / 2.0;
            let sx = (px * cos - py * sin + width as f64 / 2.0 - 0.5).round();
            let sy = (px * sin + py * cos + height as f64 / 2.0 - 0.5).round();
            sources.push((sx as i64, sy as i64));
        }
    }
    Rotation { width: frame_width, height: frame_height, sources }
}

fn still(width: usize, height: usize) -> Rotation {
    let mut sources = Vec::new();
    for y in 0..height {
        for x in 0..width {
            sources.push((x as i64, y as i64));
        }
    }
    Rotation { width, height, sources }
}

fn four_colours() -> Vec<u8> {
    vec![255, 0, 0, 255, 0, 255, 0, 255, 0, 0, 255, 255, 255, 255, 0, 255]
}

#[test]
fn rotate_by_zero_radians_returns_the_image() {
    let image = four_colours();
    let rotation = rotation_for(2, 2, 0.0);
    let result = fast_rotate(&image, &[0u8, 0, 0, 0], 4, 2, 2, &rotation);
    assert_eq!(result, Ok((2, 2, image)));
}

#[test]
fn zero_angle_geometry_is_the_identity() {
    for (w, h) in [(1usize, 1usize), (2, 2), (3, 5), (7, 4), (16, 16), (31, 9)] {
        let rotation = rotation_for(w, h, 0.0);
        assert_eq!(rotation.width, w);
        assert_eq!(rotation.height, h);
        assert_eq!(rotation.sources, still(w, h).sources);
    }
}

#[test]
fn identity_rotation_keeps_every_pixel() {
    let image: Vec<u16> = (0..3 * 5 * 2).map(|v| v as u16 * 7).collect();
    let result = fast_rotate(&image, &[9u16, 9], 2, 3, 5, &still(3, 5));
    assert_eq!(result, Ok((3, 5, image)));
}

#[test]
fn rotate_copies_the_sampled_pixels() {
    let image: Vec<u8> = vec![1, 2, 3, 4, 5, 6];
    let rotation = Rotation { width: 2, height: 2, sources: vec![(2, 0), (0, 0), (1, 0), (0, 0)] };
    let result = fast_rotate(&image, &[0u8, 0], 2, 3, 1, &rotation);
    assert_eq!(result, Ok((2, 2, vec![5, 6, 1, 2, 3, 4, 1, 2])));
}

#[test]
fn rotate_fills_with_the_empty_pixel_outside_the_source() {
    let image: Vec<u8> = vec![1, 2, 3, 4];
    let rotation = Rotation {
        width: 3,
        height: 2,
        sources: vec![(-1, 0), (0, 0), (2, 0), (0, -1), (1, 0), (0, 1)],
    };
    let result = fast_rotate(&image, &[8u8, 9], 2, 2, 1, &rotation);
    assert_eq!(result, Ok((3, 2, vec![8, 9, 1, 2, 8, 9, 8, 9, 3, 4, 8, 9])));
}

#[test]
fn rotate_quarter_turn_swaps_the_dimensions() {
    let image: Vec<u8> = vec![1, 2, 3, 4, 5, 6];
    let rotation = rotation_for(3, 2, std::f64::consts::FRAC_PI_2);
    assert_eq!((rotation.width, rotation.height), (2, 3));
    let (w, h, out) = fast_rotate(&image, &[0u8], 1, 3, 2, &rotation).unwrap();
    assert_eq!((w, h), (2, 3));
    let mut sorted = out.clone();
    sorted.sort();
    assert_eq!(sorted, vec![1, 2, 3, 4, 5, 6]);
    assert_ne!(out, image);
}

#[test]
fn rotate_rejects_an_empty_buffer() {
    let image: Vec<u8> = Vec::new();
    let result = fast_rotate(&image, &[0u8], 1, 2, 2, &still(2, 2));
    assert_eq!(result, Err(ParsingError::EmptyBufferError));
    let result = fast_rotate(&image, &[0u8], 1, 0, 0, &still(0, 0));
    assert_eq!(result, Err(ParsingError::EmptyBufferError));
}

#[test]
fn rotate_rejects_a_buffer_of_the_wrong_length() {
    let image: Vec<u8> = vec![1, 2, 3];
    let result = fast_rotate(&image, &[0u8], 1, 2, 2, &still(2, 2));
    assert_eq!(result, Err(ParsingError::BufferSizeMismatch));
    let result = fast_rotate(&image, &[0u8], 1, usize::MAX, usize::MAX, &still(2, 2));
    assert_eq!(result, Err(ParsingError::BufferSizeMismatch));
    let result = fast_rotate(&image, &[0u8], 0, 2, 2, &still(2, 2));
    assert_eq!(result, Err(ParsingError::BufferSizeMismatch));
}

#[test]
fn fancy_rotate_rejects_bad_buffers() {
    let none: Vec<u8> = Vec::new();
    let rotation = still(16, 16);
    assert_eq!(fancy_rotate(&none, &[0u8], 1, 2, 2, &rotation), Err(ParsingError::EmptyBufferError));
    let short: Vec<u8> = vec![1, 2, 3];
    assert_eq!(fancy_rotate(&short, &[0u8], 1, 2, 2, &rotation), Err(ParsingError::BufferSizeMismatch));
}

#[test]
fn fancy_rotate_without_turning_returns_the_image() {
    let image = four_colours();
    let result = fancy_rotate(&image, &[0u8, 0, 0, 0], 4, 2, 2, &still(16, 16));
    assert_eq!(result, Ok((2, 2, image)));
}

#[test]
fn fancy_rotate_reduces_the_frame_by_eight() {
    let image: Vec<u8> = vec![7; 3 * 2];
    let rotation = rotation_for(24, 16, 0.3);
    let (w, h, out) = fancy_rotate(&image, &[0u8], 1, 3, 2, &rotation).unwrap();
    assert_eq!((w, h), (rotation.width / 8, rotation.height / 8));
    assert_eq!(out.len(), w * h);
    assert!(out.iter().all(|v| *v == 7 || *v == 0));
    assert!(out.iter().any(|v| *v == 7));
}

#[test]
fn rotation_takes_one_source_for_each_pixel() {
    assert!(Rotation::new(2, 2, vec![(0, 0); 4]).is_some());
    assert!(Rotation::new(2, 2, vec![(0, 0); 3]).is_none());
    assert!(Rotation::new(usize::MAX, 2, vec![(0, 0); 2]).is_none());
    let made = Rotation::new(1, 2, vec![(0, 1), (0, 0)]).unwrap();
    assert_eq!((made.width, made.height), (1, 2));
    assert_eq!(made.sources, vec![(0, 1), (0, 0)]);
}

#[test]
fn parsing_errors_describe_themselves() {
    assert_eq!(ParsingError::EmptyBufferError.message(), "Buffer is empty");
    assert_eq!(ParsingError::BufferSizeMismatch.message(), "Buffer is incomplete");
}

#[test]
fn fast_rotate_is_allowed_where_the_rotation_fits() {
    let image: Vec<u8> = vec![1, 2, 3, 4];
    assert!(fast_rotate_allowed(&image, &[0u8], 1, 2, 2, &still(2, 2)));
    assert!(!fast_rotate_allowed(&image, &[0u8, 0], 1, 2, 2, &still(2, 2)));
    let torn = Rotation { width: 2, height: 2, sources: vec![(0, 0); 3] };
    assert!(!fast_rotate_allowed(&image, &[0u8], 1, 2, 2, &torn));
    assert!(fast_rotate_allowed(&image, &[0u8, 0], 1, 3, 2, &torn));
    assert!(fast_rotate_allowed(&image[..0], &[0u8, 0], 1, 2, 2, &torn));
}

#[test]
fn fancy_rotate_is_allowed_where_the_rotation_fits() {
    let image: Vec<u8> = vec![1, 2, 3, 4];
    assert!(fancy_rotate_allowed(&image, &[0u8], 1, 2, 2, &still(16, 16)));
    assert!(fancy_rotate_allowed(&image, &[0u8], 1, 2, 2, &still(3, 3)));
    assert!(!fancy_rotate_allowed(&image, &[0u8, 0], 1, 2, 2, &still(16, 16)));
    assert!(fancy_rotate_allowed(&image, &[0u8, 0], 1, 2, 3, &still(16, 16)));
}

#[test]
fn rotation_is_ready_with_one_source_per_pixel() {
    assert!(still(3, 2).is_ready(4));
    assert!(!still(3, 2).is_ready(usize::MAX));
    assert!(still(3, 2).is_ready(0));
    let torn = Rotation { width: 2, height: 2, sources: vec![(0, 0); 5] };
    assert!(!torn.is_ready(1));
    let vast = Rotation { width: usize::MAX, height: 2, sources: Vec::new() };
    assert!(!vast.is_ready(1));
}

#[test]
fn holds_image_tells_valid_buffers() {
    let image: Vec<u8> = vec![1, 2, 3, 4, 5, 6];
    assert!(holds_image(&image, 1, 3, 2));
    assert!(holds_image(&image, 3, 2, 1));
    assert!(!holds_image(&image, 1, 3, 3));
    assert!(!holds_image(&image, 1, usize::MAX, 2));
    assert!(!holds_image(&image[..0], 1, 0, 0));
}
