use acas_stitch::downscale::{downscale, find_mode};
use acas_stitch::upscale::{apply_scale2x_block, copy_to_vec, upscale};

fn pixel_of(image: &[u8], width: usize, x: usize, y: usize) -> u8 {
    image[y * width + x]
}

fn clamp_down(v: usize) -> usize {
    if v > 0 { v - 1 } else { v }
}

fn clamp_up(v: usize, limit: usize) -> usize {
    if v + 1 < limit { v + 1 } else { v }
}

fn images_3x3(palette: u8) -> Vec<Vec<u8>> {
    let mut all = Vec::new();
    let mut count = 1usize;
    for _ in 0..9 {
        count *= palette as usize;
    }
    for n in 0..count {
        let mut image = Vec::new();
        let mut rest = n;
        for _ in 0..9 {
            image.push((rest % palette as usize) as u8);
            rest /= palette as usize;
        }
        all.push(image);
    }
    all
}

#[test]
fn upscale_doubles_a_uniform_image() {
    let image: Vec<u8> = vec![5, 6, 5, 6, 5, 6, 5, 6];
    let (w, h, out) = upscale(&image, 2, 2, 2);
    assert_eq!((w, h), (4, 4));
    assert_eq!(out, [5u8, 6].repeat(16));
}

#[test]
fn upscale_takes_images_of_one_column_or_row() {
    assert_eq!(upscale(&[7u8, 8], 2, 1, 1), (2, 2, vec![7, 8, 7, 8, 7, 8, 7, 8]));
    assert_eq!(upscale(&[1u8, 2, 3], 1, 3, 1), (6, 2, vec![1, 1, 2, 2, 3, 3, 1, 1, 2, 2, 3, 3]));
    assert_eq!(upscale(&[1u8, 2], 1, 1, 2), (2, 4, vec![1, 1, 1, 1, 2, 2, 2, 2]));
}

#[test]
fn upscale_replicates_distinct_pixels() {
    let image: Vec<u8> = vec![1, 2, 3, 4];
    let (w, h, out) = upscale(&image, 1, 2, 2);
    assert_eq!((w, h), (4, 4));
    assert_eq!(out, vec![1, 1, 2, 2, 1, 1, 2, 2, 3, 3, 4, 4, 3, 3, 4, 4]);
}

#[test]
fn upscale_follows_the_corner_rule_on_a_diagonal() {
    // 1 0 0
    // 0 1 0
    // 0 0 1
    let image: Vec<u8> = vec![1, 0, 0, 0, 1, 0, 0, 0, 1];
    let (w, h, out) = upscale(&image, 1, 3, 3);
    assert_eq!((w, h), (6, 6));
    let expected: Vec<u8> = vec![
        1, 1, 0, 0, 0, 0, //
        1, 0, 1, 0, 0, 0, //
        0, 1, 1, 1, 0, 0, //
        0, 0, 1, 1, 1, 0, //
        0, 0, 0, 1, 0, 1, //
        0, 0, 0, 0, 1, 1,
    ];
    assert_eq!(out, expected);
}

#[test]
fn upscale_never_adds_a_colour() {
    for image in images_3x3(3) {
        let (w, _, out) = upscale(&image, 1, 3, 3);
        for y in 0..6 {
            for x in 0..6 {
                let (sx, sy) = (x / 2, y / 2);
                let near = [
                    pixel_of(&image, 3, sx, sy),
                    pixel_of(&image, 3, sx, clamp_down(sy)),
                    pixel_of(&image, 3, clamp_down(sx), sy),
                    pixel_of(&image, 3, sx, clamp_up(sy, 3)),
                    pixel_of(&image, 3, clamp_up(sx, 3), sy),
                ];
                assert!(near.contains(&out[y * w + x]));
            }
        }
    }
}

#[test]
fn upscale_then_downscale_gives_the_image_back() {
    for image in images_3x3(3) {
        let (w, h, up) = upscale(&image, 1, 3, 3);
        let (dw, dh, down) = downscale(&up, 1, w, h, 2);
        assert_eq!((dw, dh), (3, 3));
        assert_eq!(down, image);
    }
    let wide: Vec<u16> = (0..4 * 3 * 2).map(|v| (v % 5) as u16).collect();
    let (w, h, up) = upscale(&wide, 2, 4, 3);
    assert_eq!(downscale(&up, 2, w, h, 2), (4, 3, wide));
}

#[test]
fn scale2x_block_writes_four_pixels() {
    let mut scaled: Vec<u8> = vec![9; 16];
    let (c, u, l, d, r) = ([5u8], [1u8], [1u8], [2u8], [3u8]);
    apply_scale2x_block(&mut scaled, 5, 1, 4, (&c, &u, &l, &d, &r));
    assert_eq!(scaled, vec![9, 9, 9, 9, 9, 1, 5, 9, 9, 5, 5, 9, 9, 9, 9, 9]);
    let (c, u, l, d, r) = ([5u8], [1u8], [2u8], [3u8], [3u8]);
    apply_scale2x_block(&mut scaled, 0, 1, 4, (&c, &u, &l, &d, &r));
    assert_eq!(scaled, vec![5, 5, 9, 9, 5, 3, 5, 9, 9, 5, 5, 9, 9, 9, 9, 9]);
}

#[test]
fn scale2x_block_compares_whole_pixels() {
    let mut scaled: Vec<u8> = vec![0; 16];
    let (c, u, l, d, r) = ([5u8, 5], [1u8, 1], [1u8, 2], [2u8, 2], [3u8, 3]);
    apply_scale2x_block(&mut scaled, 0, 2, 4, (&c, &u, &l, &d, &r));
    assert_eq!(scaled, vec![5, 5, 5, 5, 0, 0, 0, 0, 5, 5, 5, 5, 0, 0, 0, 0]);
}

#[test]
fn copy_to_vec_overwrites_in_place() {
    let mut v: Vec<u8> = vec![1, 2, 3, 4, 5];
    copy_to_vec(&mut v, 1, &[8, 9]);
    assert_eq!(v, vec![1, 8, 9, 4, 5]);
    copy_to_vec(&mut v, 5, &[]);
    assert_eq!(v, vec![1, 8, 9, 4, 5]);
}

#[test]
fn downscale_takes_the_most_frequent_value() {
    let image: Vec<u8> = vec![
        1, 2, 3, 3, //
        2, 2, 3, 4, //
        5, 5, 6, 7, //
        5, 6, 7, 7,
    ];
    assert_eq!(downscale(&image, 1, 4, 4, 2), (2, 2, vec![2, 3, 5, 7]));
}

#[test]
fn downscale_breaks_ties_by_the_first_in_the_block() {
    let image: Vec<u8> = vec![
        1, 2, 4, 3, //
        2, 1, 3, 4,
    ];
    assert_eq!(downscale(&image, 1, 4, 2, 2), (2, 1, vec![1, 4]));
    let distinct: Vec<u8> = vec![9, 8, 7, 6];
    assert_eq!(downscale(&distinct, 1, 2, 2, 2), (1, 1, vec![9]));
}

#[test]
fn downscale_drops_what_fills_no_block() {
    let image: Vec<u8> = vec![
        1, 1, 1, 2, 2, //
        1, 1, 1, 2, 2, //
        3, 3, 3, 4, 4,
    ];
    assert_eq!(downscale(&image, 1, 5, 3, 2), (2, 1, vec![1, 1]));
    assert_eq!(downscale(&image, 1, 5, 3, 3), (1, 1, vec![1]));
    assert_eq!(downscale(&image, 1, 5, 3, 4), (1, 0, vec![]));
    assert_eq!(downscale(&image, 1, 5, 3, 1), (5, 3, image.clone()));
}

#[test]
fn downscale_counts_whole_pixels() {
    let image: Vec<u8> = vec![
        1, 1, 1, 2, //
        1, 2, 1, 2,
    ];
    assert_eq!(downscale(&image, 2, 2, 2, 2), (1, 1, vec![1, 2]));
}

#[test]
fn find_mode_looks_at_one_block() {
    let image: Vec<u8> = vec![
        1, 2, 3, 3, //
        2, 2, 3, 4, //
        5, 5, 6, 7, //
        5, 6, 7, 7,
    ];
    assert_eq!(find_mode(&image, 1, 4, 4, 0, 0, 2), &[2u8][..]);
    assert_eq!(find_mode(&image, 1, 4, 4, 1, 1, 2), &[2u8][..]);
    assert_eq!(find_mode(&image, 1, 4, 4, 1, 1, 3), &[7u8][..]);
    assert_eq!(find_mode(&image, 1, 4, 4, 0, 0, 4), &[2u8][..]);
    assert_eq!(find_mode(&image, 1, 4, 4, 3, 3, 1), &[7u8][..]);
}
