//! High-quality rotation: the image is doubled three times, rotated at
//! eight times its resolution, and reduced again by majority vote.

use vstd::prelude::*;
use crate::channel::StitchableType;
use crate::downscale::{block_of, downscale, downscaled, lemma_downscale_keeps_palette, lemma_downscaled_pixels, Block};
use crate::error::{ParsingError, StitchingResult};
use crate::image::{has_image_size, has_pixel, is_image, lemma_images_equal, pixel_at};
use crate::rotate::{fast_rotate, lemma_rotate_keeps_palette, lemma_rotated_pixels, rotated, Rotation};
use crate::upscale::{lemma_upscale_keeps_palette, lemma_upscaled_pixels, row_above, row_below, scale2x_corner, upscale, upscaled};

verus! {

/// Doubling an image and reducing the result by two gives the image back:
/// in each block of four the source pixel keeps the majority.
pub proof fn lemma_upscale_then_downscale<T>(buf: Seq<T>, channels: nat, width: nat, height: nat)
    requires
        is_image(buf, channels, width, height),
    ensures
        downscaled(upscaled(buf, channels, width, height), channels, 2 * width, 2 * height, 2)
            == buf,
{
    let up = upscaled(buf, channels, width, height);
    let down = downscaled(up, channels, 2 * width, 2 * height, 2);
    lemma_upscaled_pixels(buf, channels, width, height);
    lemma_downscaled_pixels(up, channels, 2 * width, 2 * height, 2);
    assert forall|x: int, y: int| 0 <= x < width && 0 <= y < height implies #[trigger] pixel_at(
        down,
        channels,
        width,
        x,
        y,
    ) == pixel_at(buf, channels, width, x, y) by {
        let block = block_of(up, channels, 2 * width, 2, x, y);
        let center = pixel_at(buf, channels, width, x, y);
        let above = pixel_at(buf, channels, width, x, row_above(y));
        let left = pixel_at(buf, channels, width, row_above(x), y);
        let below = pixel_at(buf, channels, width, x, row_below(y, height));
        let right = pixel_at(buf, channels, width, row_below(x, width), y);
        assert(block.cell(0) == pixel_at(up, channels, 2 * width, 2 * x, 2 * y));
        assert(block.cell(1) == pixel_at(up, channels, 2 * width, 2 * x + 1, 2 * y));
        assert(block.cell(2) == pixel_at(up, channels, 2 * width, 2 * x, 2 * y + 1));
        assert(block.cell(3) == pixel_at(up, channels, 2 * width, 2 * x + 1, 2 * y + 1));
        assert(block.cell(0) == scale2x_corner(center, above, left, below, right, 0, 0));
        assert(block.cell(1) == scale2x_corner(center, above, left, below, right, 1, 0));
        assert(block.cell(2) == scale2x_corner(center, above, left, below, right, 0, 1));
        assert(block.cell(3) == scale2x_corner(center, above, left, below, right, 1, 1));
        assert(block.cells() == 4);
        reveal_with_fuel(Block::count, 5);
        reveal_with_fuel(Block::mode_index, 5);
        assert(block.mode() == center);
    }
    lemma_images_equal(down, buf, channels, width, height);
}

/// The source image at eight times its resolution.
pub open spec fn upscaled_8x<T>(buf: Seq<T>, channels: nat, width: nat, height: nat) -> Seq<T> {
    upscaled(
        upscaled(upscaled(buf, channels, width, height), channels, 2 * width, 2 * height),
        channels,
        4 * width,
        4 * height,
    )
}

/// The image that the high-quality rotation makes of `buf`. `rotation`
/// describes the rotation of the image at eight times its resolution.
pub open spec fn fancy_rotated<T>(
    buf: Seq<T>,
    empty: Seq<T>,
    channels: nat,
    width: nat,
    height: nat,
    rotation: Rotation,
) -> Seq<T> {
    downscaled(
        rotated(
            upscaled_8x(buf, channels, width, height),
            empty,
            channels,
            8 * width,
            8 * height,
            rotation,
        ),
        channels,
        rotation.width as nat,
        rotation.height as nat,
        8,
    )
}

/// The high-quality rotation adds no colour: every pixel of its result is
/// the empty pixel or a pixel of the source.
pub proof fn lemma_fancy_rotate_keeps_palette<T>(
    buf: Seq<T>,
    empty: Seq<T>,
    channels: nat,
    width: nat,
    height: nat,
    rotation: Rotation,
    x: int,
    y: int,
)
    requires
        is_image(buf, channels, width, height),
        empty.len() == channels,
        0 <= x < rotation.width / 8,
        0 <= y < rotation.height / 8,
    ensures
        ({
            let out = pixel_at(
                fancy_rotated(buf, empty, channels, width, height, rotation),
                channels,
                (rotation.width / 8) as nat,
                x,
                y,
            );
            out == empty || has_pixel(buf, channels, width, height, out)
        }),
{
    let x2 = upscaled(buf, channels, width, height);
    let x4 = upscaled(x2, channels, 2 * width, 2 * height);
    let x8 = upscaled(x4, channels, 4 * width, 4 * height);
    let turned = rotated(x8, empty, channels, 8 * width, 8 * height, rotation);
    let frame_width = rotation.width as nat;
    let frame_height = rotation.height as nat;
    let out = pixel_at(
        fancy_rotated(buf, empty, channels, width, height, rotation),
        channels,
        (rotation.width / 8) as nat,
        x,
        y,
    );
    lemma_upscaled_pixels(buf, channels, width, height);
    lemma_upscaled_pixels(x2, channels, 2 * width, 2 * height);
    lemma_upscaled_pixels(x4, channels, 4 * width, 4 * height);
    lemma_rotated_pixels(x8, empty, channels, 8 * width, 8 * height, rotation);
    lemma_downscale_keeps_palette(turned, channels, frame_width, frame_height, 8, x, y);
    let (tx, ty) = choose|tx: int, ty: int|
        0 <= tx < frame_width && 0 <= ty < frame_height && #[trigger] pixel_at(
            turned,
            channels,
            frame_width,
            tx,
            ty,
        ) == out;
    lemma_rotate_keeps_palette(x8, empty, channels, 8 * width, 8 * height, rotation, tx, ty);
    if out != empty {
        let (ax, ay) = choose|ax: int, ay: int|
            0 <= ax < 8 * width && 0 <= ay < 8 * height && #[trigger] pixel_at(
                x8,
                channels,
                8 * width,
                ax,
                ay,
            ) == out;
        lemma_upscale_keeps_palette(x4, channels, 4 * width, 4 * height, ax, ay);
        let (bx, by) = choose|bx: int, by: int|
            0 <= bx < 4 * width && 0 <= by < 4 * height && #[trigger] pixel_at(
                x4,
                channels,
                4 * width,
                bx,
                by,
            ) == out;
        lemma_upscale_keeps_palette(x2, channels, 2 * width, 2 * height, bx, by);
        let (cx, cy) = choose|cx: int, cy: int|
            0 <= cx < 2 * width && 0 <= cy < 2 * height && #[trigger] pixel_at(
                x2,
                channels,
                2 * width,
                cx,
                cy,
            ) == out;
        lemma_upscale_keeps_palette(buf, channels, width, height, cx, cy);
    }
}

/// What the high-quality rotation needs of a valid image: an empty pixel
/// of the image's kind, a rotation with one source position for each pixel
/// of its frame, and room in the machine's range for the image at eight
/// times its resolution and for the rotated frame.
pub open spec fn can_fancy_rotate(
    empty_len: nat,
    channels: nat,
    width: nat,
    height: nat,
    rotation: Rotation,
) -> bool {
    &&& empty_len == channels
    &&& rotation.wf()
    &&& rotation.fits(channels)
    &&& 64 * (width * height * channels) <= usize::MAX
}

/// Whether `fancy_rotate` can be called with these arguments.
pub fn fancy_rotate_allowed<T>(
    buf: &[T],
    empty: &[T],
    channels: usize,
    width: usize,
    height: usize,
    rotation: &Rotation,
) -> (r: bool)
    ensures
        r == (buf@.len() > 0 && is_image(buf@, channels as nat, width as nat, height as nat)
            ==> can_fancy_rotate(
            empty@.len(),
            channels as nat,
            width as nat,
            height as nat,
            *rotation,
        )),
{
    if buf.len() == 0 || !has_image_size(buf.len(), channels, width, height) {
        true
    } else {
        empty.len() == channels && rotation.is_ready(channels) && buf.len().checked_mul(
            64,
        ).is_some()
    }
}

/// Rotates an image with the fancy algorithm. `rotation` describes the
/// rotation of the image at eight times its resolution; the result has an
/// eighth of the rotated frame's width and height. No colour is added.
///
/// Fails with `EmptyBufferError` on a buffer without data, and with
/// `BufferSizeMismatch` on one whose length is not
/// `width * height * channels`.
pub fn fancy_rotate<T: StitchableType>(
    buf: &[T],
    empty: &[T],
    channels: usize,
    width: usize,
    height: usize,
    rotation: &Rotation,
) -> (r: StitchingResult<T>)
    requires
        buf@.len() > 0 && is_image(buf@, channels as nat, width as nat, height as nat)
            ==> can_fancy_rotate(
            empty@.len(),
            channels as nat,
            width as nat,
            height as nat,
            *rotation,
        ),
    ensures
        match r {
            Ok((new_width, new_height, out)) => {
                &&& buf@.len() > 0
                &&& is_image(buf@, channels as nat, width as nat, height as nat)
                &&& new_width == rotation.width / 8
                &&& new_height == rotation.height / 8
                &&& is_image(out@, channels as nat, new_width as nat, new_height as nat)
                &&& out@ == fancy_rotated(
                    buf@,
                    empty@,
                    channels as nat,
                    width as nat,
                    height as nat,
                    *rotation,
                )
            },
            Err(ParsingError::EmptyBufferError) => buf@.len() == 0,
            Err(ParsingError::BufferSizeMismatch) => buf@.len() > 0 && !is_image(
                buf@,
                channels as nat,
                width as nat,
                height as nat,
            ),
        },
{
    if buf.len() == 0 {
        return Err(ParsingError::EmptyBufferError);
    }
    if !has_image_size(buf.len(), channels, width, height) {
        return Err(ParsingError::BufferSizeMismatch);
    }
    proof {
        assert(channels >= 1 && width >= 1 && height >= 1) by (nonlinear_arith)
            requires
                width * height * channels > 0,
        ;
        assert((2 * width) * (2 * height) * channels == 4 * (width * height * channels) && (4
            * width) * (4 * height) * channels == 16 * (width * height * channels) && (8 * width)
            * (8 * height) * channels == 64 * (width * height * channels)) by (nonlinear_arith);
    }
    let image2x = upscale(buf, channels, width, height);
    let image4x = upscale(image2x.2.as_slice(), channels, image2x.0, image2x.1);
    let image8x = upscale(image4x.2.as_slice(), channels, image4x.0, image4x.1);
    match fast_rotate(image8x.2.as_slice(), empty, channels, image8x.0, image8x.1, rotation) {
        Ok(turned) => Ok(downscale(turned.2.as_slice(), channels, turned.0, turned.1, 8)),
        Err(e) => Err(e),
    }
}

} // verus!
