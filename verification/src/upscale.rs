//! Doubling an image with the corner rule that keeps edges sharp and adds
//! no colour: each pixel becomes a block of four, each of them the pixel
//! itself or one of its four neighbours.

use vstd::prelude::*;
use crate::channel::StitchableType;
use crate::image::{has_pixel, image_of, is_image, lemma_cell_in_image, lemma_cell_unique, lemma_image_of, lemma_is_image_of, pixel_at, pixel_slice, pixels_equal};

verus! {

/// The pixel that the corner rule puts in corner (`dx`, `dy`) of the block
/// that stands for `center`: 0 is left or top, 1 is right or bottom.
pub open spec fn scale2x_corner<T>(
    center: Seq<T>,
    up: Seq<T>,
    left: Seq<T>,
    down: Seq<T>,
    right: Seq<T>,
    dx: int,
    dy: int,
) -> Seq<T> {
    if dy == 0 && dx == 0 {
        if left == up && left != down && up != right {
            up
        } else {
            center
        }
    } else if dy == 0 {
        if up == right && up != left && right != down {
            right
        } else {
            center
        }
    } else if dx == 0 {
        if down == left && down != right && left != up {
            left
        } else {
            center
        }
    } else {
        if right == down && right != up && down != left {
            down
        } else {
            center
        }
    }
}

/// The row above `y`, or `y` itself in the first row.
pub open spec fn row_above(y: int) -> int {
    if y > 0 {
        y - 1
    } else {
        y
    }
}

/// The row below `y`, or `y` itself in the last of `height` rows.
pub open spec fn row_below(y: int, height: nat) -> int {
    if y + 1 < height {
        y + 1
    } else {
        y
    }
}

/// The pixel in column `x` of row `y` of the doubled image. A neighbour
/// that would lie outside the image is the centre pixel itself.
pub open spec fn upscaled_pixel<T>(
    buf: Seq<T>,
    channels: nat,
    width: nat,
    height: nat,
    x: int,
    y: int,
) -> Seq<T> {
    let sx = x / 2;
    let sy = y / 2;
    scale2x_corner(
        pixel_at(buf, channels, width, sx, sy),
        pixel_at(buf, channels, width, sx, row_above(sy)),
        pixel_at(buf, channels, width, row_above(sx), sy),
        pixel_at(buf, channels, width, sx, row_below(sy, height)),
        pixel_at(buf, channels, width, row_below(sx, width), sy),
        x % 2,
        y % 2,
    )
}

/// The rule that gives each cell of the doubled image its pixel.
pub open spec fn upscaled_cell<T>(buf: Seq<T>, channels: nat, width: nat, height: nat) -> spec_fn(
    int,
    int,
) -> Seq<T> {
    |x: int, y: int| upscaled_pixel(buf, channels, width, height, x, y)
}

/// The doubled image.
pub open spec fn upscaled<T>(buf: Seq<T>, channels: nat, width: nat, height: nat) -> Seq<T> {
    image_of(channels, 2 * width, 2 * height, upscaled_cell(buf, channels, width, height))
}

/// The doubled image has twice the width and twice the height, and each of
/// its pixels is the one that the corner rule gives.
pub proof fn lemma_upscaled_pixels<T>(buf: Seq<T>, channels: nat, width: nat, height: nat)
    requires
        is_image(buf, channels, width, height),
    ensures
        is_image(upscaled(buf, channels, width, height), channels, 2 * width, 2 * height),
        forall|x: int, y: int|
            0 <= x < 2 * width && 0 <= y < 2 * height ==> #[trigger] pixel_at(
                upscaled(buf, channels, width, height),
                channels,
                2 * width,
                x,
                y,
            ) == upscaled_pixel(buf, channels, width, height, x, y),
{
    let cell = upscaled_cell(buf, channels, width, height);
    assert forall|x: int, y: int| 0 <= x < 2 * width && 0 <= y < 2 * height implies (
    #[trigger] cell(x, y)).len() == channels by {
        let sx = x / 2;
        let sy = y / 2;
        lemma_cell_in_image(channels, width, height, sx, sy);
        lemma_cell_in_image(channels, width, height, sx, row_above(sy));
        lemma_cell_in_image(channels, width, height, row_above(sx), sy);
        lemma_cell_in_image(channels, width, height, sx, row_below(sy, height));
        lemma_cell_in_image(channels, width, height, row_below(sx, width), sy);
    }
    lemma_image_of(channels, 2 * width, 2 * height, cell);
}

/// Doubling adds no colour: every pixel of the doubled image is the source
/// pixel that it stands for or one of that pixel's four neighbours.
pub proof fn lemma_upscale_keeps_palette<T>(
    buf: Seq<T>,
    channels: nat,
    width: nat,
    height: nat,
    x: int,
    y: int,
)
    requires
        is_image(buf, channels, width, height),
        0 <= x < 2 * width,
        0 <= y < 2 * height,
    ensures
        ({
            let out = pixel_at(upscaled(buf, channels, width, height), channels, 2 * width, x, y);
            ||| out == pixel_at(buf, channels, width, x / 2, y / 2)
            ||| out == pixel_at(buf, channels, width, x / 2, row_above(y / 2))
            ||| out == pixel_at(buf, channels, width, row_above(x / 2), y / 2)
            ||| out == pixel_at(buf, channels, width, x / 2, row_below(y / 2, height))
            ||| out == pixel_at(buf, channels, width, row_below(x / 2, width), y / 2)
        }),
        has_pixel(
            buf,
            channels,
            width,
            height,
            pixel_at(upscaled(buf, channels, width, height), channels, 2 * width, x, y),
        ),
{
    lemma_upscaled_pixels(buf, channels, width, height);
    let sx = x / 2;
    let sy = y / 2;
    let out = pixel_at(upscaled(buf, channels, width, height), channels, 2 * width, x, y);
    assert(out == upscaled_pixel(buf, channels, width, height, x, y));
    assert(pixel_at(buf, channels, width, sx, sy) == out || pixel_at(
        buf,
        channels,
        width,
        sx,
        row_above(sy),
    ) == out || pixel_at(buf, channels, width, row_above(sx), sy) == out || pixel_at(
        buf,
        channels,
        width,
        sx,
        row_below(sy, height),
    ) == out || pixel_at(buf, channels, width, row_below(sx, width), sy) == out);
}

/// Whether index `i` lies in the pixel that starts at `start`.
pub open spec fn in_pixel(i: int, start: int, channels: int) -> bool {
    start <= i < start + channels
}

/// Writes `source` over the values of `destination` from `start_index` on.
pub fn copy_to_vec<T: Copy>(destination: &mut Vec<T>, start_index: usize, source: &[T])
    requires
        start_index + source@.len() <= old(destination)@.len(),
    ensures
        final(destination)@.len() == old(destination)@.len(),
        forall|i: int|
            0 <= i < old(destination)@.len() ==> #[trigger] final(destination)@[i] == (if in_pixel(
                i,
                start_index as int,
                source@.len() as int,
            ) {
                source@[i - start_index]
            } else {
                old(destination)@[i]
            }),
{
    let n: usize = source.len();
    let m: usize = destination.len();
    let mut k: usize = 0;
    while k < n
        invariant
            k <= n,
            n == source@.len(),
            m == destination@.len(),
            start_index + n <= destination@.len(),
            destination@.len() == old(destination)@.len(),
            forall|i: int|
                0 <= i < destination@.len() ==> #[trigger] destination@[i] == (if in_pixel(
                    i,
                    start_index as int,
                    k as int,
                ) {
                    source@[i - start_index]
                } else {
                    old(destination)@[i]
                }),
        decreases n - k,
    {
        destination[start_index + k] = source[k];
        k += 1;
    }
}

/// Writes the block of four pixels that the corner rule gives for a centre
/// pixel and its neighbours. `pixels` holds the centre, then the neighbours
/// above, to the left, below and to the right. The block's top-left pixel
/// starts at `pos` in `scaled`, whose rows are `width` pixels long: at
/// least two, so that the block's two rows do not overlap.
pub fn apply_scale2x_block<T: StitchableType>(
    scaled: &mut Vec<T>,
    pos: usize,
    channels: usize,
    width: usize,
    pixels: (&[T], &[T], &[T], &[T], &[T]),
)
    requires
        width >= 2,
        pixels.0@.len() == channels,
        pixels.1@.len() == channels,
        pixels.2@.len() == channels,
        pixels.3@.len() == channels,
        pixels.4@.len() == channels,
        pos + (width + 1) * channels + channels <= old(scaled)@.len(),
    ensures
        final(scaled)@.len() == old(scaled)@.len(),
        final(scaled)@.subrange(pos as int, pos + channels) == scale2x_corner(
            pixels.0@,
            pixels.1@,
            pixels.2@,
            pixels.3@,
            pixels.4@,
            0,
            0,
        ),
        final(scaled)@.subrange(pos + channels, pos + channels + channels) == scale2x_corner(
            pixels.0@,
            pixels.1@,
            pixels.2@,
            pixels.3@,
            pixels.4@,
            1,
            0,
        ),
        final(scaled)@.subrange(pos + width * channels, pos + width * channels + channels)
            == scale2x_corner(pixels.0@, pixels.1@, pixels.2@, pixels.3@, pixels.4@, 0, 1),
        final(scaled)@.subrange(
            pos + (width + 1) * channels,
            pos + (width + 1) * channels + channels,
        ) == scale2x_corner(pixels.0@, pixels.1@, pixels.2@, pixels.3@, pixels.4@, 1, 1),
        forall|i: int|
            0 <= i < old(scaled)@.len() && !in_pixel(i, pos as int, channels as int) && !in_pixel(
                i,
                pos + channels,
                channels as int,
            ) && !in_pixel(i, pos + width * channels, channels as int) && !in_pixel(
                i,
                pos + (width + 1) * channels,
                channels as int,
            ) ==> #[trigger] final(scaled)@[i] == old(scaled)@[i],
{
    let (center, up, left, down, right) = pixels;
    let total: usize = scaled.len();
    proof {
        assert(2 * channels <= width * channels && (width + 1) * channels == width * channels
            + channels) by (nonlinear_arith)
            requires
                width >= 2,
        ;
    }
    let below: usize = pos + width * channels;
    let top_left = if pixels_equal(left, up) && !pixels_equal(left, down) && !pixels_equal(
        up,
        right,
    ) {
        up
    } else {
        center
    };
    let top_right = if pixels_equal(up, right) && !pixels_equal(up, left) && !pixels_equal(
        right,
        down,
    ) {
        right
    } else {
        center
    };
    let bottom_left = if pixels_equal(down, left) && !pixels_equal(down, right) && !pixels_equal(
        left,
        up,
    ) {
        left
    } else {
        center
    };
    let bottom_right = if pixels_equal(right, down) && !pixels_equal(right, up) && !pixels_equal(
        down,
        left,
    ) {
        down
    } else {
        center
    };
    let ghost s0 = scaled@;
    copy_to_vec(scaled, pos, top_left);
    let ghost s1 = scaled@;
    copy_to_vec(scaled, pos + channels, top_right);
    let ghost s2 = scaled@;
    copy_to_vec(scaled, below, bottom_left);
    let ghost s3 = scaled@;
    copy_to_vec(scaled, below + channels, bottom_right);
    let ghost s4 = scaled@;
    proof {
        let c = channels as int;
        assert forall|i: int| 0 <= i < s0.len() implies #[trigger] s4[i] == (if in_pixel(
            i,
            pos as int,
            c,
        ) {
            top_left@[i - pos]
        } else if in_pixel(i, pos + c, c) {
            top_right@[i - pos - c]
        } else if in_pixel(i, below as int, c) {
            bottom_left@[i - below]
        } else if in_pixel(i, below + c, c) {
            bottom_right@[i - below - c]
        } else {
            s0[i]
        }) by {
            assert(s1[i] == if in_pixel(i, pos as int, c) {
                top_left@[i - pos]
            } else {
                s0[i]
            });
            assert(s2[i] == if in_pixel(i, pos + c, c) {
                top_right@[i - (pos + c)]
            } else {
                s1[i]
            });
            assert(s3[i] == if in_pixel(i, below as int, c) {
                bottom_left@[i - below]
            } else {
                s2[i]
            });
            assert(s4[i] == if in_pixel(i, below + c, c) {
                bottom_right@[i - (below + c)]
            } else {
                s3[i]
            });
        }
        assert(s4.subrange(pos as int, pos + c) =~= top_left@);
        assert(s4.subrange(pos + c, pos + c + c) =~= top_right@);
        assert(s4.subrange(below as int, below + c) =~= bottom_left@);
        assert(s4.subrange(below + c, below + c + c) =~= bottom_right@);
    }
}

/// What writing one block changes: a cell of the block holds what was
/// written for it, every other cell of the doubled image stays.
proof fn lemma_block_pixel<T>(
    before: Seq<T>,
    after: Seq<T>,
    channels: nat,
    width: nat,
    height: nat,
    bx: int,
    by: int,
    x: int,
    y: int,
)
    requires
        channels >= 1,
        0 <= bx,
        0 <= by,
        2 * bx + 1 < width,
        2 * by + 1 < height,
        0 <= x < width,
        0 <= y < height,
        is_image(before, channels, width, height),
        after.len() == before.len(),
        forall|i: int|
            0 <= i < before.len() && !in_pixel(
                i,
                ((2 * by) * width + 2 * bx) * channels,
                channels as int,
            ) && !in_pixel(
                i,
                ((2 * by) * width + 2 * bx) * channels + channels,
                channels as int,
            ) && !in_pixel(
                i,
                ((2 * by) * width + 2 * bx) * channels + width * channels,
                channels as int,
            ) && !in_pixel(
                i,
                ((2 * by) * width + 2 * bx) * channels + (width + 1) * channels,
                channels as int,
            ) ==> #[trigger] after[i] == before[i],
    ensures
        ({
            let pos = ((2 * by) * width + 2 * bx) * channels;
            let at = pixel_at(after, channels, width, x, y);
            &&& x == 2 * bx && y == 2 * by ==> at == after.subrange(pos, pos + channels)
            &&& x == 2 * bx + 1 && y == 2 * by ==> at == after.subrange(
                pos + channels,
                pos + channels + channels,
            )
            &&& x == 2 * bx && y == 2 * by + 1 ==> at == after.subrange(
                pos + width * channels,
                pos + width * channels + channels,
            )
            &&& x == 2 * bx + 1 && y == 2 * by + 1 ==> at == after.subrange(
                pos + (width + 1) * channels,
                pos + (width + 1) * channels + channels,
            )
            &&& !(x / 2 == bx && y / 2 == by) ==> at == pixel_at(before, channels, width, x, y)
        }),
{
    let c = channels as int;
    let w = width as int;
    let q = y * w + x;
    let q00 = (2 * by) * w + 2 * bx;
    let q10 = (2 * by) * w + (2 * bx + 1);
    let q01 = (2 * by + 1) * w + 2 * bx;
    let q11 = (2 * by + 1) * w + (2 * bx + 1);
    let pos = q00 * c;
    assert(q10 * c == pos + c && q01 * c == pos + w * c && q11 * c == pos + (w + 1) * c)
        by (nonlinear_arith)
        requires
            q00 == (2 * by) * w + 2 * bx,
            q10 == (2 * by) * w + (2 * bx + 1),
            q01 == (2 * by + 1) * w + 2 * bx,
            q11 == (2 * by + 1) * w + (2 * bx + 1),
            pos == q00 * c,
    ;
    lemma_cell_in_image(channels, width, height, x, y);
    if !(x / 2 == bx && y / 2 == by) {
        if q == q00 {
            lemma_cell_unique(width, x, y, 2 * bx, 2 * by);
        }
        if q == q10 {
            lemma_cell_unique(width, x, y, 2 * bx + 1, 2 * by);
        }
        if q == q01 {
            lemma_cell_unique(width, x, y, 2 * bx, 2 * by + 1);
        }
        if q == q11 {
            lemma_cell_unique(width, x, y, 2 * bx + 1, 2 * by + 1);
        }
        lemma_pixels_apart(c, q, q00);
        lemma_pixels_apart(c, q, q10);
        lemma_pixels_apart(c, q, q01);
        lemma_pixels_apart(c, q, q11);
        assert(pixel_at(after, channels, width, x, y) =~= pixel_at(
            before,
            channels,
            width,
            x,
            y,
        ));
    }
}

/// The values of two different pixels do not overlap.
proof fn lemma_pixels_apart(channels: int, p: int, q: int)
    requires
        channels >= 0,
        p != q,
    ensures
        p * channels + channels <= q * channels || q * channels + channels <= p * channels,
{
    assert(p * channels + channels <= q * channels || q * channels + channels <= p * channels)
        by (nonlinear_arith)
        requires
            channels >= 0,
            p != q,
    ;
}

/// Doubles the width and the height of an image. Each pixel becomes a block
/// of four, chosen by the corner rule from the pixel and its neighbours
/// above, left, below and right; at the border the pixel itself stands for
/// the neighbour that is missing.
pub fn upscale<T: StitchableType>(buf: &[T], channels: usize, width: usize, height: usize) -> (r: (
    usize,
    usize,
    Vec<T>,
))
    requires
        channels >= 1,
        width >= 1,
        height >= 1,
        is_image(buf@, channels as nat, width as nat, height as nat),
        4 * (width * height * channels) <= usize::MAX,
    ensures
        r.0 == 2 * width,
        r.1 == 2 * height,
        is_image(r.2@, channels as nat, r.0 as nat, r.1 as nat),
        r.2@ == upscaled(buf@, channels as nat, width as nat, height as nat),
{
    let n: usize = buf.len();
    proof {
        assert(width <= width * height * channels && height <= width * height * channels && 0
            < width * height * channels && (2 * width) * (2 * height) * channels == 4 * (width
            * height * channels) && (2 * width) * (2 * height) <= (2 * width) * (2 * height)
            * channels) by (nonlinear_arith)
            requires
                channels >= 1,
                width >= 1,
                height >= 1,
        ;
    }
    let new_width: usize = 2 * width;
    let new_height: usize = 2 * height;
    let total: usize = new_width * new_height * channels;
    let mut scaled: Vec<T> = vec![buf[0]; total];
    let mut y: usize = 0;
    while y < height
        invariant
            y <= height,
            channels >= 1,
            width >= 1,
            height >= 1,
            new_width == 2 * width,
            new_height == 2 * height,
            total == new_width * new_height * channels,
            is_image(buf@, channels as nat, width as nat, height as nat),
            scaled@.len() == total,
            forall|ox: int, oy: int|
                0 <= ox < new_width && 0 <= oy < new_height && oy / 2 < y ==> #[trigger] pixel_at(
                    scaled@,
                    channels as nat,
                    new_width as nat,
                    ox,
                    oy,
                ) == upscaled_pixel(buf@, channels as nat, width as nat, height as nat, ox, oy),
        decreases height - y,
    {
        let mut x: usize = 0;
        while x < width
            invariant
                x <= width,
                y < height,
                channels >= 1,
                width >= 1,
                height >= 1,
                new_width == 2 * width,
                new_height == 2 * height,
                total == new_width * new_height * channels,
                is_image(buf@, channels as nat, width as nat, height as nat),
                scaled@.len() == total,
                forall|ox: int, oy: int|
                    0 <= ox < new_width && 0 <= oy < new_height && (oy / 2 < y || (oy / 2 == y
                        && ox / 2 < x)) ==> #[trigger] pixel_at(
                        scaled@,
                        channels as nat,
                        new_width as nat,
                        ox,
                        oy,
                    ) == upscaled_pixel(
                        buf@,
                        channels as nat,
                        width as nat,
                        height as nat,
                        ox,
                        oy,
                    ),
            decreases width - x,
        {
            let above: usize = if y > 0 { y - 1 } else { y };
            let below: usize = if y + 1 < height { y + 1 } else { y };
            let before: usize = if x > 0 { x - 1 } else { x };
            let after: usize = if x + 1 < width { x + 1 } else { x };
            let center = pixel_slice(buf, channels, width, height, x, y);
            let up = pixel_slice(buf, channels, width, height, x, above);
            let left = pixel_slice(buf, channels, width, height, before, y);
            let down = pixel_slice(buf, channels, width, height, x, below);
            let right = pixel_slice(buf, channels, width, height, after, y);
            proof {
                lemma_cell_in_image(
                    channels as nat,
                    new_width as nat,
                    new_height as nat,
                    2 * x,
                    2 * y,
                );
                lemma_cell_in_image(
                    channels as nat,
                    new_width as nat,
                    new_height as nat,
                    2 * x + 1,
                    2 * y + 1,
                );
                assert(((2 * y) * new_width + 2 * x) * channels + (new_width + 1) * channels == (
                (2 * y + 1) * new_width + (2 * x + 1)) * channels) by (nonlinear_arith);
            }
            let pos: usize = ((2 * y) * new_width + 2 * x) * channels;
            let ghost earlier = scaled@;
            apply_scale2x_block(&mut scaled, pos, channels, new_width, (center, up, left, down, right));
            proof {
                assert forall|ox: int, oy: int|
                    0 <= ox < new_width && 0 <= oy < new_height && (oy / 2 < y || (oy / 2 == y
                        && ox / 2 < x + 1)) implies #[trigger] pixel_at(
                    scaled@,
                    channels as nat,
                    new_width as nat,
                    ox,
                    oy,
                ) == upscaled_pixel(
                    buf@,
                    channels as nat,
                    width as nat,
                    height as nat,
                    ox,
                    oy,
                ) by {
                    lemma_block_pixel(
                        earlier,
                        scaled@,
                        channels as nat,
                        new_width as nat,
                        new_height as nat,
                        x as int,
                        y as int,
                        ox,
                        oy,
                    );
                }
            }
            x += 1;
        }
        y += 1;
    }
    proof {
        lemma_is_image_of(
            scaled@,
            channels as nat,
            new_width as nat,
            new_height as nat,
            upscaled_cell(buf@, channels as nat, width as nat, height as nat),
        );
    }
    (new_width, new_height, scaled)
}

} // verus!
