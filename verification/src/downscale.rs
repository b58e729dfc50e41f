//! Shrinking an image by a whole factor: each block of the source becomes
//! one pixel, the value that occurs most often in the block.

use vstd::prelude::*;
use crate::channel::StitchableType;
use crate::image::{has_pixel, image_of, is_image, lemma_append_pixel, lemma_cell_in_image, lemma_image_of, lemma_is_image_of, pixel_at, pixel_slice, pixels_equal, push_pixel};

verus! {

/// A square block of an image: `size` columns from `startx` on, `size` rows
/// from `starty` on. Its cells are numbered row by row.
pub struct Block<T> {
    /// The image's values.
    pub buf: Seq<T>,
    /// The number of values per pixel.
    pub channels: nat,
    /// The width of the image.
    pub width: nat,
    /// The block's first column.
    pub startx: int,
    /// The block's first row.
    pub starty: int,
    /// The number of columns and of rows of the block.
    pub size: nat,
}

impl<T> Block<T> {
    /// The number of cells of the block.
    pub open spec fn cells(self) -> nat {
        self.size * self.size
    }

    /// The pixel in cell `k`.
    pub open spec fn cell(self, k: int) -> Seq<T> {
        pixel_at(
            self.buf,
            self.channels,
            self.width,
            self.startx + k % (self.size as int),
            self.starty + k / (self.size as int),
        )
    }

    /// How many of the first `n` cells hold `value`.
    pub open spec fn count(self, value: Seq<T>, n: nat) -> nat
        decreases n,
    {
        if n == 0 {
            0
        } else {
            self.count(value, (n - 1) as nat) + if self.cell(n - 1) == value {
                1nat
            } else {
                0nat
            }
        }
    }

    /// How many cells of the block hold the same value as cell `k`.
    pub open spec fn frequency(self, k: int) -> nat {
        self.count(self.cell(k), self.cells())
    }

    /// Among the first `n` cells, the first of those whose value is most
    /// frequent in the block.
    pub open spec fn mode_index(self, n: nat) -> int
        decreases n,
    {
        if n <= 1 {
            0
        } else {
            let best = self.mode_index((n - 1) as nat);
            if self.frequency(n - 1) > self.frequency(best) {
                n - 1
            } else {
                best
            }
        }
    }

    /// The most frequent pixel value of the block. Where several values are
    /// equally frequent, it is the one that occurs first, row by row.
    pub open spec fn mode(self) -> Seq<T> {
        self.cell(self.mode_index(self.cells()))
    }

    /// The cell that `mode_index` picks among the first `n` is one of them,
    /// no cell among them is more frequent, and every cell before it is less
    /// frequent.
    pub proof fn lemma_mode_index(self, n: nat)
        requires
            n >= 1,
        ensures
            0 <= self.mode_index(n) < n,
            forall|k: int|
                0 <= k < n ==> #[trigger] self.frequency(k) <= self.frequency(self.mode_index(n)),
            forall|k: int|
                0 <= k < self.mode_index(n) ==> #[trigger] self.frequency(k) < self.frequency(
                    self.mode_index(n),
                ),
        decreases n,
    {
        if n > 1 {
            self.lemma_mode_index((n - 1) as nat);
        }
    }
}

/// The block of side `factor` that pixel (`x`, `y`) of the reduced image
/// stands for.
pub open spec fn block_of<T>(
    buf: Seq<T>,
    channels: nat,
    width: nat,
    factor: nat,
    x: int,
    y: int,
) -> Block<T> {
    Block { buf, channels, width, startx: x * factor, starty: y * factor, size: factor }
}

/// The rule that gives each cell of the reduced image its pixel.
pub open spec fn downscaled_cell<T>(buf: Seq<T>, channels: nat, width: nat, factor: nat) -> spec_fn(
    int,
    int,
) -> Seq<T> {
    |x: int, y: int| block_of(buf, channels, width, factor, x, y).mode()
}

/// The image reduced by `factor`.
pub open spec fn downscaled<T>(
    buf: Seq<T>,
    channels: nat,
    width: nat,
    height: nat,
    factor: nat,
) -> Seq<T> {
    image_of(
        channels,
        width / factor,
        height / factor,
        downscaled_cell(buf, channels, width, factor),
    )
}

/// The reduced image has the width and the height divided by the factor,
/// and each of its pixels is the most frequent value of its block.
pub proof fn lemma_downscaled_pixels<T>(
    buf: Seq<T>,
    channels: nat,
    width: nat,
    height: nat,
    factor: nat,
)
    requires
        factor >= 1,
        is_image(buf, channels, width, height),
    ensures
        is_image(
            downscaled(buf, channels, width, height, factor),
            channels,
            width / factor,
            height / factor,
        ),
        forall|x: int, y: int|
            0 <= x < width / factor && 0 <= y < height / factor ==> #[trigger] pixel_at(
                downscaled(buf, channels, width, height, factor),
                channels,
                width / factor,
                x,
                y,
            ) == block_of(buf, channels, width, factor, x, y).mode(),
{
    let cell = downscaled_cell(buf, channels, width, factor);
    let new_width = width / factor;
    let new_height = height / factor;
    assert forall|x: int, y: int| 0 <= x < new_width && 0 <= y < new_height implies (
    #[trigger] cell(x, y)).len() == channels by {
        let block = block_of(buf, channels, width, factor, x, y);
        let f = factor as int;
        assert(f * f >= 1) by (nonlinear_arith)
            requires
                f >= 1,
        ;
        block.lemma_mode_index(block.cells());
        let m = block.mode_index(block.cells());
        assert(0 <= m / f < f && 0 <= m % f < f) by (nonlinear_arith)
            requires
                0 <= m < f * f,
                f >= 1,
        ;
        assert(x * f + f <= width && y * f + f <= height && 0 <= x * f && 0 <= y * f)
            by (nonlinear_arith)
            requires
                0 <= x < new_width,
                0 <= y < new_height,
                new_width == width / factor,
                new_height == height / factor,
                f == factor,
                f >= 1,
        ;
        lemma_cell_in_image(channels, width, height, x * f + m % f, y * f + m / f);
    }
    lemma_image_of(channels, new_width as nat, new_height as nat, cell);
}

/// Reducing adds no colour: every pixel of the reduced image is a pixel of
/// the source.
pub proof fn lemma_downscale_keeps_palette<T>(
    buf: Seq<T>,
    channels: nat,
    width: nat,
    height: nat,
    factor: nat,
    x: int,
    y: int,
)
    requires
        factor >= 1,
        is_image(buf, channels, width, height),
        0 <= x < width / factor,
        0 <= y < height / factor,
    ensures
        has_pixel(
            buf,
            channels,
            width,
            height,
            pixel_at(
                downscaled(buf, channels, width, height, factor),
                channels,
                width / factor,
                x,
                y,
            ),
        ),
{
    lemma_downscaled_pixels(buf, channels, width, height, factor);
    let block = block_of(buf, channels, width, factor, x, y);
    let f = factor as int;
    assert(f * f >= 1) by (nonlinear_arith)
        requires
            f >= 1,
    ;
    block.lemma_mode_index(block.cells());
    let m = block.mode_index(block.cells());
    assert(0 <= m / f < f && 0 <= m % f < f) by (nonlinear_arith)
        requires
            0 <= m < f * f,
            f >= 1,
    ;
    assert(x * f + f <= width && y * f + f <= height && 0 <= x * f && 0 <= y * f)
        by (nonlinear_arith)
        requires
            0 <= x < width / factor,
            0 <= y < height / factor,
            f == factor,
            f >= 1,
    ;
    assert(pixel_at(buf, channels, width, x * f + m % f, y * f + m / f) == block.mode());
}

/// The position of cell `k` of a block.
fn cell_position(
    width: usize,
    height: usize,
    startx: usize,
    starty: usize,
    block_size: usize,
    k: usize,
) -> (r: (usize, usize))
    requires
        block_size >= 1,
        startx + block_size <= width,
        starty + block_size <= height,
        k < block_size * block_size,
    ensures
        r.0 == startx + (k as int) % (block_size as int),
        r.1 == starty + (k as int) / (block_size as int),
        r.0 < width,
        r.1 < height,
{
    proof {
        assert((k as int) / (block_size as int) < block_size) by (nonlinear_arith)
            requires
                0 <= k < block_size * block_size,
                block_size >= 1,
        ;
    }
    (startx + k % block_size, starty + k / block_size)
}

/// The most frequent pixel value of a block of the image. Where several
/// values are equally frequent, it is the one that occurs first, row by row.
#[verifier::loop_isolation(false)]
pub fn find_mode<'a, T: StitchableType>(
    buf: &'a [T],
    channels: usize,
    width: usize,
    height: usize,
    startx: usize,
    starty: usize,
    block_size: usize,
) -> (r: &'a [T])
    requires
        channels >= 1,
        block_size >= 1,
        is_image(buf@, channels as nat, width as nat, height as nat),
        startx + block_size <= width,
        starty + block_size <= height,
    ensures
        r@ == (Block {
            buf: buf@,
            channels: channels as nat,
            width: width as nat,
            startx: startx as int,
            starty: starty as int,
            size: block_size as nat,
        }).mode(),
        r@.len() == channels,
{
    let ghost block = Block {
        buf: buf@,
        channels: channels as nat,
        width: width as nat,
        startx: startx as int,
        starty: starty as int,
        size: block_size as nat,
    };
    let n: usize = buf.len();
    proof {
        assert(block_size * block_size <= width * height && block_size * block_size >= 1)
            by (nonlinear_arith)
            requires
                1 <= block_size <= width,
                block_size <= height,
        ;
        assert(width * height <= width * height * channels) by (nonlinear_arith)
            requires
                channels >= 1,
        ;
    }
    let cells: usize = block_size * block_size;
    let mut best: usize = 0;
    let mut best_count: usize = 0;
    let mut k: usize = 0;
    while k < cells
        invariant
            k <= cells,
            k == 0 ==> best == 0 && best_count == 0,
            k > 0 ==> best == block.mode_index(k as nat) && best_count == block.frequency(
                best as int,
            ) && best < k,
        decreases cells - k,
    {
        let (kx, ky) = cell_position(width, height, startx, starty, block_size, k);
        let candidate = pixel_slice(buf, channels, width, height, kx, ky);
        let mut count: usize = 0;
        let mut j: usize = 0;
        while j < cells
            invariant
                j <= cells,
                count == block.count(candidate@, j as nat),
                count <= j,
            decreases cells - j,
        {
            let (jx, jy) = cell_position(width, height, startx, starty, block_size, j);
            let other = pixel_slice(buf, channels, width, height, jx, jy);
            if pixels_equal(other, candidate) {
                count += 1;
            }
            j += 1;
        }
        if k == 0 || count > best_count {
            best = k;
            best_count = count;
        }
        k += 1;
    }
    let (bx, by) = cell_position(width, height, startx, starty, block_size, best);
    pixel_slice(buf, channels, width, height, bx, by)
}

/// Shrinks an image by `factor`. Each pixel of the result is the most
/// frequent pixel value of one block of `factor` by `factor` source pixels;
/// columns and rows that fill no whole block are dropped.
#[verifier::loop_isolation(false)]
pub fn downscale<T: StitchableType>(
    buf: &[T],
    channels: usize,
    width: usize,
    height: usize,
    factor: usize,
) -> (r: (usize, usize, Vec<T>))
    requires
        channels >= 1,
        factor >= 1,
        is_image(buf@, channels as nat, width as nat, height as nat),
    ensures
        r.0 == width / factor,
        r.1 == height / factor,
        is_image(r.2@, channels as nat, r.0 as nat, r.1 as nat),
        r.2@ == downscaled(buf@, channels as nat, width as nat, height as nat, factor as nat),
{
    let n: usize = buf.len();
    let new_width: usize = width / factor;
    let new_height: usize = height / factor;
    proof {
        assert(new_width * factor <= width && new_height * factor <= height) by (nonlinear_arith)
            requires
                factor >= 1,
                new_width == width / factor,
                new_height == height / factor,
        ;
        assert(new_width * new_height * channels <= width * height * channels)
            by (nonlinear_arith)
            requires
                new_width * factor <= width,
                new_height * factor <= height,
                factor >= 1,
                channels >= 1,
        ;
        assert(new_width * new_height <= new_width * new_height * channels) by (nonlinear_arith)
            requires
                channels >= 1,
        ;
        assert((0 * new_width) * channels == 0) by (nonlinear_arith);
    }
    let mut out: Vec<T> = Vec::with_capacity(new_width * new_height * channels);
    let mut y: usize = 0;
    while y < new_height
        invariant
            y <= new_height,
            out@.len() == (y * new_width) * channels,
            forall|x0: int, y0: int|
                0 <= x0 < new_width && 0 <= y0 < y ==> #[trigger] pixel_at(
                    out@,
                    channels as nat,
                    new_width as nat,
                    x0,
                    y0,
                ) == block_of(buf@, channels as nat, width as nat, factor as nat, x0, y0).mode(),
        decreases new_height - y,
    {
        let mut x: usize = 0;
        while x < new_width
            invariant
                x <= new_width,
                y < new_height,
                out@.len() == (y * new_width + x) * channels,
                forall|x0: int, y0: int|
                    0 <= x0 < new_width && 0 <= y0 && (y0 < y || (y0 == y && x0 < x))
                        ==> #[trigger] pixel_at(out@, channels as nat, new_width as nat, x0, y0)
                        == block_of(
                        buf@,
                        channels as nat,
                        width as nat,
                        factor as nat,
                        x0,
                        y0,
                    ).mode(),
            decreases new_width - x,
        {
            proof {
                assert(x * factor + factor <= new_width * factor && y * factor + factor
                    <= new_height * factor && 0 <= x * factor && 0 <= y * factor)
                    by (nonlinear_arith)
                    requires
                        0 <= x < new_width,
                        0 <= y < new_height,
                        factor >= 1,
                ;
            }
            let mode = find_mode(buf, channels, width, height, x * factor, y * factor, factor);
            let ghost earlier = out@;
            push_pixel(&mut out, mode, 0, channels);
            proof {
                assert(mode@.subrange(0, channels as int) =~= mode@);
                lemma_append_pixel(
                    earlier,
                    mode@,
                    channels as nat,
                    new_width as nat,
                    x as int,
                    y as int,
                );
            }
            x += 1;
        }
        proof {
            assert((y * new_width + new_width) * channels == ((y + 1) * new_width) * channels)
                by (nonlinear_arith);
        }
        y += 1;
    }
    proof {
        assert((new_height * new_width) * channels == new_width * new_height * channels)
            by (nonlinear_arith);
        lemma_is_image_of(
            out@,
            channels as nat,
            new_width as nat,
            new_height as nat,
            downscaled_cell(buf@, channels as nat, width as nat, factor as nat),
        );
    }
    (new_width, new_height, out)
}

} // verus!
