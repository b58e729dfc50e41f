//! The model of a pixel buffer: a flat sequence of channel values, row by
//! row, the channels of one pixel side by side.

use vstd::prelude::*;
use vstd::arithmetic::div_mod::lemma_fundamental_div_mod_converse;
use crate::channel::StitchableType;

verus! {

/// The buffer holds exactly `width * height` pixels of `channels` values.
pub open spec fn is_image<T>(buf: Seq<T>, channels: nat, width: nat, height: nat) -> bool {
    buf.len() == width * height * channels
}

/// The pixel in column `x` of row `y` of an image that is `width` wide.
pub open spec fn pixel_at<T>(buf: Seq<T>, channels: nat, width: nat, x: int, y: int) -> Seq<T> {
    buf.subrange((y * width + x) * channels, (y * width + x) * channels + channels)
}

/// Whether `pixel` is one of the pixels of the image.
pub open spec fn has_pixel<T>(
    buf: Seq<T>,
    channels: nat,
    width: nat,
    height: nat,
    pixel: Seq<T>,
) -> bool {
    exists|x: int, y: int|
        0 <= x < width && 0 <= y < height && #[trigger] pixel_at(buf, channels, width, x, y)
            == pixel
}

/// A cell of an image lies before the image's end.
pub proof fn lemma_cell_in_image(channels: nat, width: nat, height: nat, x: int, y: int)
    requires
        0 <= x < width,
        0 <= y < height,
    ensures
        0 <= y * width <= y * width + x < width * height,
        0 <= (y * width + x) * channels,
        (y * width + x) * channels + channels <= width * height * channels,
        channels >= 1 ==> width * height <= width * height * channels,
{
    assert(0 <= y * width) by (nonlinear_arith)
        requires 0 <= y, 0 <= width;
    assert(y * width + width <= width * height) by (nonlinear_arith)
        requires 0 <= y < height, 0 <= width;
    let p = y * width + x;
    let n = (width * height) as int;
    assert(0 <= p * channels && p * channels + channels <= n * channels) by (nonlinear_arith)
        requires 0 <= p < n, 0 <= channels;
    assert(channels >= 1 ==> n <= n * channels) by (nonlinear_arith)
        requires 0 <= n;
}

/// Two cells of one image with the same row-major position are the same cell.
pub proof fn lemma_cell_unique(width: nat, x1: int, y1: int, x2: int, y2: int)
    requires
        0 <= x1 < width,
        0 <= x2 < width,
        0 <= y1,
        0 <= y2,
        y1 * width + x1 == y2 * width + x2,
    ensures
        x1 == x2,
        y1 == y2,
{
    assert(y1 == y2) by (nonlinear_arith)
        requires
            0 <= x1 < width,
            0 <= x2 < width,
            y1 * width + x1 == y2 * width + x2,
    ;
}

/// Rows come one after the other: a cell of an earlier row, or an earlier
/// cell of the same row, has a smaller row-major position.
pub proof fn lemma_cell_order(width: nat, x1: int, y1: int, x2: int, y2: int)
    requires
        0 <= x1 < width,
        0 <= x2 < width,
        0 <= y1,
        0 <= y2,
    ensures
        (y1 * width + x1 < y2 * width + x2) <==> (y1 < y2 || (y1 == y2 && x1 < x2)),
{
    assert((y1 * width + x1 < y2 * width + x2) <==> (y1 < y2 || (y1 == y2 && x1 < x2)))
        by (nonlinear_arith)
        requires
            0 <= x1 < width,
            0 <= x2 < width,
    ;
}

/// What appending one pixel to the first `y * width + x` pixels of an image
/// gives: the new pixel stands in cell (`x`, `y`), the earlier cells stay.
pub proof fn lemma_append_pixel<T>(
    out: Seq<T>,
    px: Seq<T>,
    channels: nat,
    width: nat,
    x: int,
    y: int,
)
    requires
        0 <= x < width,
        0 <= y,
        px.len() == channels,
        out.len() == (y * width + x) * channels,
    ensures
        (out + px).len() == (y * width + x + 1) * channels,
        pixel_at(out + px, channels, width, x, y) == px,
        forall|x0: int, y0: int|
            0 <= x0 < width && 0 <= y0 && (y0 < y || (y0 == y && x0 < x))
                ==> #[trigger] pixel_at(out + px, channels, width, x0, y0) == pixel_at(
                out,
                channels,
                width,
                x0,
                y0,
            ),
{
    let p = y * width + x;
    assert((p + 1) * channels == p * channels + channels) by (nonlinear_arith);
    assert(pixel_at(out + px, channels, width, x, y) =~= px);
    assert forall|x0: int, y0: int|
        0 <= x0 < width && 0 <= y0 && (y0 < y || (y0 == y && x0 < x)) implies #[trigger] pixel_at(
        out + px,
        channels,
        width,
        x0,
        y0,
    ) == pixel_at(out, channels, width, x0, y0) by {
        lemma_cell_order(width, x0, y0, x, y);
        let q = y0 * width + x0;
        assert(0 <= y0 * width) by (nonlinear_arith)
            requires 0 <= y0, 0 <= width;
        assert(0 <= q * channels && q * channels + channels <= p * channels) by (nonlinear_arith)
            requires 0 <= q < p, 0 <= channels;
        assert(pixel_at(out + px, channels, width, x0, y0) =~= pixel_at(
            out,
            channels,
            width,
            x0,
            y0,
        ));
    }
}

/// Two images of the same shape that agree in every cell are the same buffer.
pub proof fn lemma_images_equal<T>(
    a: Seq<T>,
    b: Seq<T>,
    channels: nat,
    width: nat,
    height: nat,
)
    requires
        is_image(a, channels, width, height),
        is_image(b, channels, width, height),
        forall|x: int, y: int|
            0 <= x < width && 0 <= y < height ==> #[trigger] pixel_at(a, channels, width, x, y)
                == pixel_at(b, channels, width, x, y),
    ensures
        a == b,
{
    assert forall|i: int| 0 <= i < a.len() implies a[i] == b[i] by {
        let c = channels as int;
        assert(c > 0) by (nonlinear_arith)
            requires 0 <= i < width * height * c, 0 <= width * height;
        let p = i / c;
        let k = i % c;
        assert(i == p * c + k && 0 <= k < c) by (nonlinear_arith)
            requires c > 0, p == i / c, k == i % c;
        assert(0 <= p < width * height) by (nonlinear_arith)
            requires 0 <= i < width * height * c, c > 0, i == p * c + k, 0 <= k < c;
        let w = width as int;
        assert(w > 0) by (nonlinear_arith)
            requires 0 <= p < w * height;
        let y = p / w;
        let x = p % w;
        assert(p == y * w + x && 0 <= x < w) by (nonlinear_arith)
            requires w > 0, y == p / w, x == p % w;
        assert(0 <= y < height) by (nonlinear_arith)
            requires 0 <= p < w * height, p == y * w + x, 0 <= x < w;
        lemma_cell_in_image(channels, width, height, x, y);
        assert(pixel_at(a, channels, width, x, y)[k] == a[i]);
        assert(pixel_at(b, channels, width, x, y)[k] == b[i]);
    }
    assert(a =~= b);
}

/// The image of the given shape whose cell (`x`, `y`) holds `cell(x, y)`.
pub open spec fn image_of<T>(
    channels: nat,
    width: nat,
    height: nat,
    cell: spec_fn(int, int) -> Seq<T>,
) -> Seq<T> {
    Seq::new(
        width * height * channels,
        |i: int|
            cell((i / (channels as int)) % (width as int), (i / (channels as int)) / (width as int))[i
                % (channels as int)],
    )
}

/// An image made cell by cell has the shape it was made with, and each of
/// its cells holds what was given for it.
pub proof fn lemma_image_of<T>(
    channels: nat,
    width: nat,
    height: nat,
    cell: spec_fn(int, int) -> Seq<T>,
)
    requires
        forall|x: int, y: int|
            0 <= x < width && 0 <= y < height ==> (#[trigger] cell(x, y)).len() == channels,
    ensures
        is_image(image_of(channels, width, height, cell), channels, width, height),
        forall|x: int, y: int|
            0 <= x < width && 0 <= y < height ==> #[trigger] pixel_at(
                image_of(channels, width, height, cell),
                channels,
                width,
                x,
                y,
            ) == cell(x, y),
{
    let img = image_of(channels, width, height, cell);
    assert forall|x: int, y: int| 0 <= x < width && 0 <= y < height implies #[trigger] pixel_at(
        img,
        channels,
        width,
        x,
        y,
    ) == cell(x, y) by {
        lemma_cell_in_image(channels, width, height, x, y);
        let p = y * width + x;
        lemma_fundamental_div_mod_converse(p, width as int, y, x);
        assert(cell(x, y).len() == channels);
        assert forall|k: int| 0 <= k < channels implies pixel_at(img, channels, width, x, y)[k]
            == cell(x, y)[k] by {
            let i = p * channels + k;
            lemma_fundamental_div_mod_converse(i, channels as int, p, k);
            assert(pixel_at(img, channels, width, x, y)[k] == img[i]);
        }
        assert(pixel_at(img, channels, width, x, y) =~= cell(x, y));
    }
}

/// An image is the one made cell by cell from what its cells hold.
pub proof fn lemma_is_image_of<T>(
    img: Seq<T>,
    channels: nat,
    width: nat,
    height: nat,
    cell: spec_fn(int, int) -> Seq<T>,
)
    requires
        is_image(img, channels, width, height),
        forall|x: int, y: int|
            0 <= x < width && 0 <= y < height ==> #[trigger] pixel_at(img, channels, width, x, y)
                == cell(x, y),
    ensures
        img == image_of(channels, width, height, cell),
{
    assert forall|x: int, y: int| 0 <= x < width && 0 <= y < height implies (#[trigger] cell(
        x,
        y,
    )).len() == channels by {
        lemma_cell_in_image(channels, width, height, x, y);
        assert(pixel_at(img, channels, width, x, y) == cell(x, y));
    }
    lemma_image_of(channels, width, height, cell);
    lemma_images_equal(img, image_of(channels, width, height, cell), channels, width, height);
}

/// Whether a buffer of `len` values holds an image of the given shape.
pub(crate) fn has_image_size(len: usize, channels: usize, width: usize, height: usize) -> (r: bool)
    requires
        len > 0,
    ensures
        r == (len == width * height * channels),
{
    match width.checked_mul(height) {
        Some(cells) => {
            match cells.checked_mul(channels) {
                Some(total) => total == len,
                None => false,
            }
        },
        None => {
            proof {
                assert(width * height * channels == 0 || width * height * channels
                    > usize::MAX) by (nonlinear_arith)
                    requires
                        width * height > usize::MAX,
                        channels >= 0,
                ;
            }
            false
        },
    }
}

/// Whether the buffer holds data and has the length that the shape asks for.
pub fn holds_image<T>(buf: &[T], channels: usize, width: usize, height: usize) -> (r: bool)
    ensures
        r == (buf@.len() > 0 && is_image(buf@, channels as nat, width as nat, height as nat)),
{
    buf.len() > 0 && has_image_size(buf.len(), channels, width, height)
}

/// Appends the `channels` values that start at `start` in `src`.
pub(crate) fn push_pixel<T: Copy>(out: &mut Vec<T>, src: &[T], start: usize, channels: usize)
    requires
        start + channels <= src@.len(),
    ensures
        final(out)@ == old(out)@ + src@.subrange(start as int, start + channels),
{
    let n: usize = src.len();
    let mut i: usize = 0;
    while i < channels
        invariant
            i <= channels,
            n == src@.len(),
            start + channels <= src@.len(),
            out@ == old(out)@ + src@.subrange(start as int, start + i),
        decreases channels - i,
    {
        out.push(src[start + i]);
        i += 1;
        assert(out@ =~= old(out)@ + src@.subrange(start as int, start + i));
    }
    assert(out@ =~= old(out)@ + src@.subrange(start as int, start + channels));
}

/// The pixel in column `x` of row `y`, as a slice of the buffer.
pub(crate) fn pixel_slice<T>(
    buf: &[T],
    channels: usize,
    width: usize,
    height: usize,
    x: usize,
    y: usize,
) -> (r: &[T])
    requires
        channels >= 1,
        is_image(buf@, channels as nat, width as nat, height as nat),
        x < width,
        y < height,
    ensures
        r@ == pixel_at(buf@, channels as nat, width as nat, x as int, y as int),
        r@.len() == channels,
{
    let n: usize = buf.len();
    proof {
        lemma_cell_in_image(channels as nat, width as nat, height as nat, x as int, y as int);
    }
    let start: usize = (y * width + x) * channels;
    vstd::slice::slice_subrange(buf, start, start + channels)
}

/// Whether two pixels hold the same values.
pub(crate) fn pixels_equal<T: StitchableType>(a: &[T], b: &[T]) -> (r: bool)
    ensures
        r == (a@ == b@),
{
    let n: usize = a.len();
    if b.len() != n {
        return false;
    }
    let mut i: usize = 0;
    while i < n
        invariant
            i <= n,
            n == a@.len(),
            n == b@.len(),
            forall|k: int| 0 <= k < i ==> a@[k] == b@[k],
        decreases n - i,
    {
        let u = a[i];
        let v = b[i];
        if u.widen() != v.widen() {
            return false;
        }
        proof {
            u.level_is_exact(v);
        }
        i += 1;
    }
    assert(a@ =~= b@);
    true
}

} // verus!
