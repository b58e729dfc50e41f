//! Nearest-neighbour rotation: every pixel of the rotated frame is a copy of
//! one source pixel, or the empty pixel where the rotation points outside
//! the source.

use vstd::prelude::*;
use crate::error::{ParsingError, StitchingResult};
use crate::image::{has_image_size, has_pixel, image_of, is_image, lemma_append_pixel, lemma_cell_in_image, lemma_image_of, lemma_images_equal, lemma_is_image_of, pixel_at, push_pixel};

verus! {

/// The geometry of one rotation in whole numbers: the size of the rotated
/// frame and, for each of its pixels row by row, the column and the row of
/// the source that the pixel is sampled from. Such a position may lie
/// outside the source.
#[derive(Debug)]
pub struct Rotation {
    /// The width of the rotated frame.
    pub width: usize,
    /// The height of the rotated frame.
    pub height: usize,
    /// The source position (column, row) of each pixel of the rotated frame.
    pub sources: Vec<(i64, i64)>,
}

impl Rotation {
    /// There is one source position for each pixel of the rotated frame.
    pub open spec fn wf(&self) -> bool {
        self.sources@.len() == self.width * self.height
    }

    /// The source position of the pixel in column `x` of row `y`.
    pub open spec fn source_of(&self, x: int, y: int) -> (i64, i64) {
        self.sources@[y * self.width + x]
    }

    /// The rotated frame holds `channels` values per pixel within the
    /// machine's range.
    pub open spec fn fits(&self, channels: nat) -> bool {
        self.width * self.height * channels <= usize::MAX
    }

    /// Whether there is one source position for each pixel of the frame and
    /// the frame holds `channels` values per pixel within the machine's
    /// range.
    pub fn is_ready(&self, channels: usize) -> (r: bool)
        ensures
            r == (self.wf() && self.fits(channels as nat)),
    {
        let n: usize = self.sources.len();
        match self.width.checked_mul(self.height) {
            Some(cells) => cells == n && cells.checked_mul(channels).is_some(),
            None => false,
        }
    }

    /// A rotation from its parts, where there is one source position for
    /// each pixel of the frame.
    pub fn new(width: usize, height: usize, sources: Vec<(i64, i64)>) -> (r: Option<Rotation>)
        ensures
            r.is_some() == (sources@.len() == width * height),
            r.is_some() ==> r.unwrap().wf() && r.unwrap().width == width && r.unwrap().height
                == height && r.unwrap().sources == sources,
    {
        let n: usize = sources.len();
        match width.checked_mul(height) {
            Some(cells) => {
                if n == cells {
                    Some(Rotation { width, height, sources })
                } else {
                    None
                }
            },
            None => None,
        }
    }
}

/// What a pixel of the rotated frame holds: the source pixel at `source`
/// where that lies inside the source image, the empty pixel elsewhere.
pub open spec fn sampled_pixel<T>(
    buf: Seq<T>,
    empty: Seq<T>,
    channels: nat,
    width: nat,
    height: nat,
    source: (i64, i64),
) -> Seq<T> {
    if 0 <= source.0 < width && 0 <= source.1 < height {
        pixel_at(buf, channels, width, source.0 as int, source.1 as int)
    } else {
        empty
    }
}

/// The rule that gives each cell of the rotated frame its pixel.
pub open spec fn rotated_cell<T>(
    buf: Seq<T>,
    empty: Seq<T>,
    channels: nat,
    width: nat,
    height: nat,
    rotation: Rotation,
) -> spec_fn(int, int) -> Seq<T> {
    |x: int, y: int|
        sampled_pixel(buf, empty, channels, width, height, rotation.source_of(x, y))
}

/// The image that `rotation` makes of `buf`.
pub open spec fn rotated<T>(
    buf: Seq<T>,
    empty: Seq<T>,
    channels: nat,
    width: nat,
    height: nat,
    rotation: Rotation,
) -> Seq<T> {
    image_of(
        channels,
        rotation.width as nat,
        rotation.height as nat,
        rotated_cell(buf, empty, channels, width, height, rotation),
    )
}

/// The rotated image has the shape of the rotation's frame, and each of its
/// pixels is the pixel sampled for it.
pub proof fn lemma_rotated_pixels<T>(
    buf: Seq<T>,
    empty: Seq<T>,
    channels: nat,
    width: nat,
    height: nat,
    rotation: Rotation,
)
    requires
        is_image(buf, channels, width, height),
        empty.len() == channels,
    ensures
        is_image(
            rotated(buf, empty, channels, width, height, rotation),
            channels,
            rotation.width as nat,
            rotation.height as nat,
        ),
        forall|x: int, y: int|
            0 <= x < rotation.width && 0 <= y < rotation.height ==> #[trigger] pixel_at(
                rotated(buf, empty, channels, width, height, rotation),
                channels,
                rotation.width as nat,
                x,
                y,
            ) == sampled_pixel(buf, empty, channels, width, height, rotation.source_of(x, y)),
{
    let cell = rotated_cell(buf, empty, channels, width, height, rotation);
    assert forall|x: int, y: int|
        0 <= x < rotation.width && 0 <= y < rotation.height implies (#[trigger] cell(x, y)).len()
        == channels by {
        let source = rotation.source_of(x, y);
        if 0 <= source.0 < width && 0 <= source.1 < height {
            lemma_cell_in_image(channels, width, height, source.0 as int, source.1 as int);
        }
    }
    lemma_image_of(channels, rotation.width as nat, rotation.height as nat, cell);
}

/// Rotating adds no colour: every pixel of the rotated image is the empty
/// pixel or a pixel of the source.
pub proof fn lemma_rotate_keeps_palette<T>(
    buf: Seq<T>,
    empty: Seq<T>,
    channels: nat,
    width: nat,
    height: nat,
    rotation: Rotation,
    x: int,
    y: int,
)
    requires
        is_image(buf, channels, width, height),
        empty.len() == channels,
        0 <= x < rotation.width,
        0 <= y < rotation.height,
    ensures
        ({
            let out = pixel_at(
                rotated(buf, empty, channels, width, height, rotation),
                channels,
                rotation.width as nat,
                x,
                y,
            );
            out == empty || has_pixel(buf, channels, width, height, out)
        }),
{
    lemma_rotated_pixels(buf, empty, channels, width, height, rotation);
    let source = rotation.source_of(x, y);
    if 0 <= source.0 < width && 0 <= source.1 < height {
        assert(pixel_at(buf, channels, width, source.0 as int, source.1 as int) == pixel_at(
            rotated(buf, empty, channels, width, height, rotation),
            channels,
            rotation.width as nat,
            x,
            y,
        ));
    }
}

/// Whether the rotation leaves every pixel where it is: its frame has the
/// size of the source, and each pixel is sampled from its own position.
pub open spec fn is_identity(rotation: Rotation, width: nat, height: nat) -> bool {
    &&& rotation.width == width
    &&& rotation.height == height
    &&& forall|x: int, y: int|
        0 <= x < width && 0 <= y < height ==> (#[trigger] rotation.source_of(x, y)).0 == x
            && rotation.source_of(x, y).1 == y
}

/// A rotation that leaves every pixel where it is gives the image back,
/// value for value.
pub proof fn lemma_identity_rotation<T>(
    buf: Seq<T>,
    empty: Seq<T>,
    channels: nat,
    width: nat,
    height: nat,
    rotation: Rotation,
)
    requires
        is_image(buf, channels, width, height),
        empty.len() == channels,
        is_identity(rotation, width, height),
    ensures
        rotated(buf, empty, channels, width, height, rotation) == buf,
{
    lemma_rotated_pixels(buf, empty, channels, width, height, rotation);
    let out = rotated(buf, empty, channels, width, height, rotation);
    assert forall|x: int, y: int| 0 <= x < width && 0 <= y < height implies #[trigger] pixel_at(
        out,
        channels,
        width,
        x,
        y,
    ) == pixel_at(buf, channels, width, x, y) by {
        let source = rotation.source_of(x, y);
        assert(source.0 == x && source.1 == y);
    }
    lemma_images_equal(out, buf, channels, width, height);
}

/// What the fast rotation needs of a valid image: an empty pixel of the
/// image's kind, and a rotation with one source position for each pixel of
/// a frame within the machine's range.
pub open spec fn can_fast_rotate(empty_len: nat, channels: nat, rotation: Rotation) -> bool {
    &&& empty_len == channels
    &&& rotation.wf()
    &&& rotation.fits(channels)
}

/// Whether `fast_rotate` can be called with these arguments.
pub fn fast_rotate_allowed<T>(
    buf: &[T],
    empty: &[T],
    channels: usize,
    width: usize,
    height: usize,
    rotation: &Rotation,
) -> (r: bool)
    ensures
        r == (buf@.len() > 0 && is_image(buf@, channels as nat, width as nat, height as nat)
            ==> can_fast_rotate(empty@.len(), channels as nat, *rotation)),
{
    if buf.len() == 0 || !has_image_size(buf.len(), channels, width, height) {
        true
    } else {
        empty.len() == channels && rotation.is_ready(channels)
    }
}

/// Rotates an image with the fast algorithm. No colour is added: every
/// pixel of the result is a pixel of the source or the empty pixel.
///
/// Fails with `EmptyBufferError` on a buffer without data, and with
/// `BufferSizeMismatch` on one whose length is not
/// `width * height * channels`.
#[verifier::loop_isolation(false)]
pub fn fast_rotate<T: Copy>(
    buf: &[T],
    empty: &[T],
    channels: usize,
    width: usize,
    height: usize,
    rotation: &Rotation,
) -> (r: StitchingResult<T>)
    requires
        buf@.len() > 0 && is_image(buf@, channels as nat, width as nat, height as nat)
            ==> can_fast_rotate(empty@.len(), channels as nat, *rotation),
    ensures
        match r {
            Ok((new_width, new_height, out)) => {
                &&& buf@.len() > 0
                &&& is_image(buf@, channels as nat, width as nat, height as nat)
                &&& new_width == rotation.width
                &&& new_height == rotation.height
                &&& is_image(out@, channels as nat, new_width as nat, new_height as nat)
                &&& out@ == rotated(
                    buf@,
                    empty@,
                    channels as nat,
                    width as nat,
                    height as nat,
                    *rotation,
                )
            },
            Err(ParsingError::EmptyBufferError) => buf@.len() == 0,
            Err(ParsingError::BufferSizeMismatch) => buf@.len() > 0 && !is_image(
                buf@,
                channels as nat,
                width as nat,
                height as nat,
            ),
        },
{
    if buf.len() == 0 {
        return Err(ParsingError::EmptyBufferError);
    }
    if !has_image_size(buf.len(), channels, width, height) {
        return Err(ParsingError::BufferSizeMismatch);
    }
    let new_width: usize = rotation.width;
    let new_height: usize = rotation.height;
    let cells: usize = rotation.sources.len();
    let mut out: Vec<T> = Vec::with_capacity(cells * channels);
    proof {
        assert(channels >= 1 && width >= 1 && height >= 1) by (nonlinear_arith)
            requires
                width * height * channels > 0,
        ;
        assert((0 * new_width) * channels == 0) by (nonlinear_arith);
    }
    let mut y: usize = 0;
    while y < new_height
        invariant
            y <= new_height,
            out@.len() == (y * new_width) * channels,
            forall|x0: int, y0: int|
                0 <= x0 < new_width && 0 <= y0 < y ==> #[trigger] pixel_at(
                    out@,
                    channels as nat,
                    new_width as nat,
                    x0,
                    y0,
                ) == sampled_pixel(
                    buf@,
                    empty@,
                    channels as nat,
                    width as nat,
                    height as nat,
                    rotation.source_of(x0, y0),
                ),
        decreases new_height - y,
    {
        let mut x: usize = 0;
        while x < new_width
            invariant
                x <= new_width,
                y < new_height,
                out@.len() == (y * new_width + x) * channels,
                forall|x0: int, y0: int|
                    0 <= x0 < new_width && 0 <= y0 && (y0 < y || (y0 == y && x0 < x))
                        ==> #[trigger] pixel_at(out@, channels as nat, new_width as nat, x0, y0)
                        == sampled_pixel(
                        buf@,
                        empty@,
                        channels as nat,
                        width as nat,
                        height as nat,
                        rotation.source_of(x0, y0),
                    ),
            decreases new_width - x,
        {
            proof {
                lemma_cell_in_image(
                    channels as nat,
                    new_width as nat,
                    new_height as nat,
                    x as int,
                    y as int,
                );
            }
            let source: (i64, i64) = rotation.sources[y * new_width + x];
            let ghost earlier = out@;
            if source.0 >= 0 && (source.0 as u64) < (width as u64) && source.1 >= 0 && (
            source.1 as u64) < (height as u64) {
                let sx: usize = source.0 as usize;
                let sy: usize = source.1 as usize;
                proof {
                    lemma_cell_in_image(
                        channels as nat,
                        width as nat,
                        height as nat,
                        sx as int,
                        sy as int,
                    );
                }
                push_pixel(&mut out, buf, (sy * width + sx) * channels, channels);
            } else {
                push_pixel(&mut out, empty, 0, channels);
                assert(empty@.subrange(0, channels as int) =~= empty@);
            }
            proof {
                lemma_append_pixel(
                    earlier,
                    sampled_pixel(
                        buf@,
                        empty@,
                        channels as nat,
                        width as nat,
                        height as nat,
                        source,
                    ),
                    channels as nat,
                    new_width as nat,
                    x as int,
                    y as int,
                );
            }
            x += 1;
        }
        proof {
            assert((y * new_width + new_width) * channels == ((y + 1) * new_width) * channels)
                by (nonlinear_arith);
        }
        y += 1;
    }
    proof {
        assert((new_height * new_width) * channels == new_width * new_height * channels)
            by (nonlinear_arith);
        lemma_is_image_of(
            out@,
            channels as nat,
            new_width as nat,
            new_height as nat,
            rotated_cell(buf@, empty@, channels as nat, width as nat, height as nat, *rotation),
        );
    }
    Ok((new_width, new_height, out))
}

} // verus!
