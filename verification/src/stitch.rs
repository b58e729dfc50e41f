//! Stitching: a rotated appendage is laid over a source image so that the
//! anchor points of the two coincide, and the overlap is composited.

use vstd::prelude::*;
use crate::blend::{blend, is_blend, lemma_blend_opaque_top};
use crate::channel::StitchableType;
use crate::error::{ParsingError, StitchingOrder, StitchingQuality, StitchingResult};
use crate::image::{has_image_size, is_image, lemma_append_pixel, lemma_cell_in_image, pixel_at, pixel_slice, push_pixel};
use crate::quality::{can_fancy_rotate, fancy_rotate, fancy_rotated};
use crate::rotate::{can_fast_rotate, fast_rotate, rotated, Rotation};

verus! {

/// The larger of two numbers.
pub open spec fn larger(a: int, b: int) -> int {
    if a >= b {
        a
    } else {
        b
    }
}

/// Where two images lie on the canvas that holds both with their anchors
/// on one point.
pub struct Layout {
    /// The width of the canvas.
    pub width: int,
    /// The height of the canvas.
    pub height: int,
    /// The canvas column of the source's first column.
    pub src_left: int,
    /// The canvas row of the source's first row.
    pub src_top: int,
    /// The canvas column of the appendage's first column.
    pub app_left: int,
    /// The canvas row of the appendage's first row.
    pub app_top: int,
}

/// The layout of a source and a rotated appendage. In each of the four
/// directions the canvas reaches as far from the anchor as the image that
/// reaches farther.
pub open spec fn layout_of(
    src_dimensions: (int, int),
    src_anchor: (int, int),
    app_dimensions: (int, int),
    app_anchor: (int, int),
) -> Layout {
    let top = larger(src_anchor.1, app_anchor.1);
    let right = larger(src_dimensions.0 - src_anchor.0, app_dimensions.0 - app_anchor.0);
    let bottom = larger(src_dimensions.1 - src_anchor.1, app_dimensions.1 - app_anchor.1);
    let left = larger(src_anchor.0, app_anchor.0);
    Layout {
        width: left + right,
        height: top + bottom,
        src_left: left - src_anchor.0,
        src_top: top - src_anchor.1,
        app_left: left - app_anchor.0,
        app_top: top - app_anchor.1,
    }
}

/// The canvas holds both images whole, and the two anchors lie on one cell
/// of it.
pub proof fn lemma_layout_holds_both(
    src_dimensions: (int, int),
    src_anchor: (int, int),
    app_dimensions: (int, int),
    app_anchor: (int, int),
)
    requires
        0 <= src_anchor.0 <= src_dimensions.0,
        0 <= src_anchor.1 <= src_dimensions.1,
        0 <= app_anchor.0 <= app_dimensions.0,
        0 <= app_anchor.1 <= app_dimensions.1,
    ensures
        ({
            let layout = layout_of(src_dimensions, src_anchor, app_dimensions, app_anchor);
            &&& 0 <= layout.src_left
            &&& layout.src_left + src_dimensions.0 <= layout.width
            &&& 0 <= layout.src_top
            &&& layout.src_top + src_dimensions.1 <= layout.height
            &&& 0 <= layout.app_left
            &&& layout.app_left + app_dimensions.0 <= layout.width
            &&& 0 <= layout.app_top
            &&& layout.app_top + app_dimensions.1 <= layout.height
            &&& layout.src_left + src_anchor.0 == layout.app_left + app_anchor.0
            &&& layout.src_top + src_anchor.1 == layout.app_top + app_anchor.1
            &&& layout.src_left == 0 || layout.app_left == 0
            &&& layout.src_top == 0 || layout.app_top == 0
        }),
{
}

/// Whether canvas cell (`x`, `y`) lies in the image of the given size whose
/// first pixel is on canvas cell (`left`, `top`).
pub open spec fn covers(left: int, top: int, dimensions: (int, int), x: int, y: int) -> bool {
    left <= x < left + dimensions.0 && top <= y < top + dimensions.1
}

/// The canvas pixel before the appendage is laid on: the source's pixel
/// where the source lies, the empty pixel elsewhere.
pub open spec fn base_pixel<T>(
    src: Seq<T>,
    empty: Seq<T>,
    channels: nat,
    src_dimensions: (int, int),
    layout: Layout,
    x: int,
    y: int,
) -> Seq<T> {
    if covers(layout.src_left, layout.src_top, src_dimensions, x, y) {
        pixel_at(src, channels, src_dimensions.0 as nat, x - layout.src_left, y - layout.src_top)
    } else {
        empty
    }
}

/// Whether `result` is what the stitched canvas holds in cell (`x`, `y`).
/// Outside the appendage it is the base pixel. Under the appendage it is
/// the composite of the appendage's pixel and the base pixel, the one over
/// the other as `order` says.
pub open spec fn is_stitched_pixel<T: StitchableType>(
    result: Seq<T>,
    src: Seq<T>,
    turned: Seq<T>,
    empty: Seq<T>,
    channels: nat,
    src_dimensions: (int, int),
    app_dimensions: (int, int),
    layout: Layout,
    order: StitchingOrder,
    x: int,
    y: int,
) -> bool {
    let base = base_pixel(src, empty, channels, src_dimensions, layout, x, y);
    if covers(layout.app_left, layout.app_top, app_dimensions, x, y) {
        let over = pixel_at(
            turned,
            channels,
            app_dimensions.0 as nat,
            x - layout.app_left,
            y - layout.app_top,
        );
        match order {
            StitchingOrder::AppendageOnTop => is_blend(result, over, base),
            StitchingOrder::SourceOnTop => is_blend(result, base, over),
        }
    } else {
        result == base
    }
}

/// Where the appendage lies on top, a fully opaque pixel of it stands in
/// the canvas unchanged.
pub proof fn lemma_opaque_appendage_covers<T: StitchableType>(
    result: Seq<T>,
    src: Seq<T>,
    turned: Seq<T>,
    empty: Seq<T>,
    channels: nat,
    src_dimensions: (int, int),
    app_dimensions: (int, int),
    layout: Layout,
    x: int,
    y: int,
)
    requires
        covers(layout.app_left, layout.app_top, app_dimensions, x, y),
        is_stitched_pixel(
            result,
            src,
            turned,
            empty,
            channels,
            src_dimensions,
            app_dimensions,
            layout,
            StitchingOrder::AppendageOnTop,
            x,
            y,
        ),
        ({
            let over = pixel_at(
                turned,
                channels,
                app_dimensions.0 as nat,
                x - layout.app_left,
                y - layout.app_top,
            );
            over.len() >= 1 && over[over.len() - 1].level() == T::max_level()
        }),
    ensures
        result == pixel_at(
            turned,
            channels,
            app_dimensions.0 as nat,
            x - layout.app_left,
            y - layout.app_top,
        ),
{
    let over = pixel_at(
        turned,
        channels,
        app_dimensions.0 as nat,
        x - layout.app_left,
        y - layout.app_top,
    );
    let base = base_pixel(src, empty, channels, src_dimensions, layout, x, y);
    lemma_blend_opaque_top(result, over, base);
}

/// Whether `canvas` is the stitched image of `src` and the rotated
/// appendage `turned`.
pub open spec fn is_stitched<T: StitchableType>(
    canvas: Seq<T>,
    src: Seq<T>,
    turned: Seq<T>,
    empty: Seq<T>,
    channels: nat,
    src_dimensions: (int, int),
    app_dimensions: (int, int),
    layout: Layout,
    order: StitchingOrder,
) -> bool {
    &&& is_image(canvas, channels, layout.width as nat, layout.height as nat)
    &&& forall|x: int, y: int|
        0 <= x < layout.width && 0 <= y < layout.height ==> is_stitched_pixel(
            #[trigger] pixel_at(canvas, channels, layout.width as nat, x, y),
            src,
            turned,
            empty,
            channels,
            src_dimensions,
            app_dimensions,
            layout,
            order,
            x,
            y,
        )
}

/// The size of the rotated appendage: that of the rotation's frame, or an
/// eighth of it where the rotation is made at eight times the resolution.
pub open spec fn turned_dimensions(rotation: Rotation, quality: StitchingQuality) -> (int, int) {
    match quality {
        StitchingQuality::Fast => (rotation.width as int, rotation.height as int),
        StitchingQuality::Fancy => ((rotation.width / 8) as int, (rotation.height / 8) as int),
    }
}

/// The rotated appendage.
pub open spec fn turned_image<T>(
    appendage: Seq<T>,
    empty: Seq<T>,
    channels: nat,
    dimensions: (usize, usize),
    rotation: Rotation,
    quality: StitchingQuality,
) -> Seq<T> {
    match quality {
        StitchingQuality::Fast => rotated(
            appendage,
            empty,
            channels,
            dimensions.0 as nat,
            dimensions.1 as nat,
            rotation,
        ),
        StitchingQuality::Fancy => fancy_rotated(
            appendage,
            empty,
            channels,
            dimensions.0 as nat,
            dimensions.1 as nat,
            rotation,
        ),
    }
}

/// Whether the buffer holds data and has the length that its shape asks for.
pub open spec fn is_valid<T>(buf: Seq<T>, channels: nat, dimensions: (usize, usize)) -> bool {
    buf.len() > 0 && is_image(buf, channels, dimensions.0 as nat, dimensions.1 as nat)
}

/// The layout that `stitch` gives the source and the rotated appendage.
pub open spec fn stitch_layout(
    src_dimensions: (usize, usize),
    src_anchor: (usize, usize),
    rotation: Rotation,
    rotated_anchor: (usize, usize),
    quality: StitchingQuality,
) -> Layout {
    layout_of(
        (src_dimensions.0 as int, src_dimensions.1 as int),
        (src_anchor.0 as int, src_anchor.1 as int),
        turned_dimensions(rotation, quality),
        (rotated_anchor.0 as int, rotated_anchor.1 as int),
    )
}

/// What the rotation of a valid appendage needs.
pub open spec fn can_turn(
    empty_len: nat,
    channels: nat,
    dimensions: (usize, usize),
    rotation: Rotation,
    quality: StitchingQuality,
) -> bool {
    match quality {
        StitchingQuality::Fast => can_fast_rotate(empty_len, channels, rotation),
        StitchingQuality::Fancy => can_fancy_rotate(
            empty_len,
            channels,
            dimensions.0 as nat,
            dimensions.1 as nat,
            rotation,
        ),
    }
}

/// What laying out two valid images needs: each anchor within its image,
/// and a canvas within the machine's range.
pub open spec fn can_lay_out(
    channels: nat,
    src_dimensions: (usize, usize),
    src_anchor: (usize, usize),
    rotation: Rotation,
    rotated_anchor: (usize, usize),
    quality: StitchingQuality,
) -> bool {
    let layout = stitch_layout(src_dimensions, src_anchor, rotation, rotated_anchor, quality);
    &&& src_anchor.0 <= src_dimensions.0
    &&& src_anchor.1 <= src_dimensions.1
    &&& rotated_anchor.0 <= turned_dimensions(rotation, quality).0
    &&& rotated_anchor.1 <= turned_dimensions(rotation, quality).1
    &&& layout.width * layout.height * channels <= usize::MAX
}

/// The larger of two numbers.
fn larger_of(a: usize, b: usize) -> (r: usize)
    ensures
        r == larger(a as int, b as int),
{
    if a >= b {
        a
    } else {
        b
    }
}

/// Whether `stitch` can be called with these arguments.
pub fn stitch_allowed<T: StitchableType>(
    src: &[T],
    appendage: &[T],
    empty: &[T],
    channels: usize,
    src_dimensions: (usize, usize),
    src_anchor: (usize, usize),
    appendage_dimensions: (usize, usize),
    rotation: &Rotation,
    rotated_anchor: (usize, usize),
    quality: StitchingQuality,
) -> (r: bool)
    ensures
        r == ((is_valid(appendage@, channels as nat, appendage_dimensions) ==> can_turn(
            empty@.len(),
            channels as nat,
            appendage_dimensions,
            *rotation,
            quality,
        )) && (is_valid(appendage@, channels as nat, appendage_dimensions) && is_valid(
            src@,
            channels as nat,
            src_dimensions,
        ) ==> can_lay_out(
            channels as nat,
            src_dimensions,
            src_anchor,
            *rotation,
            rotated_anchor,
            quality,
        ))),
{
    if appendage.len() == 0 || !has_image_size(
        appendage.len(),
        channels,
        appendage_dimensions.0,
        appendage_dimensions.1,
    ) {
        return true;
    }
    if empty.len() != channels || !rotation.is_ready(channels) {
        return false;
    }
    let (app_width, app_height) = match quality {
        StitchingQuality::Fast => (rotation.width, rotation.height),
        StitchingQuality::Fancy => {
            if appendage.len().checked_mul(64).is_none() {
                return false;
            }
            (rotation.width / 8, rotation.height / 8)
        },
    };
    let (src_width, src_height) = src_dimensions;
    if src.len() == 0 || !has_image_size(src.len(), channels, src_width, src_height) {
        return true;
    }
    if src_anchor.0 > src_width || src_anchor.1 > src_height || rotated_anchor.0 > app_width
        || rotated_anchor.1 > app_height {
        return false;
    }
    let above: usize = larger_of(src_anchor.1, rotated_anchor.1);
    let right: usize = larger_of(src_width - src_anchor.0, app_width - rotated_anchor.0);
    let below: usize = larger_of(src_height - src_anchor.1, app_height - rotated_anchor.1);
    let left: usize = larger_of(src_anchor.0, rotated_anchor.0);
    let ghost layout = stitch_layout(src_dimensions, src_anchor, *rotation, rotated_anchor, quality);
    proof {
        assert(channels >= 1 && src_width >= 1 && src_height >= 1) by (nonlinear_arith)
            requires
                src_width * src_height * channels > 0,
        ;
        let (w, h) = (layout.width, layout.height);
        assert(w <= w * h * channels && h <= w * h * channels && w * h <= w * h * channels)
            by (nonlinear_arith)
            requires
                w >= 1,
                h >= 1,
                channels >= 1,
        ;
    }
    match (left.checked_add(right), above.checked_add(below)) {
        (Some(width), Some(height)) => match width.checked_mul(height) {
            Some(cells) => cells.checked_mul(channels).is_some(),
            None => false,
        },
        _ => false,
    }
}

/// Stitches two images together.
///
/// The appendage is rotated as `rotation` says, with the algorithm that
/// `quality` names; `rotated_anchor` is the appendage's anchor in the
/// rotated frame. The canvas is as large as it takes to hold the source and
/// the rotated appendage with their anchors on one point. It is filled with
/// the empty pixel, the source is copied onto it, and each pixel of the
/// appendage is composited with what lies there, above or below it as `top`
/// says.
///
/// Fails with `EmptyBufferError` where the appendage, or else the source,
/// holds no data, and with `BufferSizeMismatch` where the length of the
/// appendage, or else of the source, does not fit its dimensions. The
/// appendage is looked at first.
#[verifier::loop_isolation(false)]
pub fn stitch<T: StitchableType>(
    src: &[T],
    appendage: &[T],
    empty: &[T],
    channels: usize,
    src_dimensions: (usize, usize),
    src_anchor: (usize, usize),
    appendage_dimensions: (usize, usize),
    rotation: &Rotation,
    rotated_anchor: (usize, usize),
    top: StitchingOrder,
    quality: StitchingQuality,
) -> (r: StitchingResult<T>)
    requires
        is_valid(appendage@, channels as nat, appendage_dimensions) ==> can_turn(
            empty@.len(),
            channels as nat,
            appendage_dimensions,
            *rotation,
            quality,
        ),
        is_valid(appendage@, channels as nat, appendage_dimensions) && is_valid(
            src@,
            channels as nat,
            src_dimensions,
        ) ==> can_lay_out(
            channels as nat,
            src_dimensions,
            src_anchor,
            *rotation,
            rotated_anchor,
            quality,
        ),
    ensures
        match r {
            Ok((width, height, canvas)) => {
                let layout = stitch_layout(
                    src_dimensions,
                    src_anchor,
                    *rotation,
                    rotated_anchor,
                    quality,
                );
                &&& is_valid(appendage@, channels as nat, appendage_dimensions)
                &&& is_valid(src@, channels as nat, src_dimensions)
                &&& width == layout.width
                &&& height == layout.height
                &&& is_stitched(
                    canvas@,
                    src@,
                    turned_image(
                        appendage@,
                        empty@,
                        channels as nat,
                        appendage_dimensions,
                        *rotation,
                        quality,
                    ),
                    empty@,
                    channels as nat,
                    (src_dimensions.0 as int, src_dimensions.1 as int),
                    turned_dimensions(*rotation, quality),
                    layout,
                    top,
                )
            },
            Err(ParsingError::EmptyBufferError) => appendage@.len() == 0 || (is_valid(
                appendage@,
                channels as nat,
                appendage_dimensions,
            ) && src@.len() == 0),
            Err(ParsingError::BufferSizeMismatch) => (appendage@.len() > 0 && !is_valid(
                appendage@,
                channels as nat,
                appendage_dimensions,
            )) || (is_valid(appendage@, channels as nat, appendage_dimensions) && src@.len() > 0
                && !is_valid(src@, channels as nat, src_dimensions)),
        },
{
    let turned = match quality {
        StitchingQuality::Fancy => fancy_rotate(
            appendage,
            empty,
            channels,
            appendage_dimensions.0,
            appendage_dimensions.1,
            rotation,
        ),
        StitchingQuality::Fast => fast_rotate(
            appendage,
            empty,
            channels,
            appendage_dimensions.0,
            appendage_dimensions.1,
            rotation,
        ),
    };
    let (app_width, app_height, over) = match turned {
        Ok(image) => image,
        Err(e) => {
            return Err(e);
        },
    };
    if src.len() == 0 {
        return Err(ParsingError::EmptyBufferError);
    }
    let (src_width, src_height) = src_dimensions;
    if !has_image_size(src.len(), channels, src_width, src_height) {
        return Err(ParsingError::BufferSizeMismatch);
    }
    let ghost layout = stitch_layout(src_dimensions, src_anchor, *rotation, rotated_anchor, quality);
    let ghost src_dims = (src_dimensions.0 as int, src_dimensions.1 as int);
    let ghost app_dims = turned_dimensions(*rotation, quality);
    let ghost turned_seq = over@;
    proof {
        assert(channels >= 1 && src_width >= 1 && src_height >= 1) by (nonlinear_arith)
            requires
                src_width * src_height * channels > 0,
        ;
        assert(layout.width >= 1 && layout.height >= 1);
        let (w, h) = (layout.width, layout.height);
        assert(w <= w * h * channels && h <= w * h * channels && w * h <= w * h * channels)
            by (nonlinear_arith)
            requires
                w >= 1,
                h >= 1,
                channels >= 1,
        ;
        assert((0 * w) * channels == 0) by (nonlinear_arith);
    }
    let above: usize = larger_of(src_anchor.1, rotated_anchor.1);
    let right: usize = larger_of(src_width - src_anchor.0, app_width - rotated_anchor.0);
    let below: usize = larger_of(src_height - src_anchor.1, app_height - rotated_anchor.1);
    let left: usize = larger_of(src_anchor.0, rotated_anchor.0);
    let width: usize = left + right;
    let height: usize = above + below;
    let app_left: usize = left - rotated_anchor.0;
    let app_top: usize = above - rotated_anchor.1;
    let src_left: usize = left - src_anchor.0;
    let src_top: usize = above - src_anchor.1;
    let mut res: Vec<T> = Vec::with_capacity(width * height * channels);
    let mut y: usize = 0;
    while y < height
        invariant
            y <= height,
            res@.len() == (y * width) * channels,
            forall|x0: int, y0: int|
                0 <= x0 < width && 0 <= y0 < y ==> is_stitched_pixel(
                    #[trigger] pixel_at(res@, channels as nat, width as nat, x0, y0),
                    src@,
                    turned_seq,
                    empty@,
                    channels as nat,
                    src_dims,
                    app_dims,
                    layout,
                    top,
                    x0,
                    y0,
                ),
        decreases height - y,
    {
        let mut x: usize = 0;
        while x < width
            invariant
                x <= width,
                y < height,
                res@.len() == (y * width + x) * channels,
                forall|x0: int, y0: int|
                    0 <= x0 < width && 0 <= y0 && (y0 < y || (y0 == y && x0 < x))
                        ==> is_stitched_pixel(
                        #[trigger] pixel_at(res@, channels as nat, width as nat, x0, y0),
                        src@,
                        turned_seq,
                        empty@,
                        channels as nat,
                        src_dims,
                        app_dims,
                        layout,
                        top,
                        x0,
                        y0,
                    ),
            decreases width - x,
        {
            let base: &[T] = if x >= src_left && x - src_left < src_width && y >= src_top && y
                - src_top < src_height {
                pixel_slice(src, channels, src_width, src_height, x - src_left, y - src_top)
            } else {
                empty
            };
            assert(base@ == base_pixel(src@, empty@, channels as nat, src_dims, layout, x as int, y as int));
            let ghost earlier = res@;
            let ghost pushed: Seq<T>;
            if x >= app_left && x - app_left < app_width && y >= app_top && y - app_top
                < app_height {
                let lying = pixel_slice(
                    over.as_slice(),
                    channels,
                    app_width,
                    app_height,
                    x - app_left,
                    y - app_top,
                );
                let blended = match top {
                    StitchingOrder::AppendageOnTop => blend(lying, base),
                    StitchingOrder::SourceOnTop => blend(base, lying),
                };
                push_pixel(&mut res, blended.as_slice(), 0, channels);
                proof {
                    pushed = blended@;
                    assert(blended@.subrange(0, channels as int) =~= blended@);
                }
            } else {
                push_pixel(&mut res, base, 0, channels);
                proof {
                    pushed = base@;
                    assert(base@.subrange(0, channels as int) =~= base@);
                }
            }
            proof {
                lemma_cell_in_image(
                    channels as nat,
                    width as nat,
                    height as nat,
                    x as int,
                    y as int,
                );
                lemma_append_pixel(
                    earlier,
                    pushed,
                    channels as nat,
                    width as nat,
                    x as int,
                    y as int,
                );
            }
            x += 1;
        }
        proof {
            assert((y * width + width) * channels == ((y + 1) * width) * channels)
                by (nonlinear_arith);
        }
        y += 1;
    }
    proof {
        assert((height * width) * channels == width * height * channels) by (nonlinear_arith);
    }
    Ok((width, height, res))
}

} // verus!
