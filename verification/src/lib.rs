//! Palette-preserving rotation and anchor-based stitching of raster images
//! held as flat, row-major, channel-interleaved pixel buffers.
//!
//! An image is rotated without mixing colours: every pixel of the result is
//! a pixel of the source or the caller's empty pixel. The fast rotation
//! samples the source directly; the fancy rotation doubles the image three
//! times with a corner rule that keeps edges sharp, rotates it at that size
//! and reduces it again by majority vote. Stitching lays a rotated
//! appendage over a source image so that their anchor points coincide, and
//! composites the overlap by the opacity of the pixel on top.
//!
//! The library works in whole numbers throughout. The geometry of a
//! rotation is a [`rotate::Rotation`]: the size of the rotated frame and the
//! source position of each of its pixels, which the caller works out from
//! the angle.

pub mod channel;
pub mod error;
pub mod image;
pub mod upscale;
pub mod rotate;
pub mod blend;
pub mod downscale;
pub mod quality;
pub mod stitch;

pub use crate::blend::blend;
pub use crate::channel::StitchableType;
pub use crate::downscale::{downscale, find_mode};
pub use crate::error::{ParsingError, StitchingOrder, StitchingQuality, StitchingResult};
pub use crate::quality::fancy_rotate;
pub use crate::rotate::{fast_rotate, Rotation};
pub use crate::stitch::stitch;
pub use crate::upscale::{apply_scale2x_block, copy_to_vec, upscale};
