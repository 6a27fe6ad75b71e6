//! Decoders for PNG, BMP and Netpbm image data, with verified contracts.
use vstd::prelude::*;

pub mod ascii_array;
pub mod basic_image;
pub mod bit_depth_changes;
pub mod bmp;
mod byte_groups;
pub mod error;
pub mod image;
pub mod int_endian;
pub mod iterators;
pub mod netpbm;
pub mod pixel_formats;
pub mod png;

pub use error::ImagineError;

use crate::image::{Bitmap, is_vertical_flip, lemma_full_grid_flip_fits};
use crate::netpbm::pnm::{NetpbmRgb, netpbm_try_bitmap_rgba, spec_pull_header, spec_for_each_rgb, black};
use crate::bmp::paint::resized;

verus! {

/// sRGB intent of an image.
///
/// Unless you're able to color correct, the exact value doesn't really
/// matter; knowing whether image data is sRGB at all can be helpful.
#[derive(Debug, Clone, Copy, PartialEq, Eq, Structural, PartialOrd, Ord, Hash)]
#[allow(non_camel_case_types)]
pub enum sRGBIntent {
    Perceptual,
    RelativeColorimetric,
    Saturation,
    AbsoluteColorimetric,
}

/// What the automatic decoder makes of a file: the Netpbm image (before any
/// flip), or `None` when the file isn't one it can decode.
pub open spec fn spec_auto_image(bytes: Seq<u8>) -> Option<(u32, u32, Seq<NetpbmRgb>)> {
    match spec_pull_header(bytes) {
        Err(_) => None,
        Ok((h, _)) => if h.width > 17_000 || h.height > 17_000 {
            None
        } else {
            match spec_for_each_rgb(bytes) {
                Err(_) => None,
                Ok(px) => Some((h.width, h.height, resized(px, (h.width * h.height) as nat, black()))),
            }
        },
    }
}

/// Automatically allocates and fills in a [Bitmap](crate::image::Bitmap),
/// trying each format the library decodes this way (Netpbm), or fails with
/// `Parse` when none works.
///
/// The image is flipped as needed so that its origin is the top left when
/// `origin_top_left` is set, the bottom left otherwise.
pub fn try_bitmap_rgba(bytes: &[u8], origin_top_left: bool) -> (r: Result<Bitmap<NetpbmRgb>, ImagineError>)
    ensures
        match spec_auto_image(bytes@) {
            None => r == Err::<Bitmap<NetpbmRgb>, ImagineError>(ImagineError::Parse),
            Some((w, h, px)) => r matches Ok(bm) && bm.width == w && bm.height == h && if origin_top_left {
                bm.pixels@ == px
            } else {
                is_vertical_flip(px, bm.pixels@, w, h)
            },
        },
{
    match netpbm_try_bitmap_rgba(bytes) {
        Ok(mut bitmap) => {
            if !origin_top_left {
                proof {
                    lemma_full_grid_flip_fits(bitmap.width, bitmap.height);
                }
                bitmap.vertical_flip();
            }
            Ok(bitmap)
        },
        Err(_) => Err(ImagineError::Parse),
    }
}

} // verus!
