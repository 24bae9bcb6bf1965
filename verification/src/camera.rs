//! The whole-number part of the camera's viewport geometry.

use crate::image::PPMImage;
use vstd::prelude::*;

verus! {

/// The width of the viewport, in whole units, for a viewport `viewport_height`
/// units high in front of an image: the height times the number of whole times
/// that the image's height goes into its width. The quotient is truncated on
/// purpose: an image at least as wide as it is high, but less than twice as
/// wide, gets a viewport exactly as wide as it is high.
pub open spec fn viewport_width_of(viewport_height: u32, image_width: u32, image_height: u32) -> int
    recommends
        image_height > 0,
{
    viewport_height * (image_width as int / image_height as int)
}

/// Computes the width of the viewport for `image`, which must have a height,
/// and whose viewport must not be wider than a `u32` can say.
pub fn viewport_width(viewport_height: u32, image: &PPMImage) -> (width: u32)
    requires
        image.height > 0,
        viewport_width_of(viewport_height, image.width, image.height) <= u32::MAX,
    ensures
        width == viewport_width_of(viewport_height, image.width, image.height),
{
    viewport_height * (image.width / image.height)
}

} // verus!
