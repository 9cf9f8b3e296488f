//! Geometry of the preprocessing of images: the model only looks at square pictures.

use vstd::prelude::*;

verus! {

/// Side length, in pixels, that images are scaled to before they are sent; the service
/// would shrink them to it anyway.
pub const DESIRED_IMAGE_SIZE: u32 = 384;

/// The square, centred region of an image of the given size: its left and top offsets
/// and its side, the shorter side of the image.
pub fn center_crop(width: u32, height: u32) -> (r: (u32, u32, u32))
    ensures
        r.2 == (if width <= height {
            width
        } else {
            height
        }),
        r.0 == (width - r.2) / 2,
        r.1 == (height - r.2) / 2,
        r.0 + r.2 <= width,
        r.1 + r.2 <= height,
{
    let size = if width <= height {
        width
    } else {
        height
    };
    ((width - size) / 2, (height - size) / 2, size)
}

} // verus!
