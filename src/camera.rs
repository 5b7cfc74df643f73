use vstd::prelude::*;

verus! {

/// Where pixel `(x_pixel, y_pixel)` of an image `height` rows tall lies on the
/// image plane: one world unit per pixel, the x axis along the columns and the
/// y axis up, so that the raster's top row is the plane's highest.
pub fn image_plane_point(height: u32, x_pixel: u32, y_pixel: u32) -> (p: (u32, u32))
    requires
        y_pixel < height,
    ensures
        p.0 == x_pixel,
        p.1 == height - y_pixel - 1,
{
    (x_pixel, height - y_pixel - 1)
}

} // verus!
