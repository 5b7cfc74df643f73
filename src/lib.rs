//! A small ray tracer's discrete core: the pixel buffer and its RGBA packing,
//! the pixel-to-image-plane mapping of the camera, nearest-hit selection,
//! the shading decisions (background, light marker, lit surface, shadow) and
//! the row-by-row render loop.
pub mod camera;
pub mod hit;
pub mod image;
pub mod render;
pub mod shading;
