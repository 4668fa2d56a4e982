//! The computational core of a raster image editor: circle/square coverage,
//! an RGBA pixel buffer, the image/screen coordinate transform with its
//! pan/zoom controller, and an anti-aliased circular brush.
//!
//! All geometry is exact integer arithmetic. Positions and lengths are counted
//! in sub-units (`SUB` of them per pixel or per screen point), a zoom scale in
//! `SCALE_ONE`-ths, and the coverage of a pixel in `COVERAGE_FULL`-ths.
pub mod document;
pub mod math;
pub mod pixel_buffer;
pub mod tools;
pub mod viewport;

pub use math::{
    lerp, rectangle_circle_intersection_slow, square_circle_intersection, COVERAGE_FULL,
    GEOMETRY_LIMIT, SAMPLES_PER_DIM,
};
pub use pixel_buffer::PixelBuffer;
