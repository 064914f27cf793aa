//! Integer and control logic of a sphere-tracing renderer for a noise-displaced
//! sphere: the row-major framebuffer, the pinhole camera's pixel grid, the
//! bounded marching loop, and the RGBA byte layout of the finished image.
pub mod camera;
pub mod encode;
pub mod grid;
pub mod march;
