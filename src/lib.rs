//! Integer core of a sphere ray tracer: the anti-aliasing sub-sample grid,
//! pixel placement on the image plane, byte quantisation and the RGB8 frame
//! buffer, the orbit schedule of an animation, and the names and labels that
//! the renderer prints or writes.
pub mod naming;
pub mod orbit;
pub mod raster;
pub mod sampling;
