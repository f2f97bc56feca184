//! A persistent drawing canvas and the brush strokes that paint on it.
//!
//! A [`session::Session`] holds a [`canvas::Canvas`] and the pointer's state,
//! and takes in the user's input one [`session::Event`] at a time: a press
//! paints a circle, a drag carries the stroke on without gaps, the scroll
//! wheel resizes the brush, and a key chord asks for the drawing to be saved.
//!
//! Positions and radii are whole numbers of sub-pixel units, 256 to the
//! pixel, so that every statement about which pixels a stroke touches is
//! exact: a pixel is painted if and only if its centre lies in the region
//! that is filled.

mod arithmetic;
pub mod brush;
pub mod canvas;
pub mod color;
pub mod geometry;
pub mod session;
