//! Positioned, colored geometric primitives: what the layout engine
//! produces and a renderer consumes. They are plain data; nothing here
//! computes.

pub mod area;
pub mod axis;
pub mod bar;
pub mod legend;
pub mod line;
pub mod scatter;
