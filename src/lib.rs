//! A whiteboard drawing engine: world and screen coordinates, shapes built
//! from pointer gestures, an undo/redo history and an SVG codec.

pub mod units;
pub mod transform;
pub mod style;
pub mod shape;
pub mod document;
pub mod geom;
pub mod eraser;
pub mod tools;
pub mod controller;
pub mod codec;
pub mod files;
