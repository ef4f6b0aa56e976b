//! A software rasterizer: lines, rectangles, circles, ellipses, triangle
//! outlines and flood fill, drawn into a row-major buffer of packed colors.
//!
//! Every drawing operation is specified by the exact set of pixel
//! coordinates it recolors; see [`view::CanvasView::paint`].

pub mod color;
pub mod view;
pub mod trace;
pub mod canvas;
pub mod rect;
pub mod circle;
pub mod line;
pub mod ellipse;
pub mod thick_ellipse;
pub mod flood;
pub mod triangle;
pub mod stroke;
pub mod shape;
pub mod ppm;
pub mod pixel_access;

pub use canvas::Canvas;
pub use canvas::SizeMismatch;
pub use color::{Color, ToColor};
