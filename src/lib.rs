//! A small software rasterizer: lines and flat-shaded triangles drawn into a
//! row-major buffer of packed RGB pixels, with exact integer geometry.
//!
//! Coordinates are integer pixel positions; a buffer is a `Vec<u32>` read as
//! rows of `width` pixels. Every drawing function states, through
//! `canvas::paint`, exactly which pixels it sets; pixels that fall outside the
//! buffer are skipped, never wrapped.

pub mod canvas;
pub mod colors;
pub mod geometry;
pub mod line;
pub mod render;
pub mod triangle;

pub use canvas::set_pixel;
pub use colors::Color;
pub use geometry::{barycentric, is_inside_triangle, is_on_line, Barycentric, ScreenPosition};
pub use line::draw_line;
pub use render::{render_model, render_triangle, ShadedTriangle};
pub use triangle::{fill_triangle, fill_with, outline_triangle, triangle_line_sweep, FillStrategy};
