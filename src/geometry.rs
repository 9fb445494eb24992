//! The values a document describes: numbers, positions, colors, vertices and faces.
pub mod color;
pub mod decimal;
pub mod mesh;
pub mod position;
