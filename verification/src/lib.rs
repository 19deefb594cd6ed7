//! Parsing, validation and rendering logic for `.px` pixel-art documents.

pub mod text;
pub mod error;
pub mod model;
pub mod parser;
pub mod image;
pub mod ppm;
pub mod renderer;
pub mod cli;
