//! The first title's tools: their model reader, texture reader and translation table.
pub mod text;
pub mod xbo;
pub mod xpr;
