//! Counts the statements of a source file and how many of them sit inside
//! `unsafe` regions, and renders parse failures as annotated excerpts.
pub mod tree;
pub mod text;
pub mod render;
pub mod failure;
