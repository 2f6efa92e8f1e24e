//! What the generator for the systems target decides.
pub mod common;
pub mod rust_struct;
