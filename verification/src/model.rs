//! The song and book model: what the user writes, what the build works on,
//! and how the one is read into the other.
pub mod config;
pub mod input_model;
pub mod types;
pub mod readable;
pub mod world;
