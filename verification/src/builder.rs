//! Support for generated builders.
pub mod error;
