//! Helpers shared by the code generators.
pub mod collect_tokens;
pub mod generics;
