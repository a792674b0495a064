//! Small utilities (a union-find forest with per-set data, bit iteration,
//! iterator helpers, a peekable stream, a few `Option`/`Result`/tuple
//! conveniences) and the code generators behind three derives: a builder,
//! `From` impls for enum variants, and enum accessors.
pub mod builder;
pub mod builder_macro;
pub mod debug_assert;
pub mod derive_input;
pub mod enum_extract;
pub mod from_variants;
pub mod iter;
pub mod iter_ones;
pub mod option;
pub mod peekable_stream;
pub mod proc_macro_util;
pub mod result;
pub mod tokens;
pub mod tuple;
pub mod union_find;
