//! Rewrites bare identifiers in a token stream into the fully qualified paths that
//! `use` declarations at its head bind them to.
pub mod tokens;
pub mod path;
pub mod rewrite;
pub mod parse;
pub mod prelude;
pub mod expand;
pub mod laws;
