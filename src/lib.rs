//! The inverse of string formatting: match a candidate string against a
//! template with `{}` placeholders and recover what each placeholder stood for.
pub mod laws;
mod matcher;
pub mod template;

pub use matcher::{captures_view, readf, readf1, try_readf, AmbiguousTemplate};
