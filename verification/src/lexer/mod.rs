//! Tokens and the rules that cut a source text into them.

pub mod scan;
pub mod tokens;

pub use tokens::Token;
