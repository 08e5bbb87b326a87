//! From text to tokens, and from tokens to a value tree.

pub mod parser;
pub mod tokenizer;
pub mod well_formed;

pub use self::parser::parse;
pub use self::tokenizer::tokenize;
