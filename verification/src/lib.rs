//! A JSON text parser: a tokenizer, a recogniser for numeric literals and a
//! recursive-descent parser that builds a value tree, together with the
//! compact serializer that turns such a tree back into text.

pub mod data_structures;
pub mod parser;
pub mod round_trip;
pub mod serializer;
pub mod text;
