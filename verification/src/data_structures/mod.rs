//! Data structures for the components of a JSON document.

pub mod first_error;
pub mod j_number;
pub mod j_object;
pub mod j_string;
pub mod j_value;
pub mod j_whitespace;
pub mod number_value;
pub mod ws;

pub use crate::serializer::Serialize;
pub use j_number::JNumber;
pub use j_number::Sign;
pub use j_object::JObject;
pub use j_string::JString;
pub use j_value::JValue;
pub use j_whitespace::JWhitespace;
pub use ws::Ws;
