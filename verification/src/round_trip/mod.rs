//! What holds of a value that is written as text and read again.

pub mod model;
pub mod numbers;
pub mod reading;
pub mod theorem;
pub mod writing;
