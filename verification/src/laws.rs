//! What holds of every document that the parser gives.

pub mod cursor;
pub mod layout;
pub mod spans;
