pub mod exceptions;
pub mod reader;
