//! Classification of the request-target token of an HTTP request line.
pub mod laws;
pub mod parser;
pub mod target;

pub use parser::parse;
pub use target::RequestTarget;
