//! Decoding of font metadata from binary font containers.

pub mod parser;
pub mod woff_parser;

pub use parser::FontData;
