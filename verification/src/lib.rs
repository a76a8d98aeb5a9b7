pub mod ast;
pub mod context;
pub mod error;
pub mod parser;
pub mod source_file;
pub mod token;
