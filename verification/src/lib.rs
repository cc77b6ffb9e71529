pub mod laws;
pub mod lexer;
pub mod parser;
pub mod statement_laws;
pub mod text;
pub mod types;

pub use parser::parse;
pub use types::{Column, Command, Operator, Type, Value};
