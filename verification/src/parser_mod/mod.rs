pub mod text;
pub mod pattern;
pub mod parser;
pub mod lexer;
pub mod token;
