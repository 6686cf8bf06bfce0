pub mod ast;
pub mod dump;
pub mod laws;
pub mod parse;
pub mod tokenize;
pub mod utils;
