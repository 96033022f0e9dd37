pub mod error;
pub mod lexer;
pub mod ast;
pub mod signature;
pub mod grammar;
pub mod parser;
pub mod router;
pub mod table;
pub mod codegen;
pub mod analysis;
pub mod reparse;
