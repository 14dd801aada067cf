pub mod token;
pub mod text;
pub mod error;
pub mod lexer;
pub mod ast;
pub mod ast_copy;
pub mod visit;
pub mod parser;
pub mod compiler;
pub mod strmap;
pub mod interpreter;
pub mod vm;
pub mod processes;
pub mod rdl_number;
