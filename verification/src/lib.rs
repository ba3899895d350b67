pub mod ast;
pub mod environment;
pub mod interpreter;
pub mod invariants;
pub mod lexer;
pub mod messages;
pub mod parser;
pub mod semantics;
pub mod session;
pub mod source;
pub mod text;
pub mod token;
pub mod value;
