pub mod text;
pub mod token;
pub mod lexer;
pub mod ast;
pub mod object;
pub mod environment;
pub mod host;
pub mod semantics;
pub mod evaluator;
pub mod builtins;
pub mod grammar;
pub mod parser;
pub mod replay;
pub mod fuel;
pub mod repl;
pub mod debug;
pub mod laws;
