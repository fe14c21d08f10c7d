pub mod bytecode;
pub mod cli;
pub mod environment;
pub mod error;
pub mod expression;
pub mod grammar;
pub mod interpreter;
pub mod parser;
pub mod resolution;
pub mod resolver;
pub mod scanner;
pub mod stmt;
pub mod text;
pub mod token;
pub mod value;
