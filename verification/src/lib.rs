//! The logic of a small interactive shell: splitting a command line into
//! words and operators, classifying commands, building the syntax tree of
//! pipes and redirections, planning its execution, and completing names.
pub mod text;
pub mod words;
pub mod command;
pub mod commands;
pub mod lexer;
pub mod parser;
pub mod interpreter;
pub mod utils;
pub mod helper;
