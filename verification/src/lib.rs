/// The statements of the language, as trees and as mathematical values.
pub mod ast;
/// What is taken on trust of the ordered map that holds the variables.
pub mod bindings;
/// Integers as decimal text.
pub mod decimal;
/// Functions, tables of functions and environments.
pub mod env;
/// The errors of the interpreter.
pub mod error;
/// The grammar: what each rule reads from a text at a position.
pub mod grammar;
/// What holds of every text under the grammar.
pub mod grammar_laws;
/// The interpreter: runs statements on an environment.
pub mod interpreter;
/// What holds of every run.
pub mod laws;
/// The parser: reads a text as the grammar says.
pub mod parser;
/// The meaning of the language: what a run of statements does to a state.
pub mod semantics;
/// What is taken on trust of characters and strings.
pub mod text;
