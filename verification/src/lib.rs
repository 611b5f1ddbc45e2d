//! A bytecode compiler and stack machine for a small expression language.
//!
//! Source text is scanned into tokens (`scanner`), parsed by precedence
//! into bytecode (`compiler`, `chunk`), and executed on an operand stack
//! (`vm`) over booleans, doubles and nil (`value`, `number`). What a
//! well-formed expression compiles to and evaluates to is stated in
//! `expression`, that nothing else compiles in `recognition`, and what a
//! command-line front end decides in `cli`.
pub mod chunk;
pub mod cli;
pub mod compiler;
pub mod expression;
pub mod number;
pub mod recognition;
pub mod scanner;
pub mod value;
pub mod vm;
