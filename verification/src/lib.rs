//! A small C-like language compiled to a custom bytecode and executed on a
//! stack-based virtual machine.
//!
//! - `token`: the lexical vocabulary produced by the lexer.
//! - `lexer`: turns source text into a sequence of tokens, proved to
//!   produce exactly the tokens a specification-level tokenization of
//!   the text prescribes.
//! - `instruction`: the bytecode vocabulary shared by compiler and machine.
//! - `parser`: a single-pass parser and code generator, proved to
//!   return exactly the code and tables a specification-level compile
//!   function of the token stream prescribes, with every jump
//!   resolving to a uniquely-marked label.
//! - `vm`: the virtual machine, with a specification-level small-step
//!   semantics that its interpreter loop is proved to implement.
//! - `laws`: proved properties of the machine semantics: determinism,
//!   the call protocol's left-to-right argument binding, address-of
//!   round trips, and the behaviour of the compiler's branch, loop,
//!   conditional and arithmetic code shapes.
//!
//! The language compiled is the integer language: a float literal is
//! recognised by the lexer but raises a fatal compile error, since
//! floating point lies outside what this library models.

pub mod instruction;
pub mod laws;
pub mod lexer;
pub mod parser;
pub mod token;
pub mod vm;
