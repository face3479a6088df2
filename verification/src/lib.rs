//! A small source-to-source compiler for a macro-and-import extension of the
//! classic eight-operator tape-machine language.
//!
//! The pipeline has three stages, each a module of its own:
//! lexing ([`tokenizer`]), tree construction with inline macro and import
//! expansion ([`parser`]), and code generation into either the plain
//! tape-machine language or a C-like form ([`transpiler`]).

pub mod laws;
pub mod parser;
pub mod transpiler;
pub mod tokenizer;
