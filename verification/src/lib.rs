//! Evaluation engine for a small dynamically-typed, class-based language whose
//! only dispatch mechanism is structural pattern matching over method argument
//! lists.
//!
//! The crate is organised leaves-first:
//! - [`lexer`]: tokens, their accessors, and the scanner;
//! - [`ast`]: the syntax tree and its mathematical view;
//! - [`parser`]: recursive descent from tokens to the tree;
//! - [`value`]: the runtime value model and its view;
//! - [`canon`]: the canonical (name-sorted) field order;
//! - [`state`]: environment, class registry and output buffer;
//! - [`render`]: the textual rendering of values;
//! - [`sem`]: the semantics, as specification functions;
//! - [`interp`]: the matcher, dispatcher and evaluator, proved to
//!   implement [`sem`];
//! - [`laws`]: cross-cutting laws of the engine, proved once and for all.
pub mod ast;
pub mod canon;
pub mod interp;
pub mod laws;
pub mod lexer;
pub mod parser;
pub mod render;
pub mod sem;
pub mod state;
pub mod value;
