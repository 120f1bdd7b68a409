//! Execution core of a miniature browser engine: a DOM tree held in an
//! index-based arena, a lexer for a small JavaScript-like language, and a
//! tree-walking interpreter that reads and mutates the DOM through a narrow
//! browser-API bridge.

pub mod ast;
pub mod dom;
pub mod runtime;
pub mod token;
