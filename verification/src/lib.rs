//! A tree-walking evaluator for a small Lisp: a reader that turns text into
//! syntax trees, a chain of scopes, and an evaluator with proper tail calls.

pub mod environment;
pub mod interpreter;
pub mod laws;
pub mod model;
pub mod parser;
pub mod primitives;
pub mod render;
pub mod roundtrip;
pub mod semantics;
pub mod text;
