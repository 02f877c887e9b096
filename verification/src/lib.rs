//! Semantic-analysis and code-generation backend for a small statically-typed
//! procedural language: a scope/symbol-table manager, a type inference engine,
//! and a code generator that lowers an abstract syntax tree into a
//! basic-block-structured intermediate representation.

pub mod shared;
pub mod ir;
pub mod scope;
pub mod compiler;
