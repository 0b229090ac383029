//! A verified evaluator for idiom paths over tree-shaped database values.
//!
//! The library models a document/graph database's value tree and a small
//! expression language for predicates and deferred values (`value`), the
//! navigation steps of an idiom path (`part`), and the read-only evaluation
//! context with its record and edge stores and the expression interpreter
//! (`context`). The heart is `Value::get` (`get`), which resolves a path
//! against a value step by step; its behaviour is specified by the recursive
//! interpreter in `eval` and the laws it obeys are proved in `laws`. `bi`
//! holds the index-key type `Bi` with a verified binary key codec.
pub mod bi;
pub mod context;
pub mod eval;
pub mod get;
pub mod laws;
pub mod part;
pub mod value;
