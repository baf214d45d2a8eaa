//! A small arithmetic expression language: statements are read into a tree
//! and reduced against a table of named values.
//!
//! The crate holds the grammar, the tree and every decision of the
//! evaluation. It performs no binary64 arithmetic itself: values are carried
//! as bit patterns, and each computation on them is handed to the caller as
//! a [`semantics::Request`].

pub mod ast;
pub mod chars;
pub mod completeness;
pub mod derivation;
pub mod environment;
pub mod factorial;
pub mod grammar;
pub mod literal;
pub mod machine;
pub mod parser;
pub mod semantics;
pub mod soundness;
pub mod theorems;
pub mod token;
pub mod value;
