//! A minimal source-to-result evaluator: a scanner turns a source string into
//! tokens, a recursive-descent parser builds a syntax tree for one arithmetic
//! expression or one conditional statement, and a tree-walking evaluator
//! reduces the tree to a single signed 64-bit integer.
//!
//! Every stage is specified against a mathematical model of the source text
//! (a `Seq<char>`): `token_at` gives the token found at a position,
//! `parse_program` gives the tree the grammar assigns to the token stream,
//! and `spec_eval` gives the value of a tree. Malformed input never produces
//! a value; it yields one of the error conditions of `InterpError`.
pub mod compiler;
