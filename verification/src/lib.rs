//! Parser, document model and canonical formatter for an HCL-style
//! configuration language, with proofs of what they do.
//!
//! - [`model`] holds the mathematical model of documents and expressions and
//!   says which trees are trees of the grammar; [`ident`], [`expr`],
//!   [`structure`] and [`block`] hold the types that programs work with.
//! - [`grammar`] states the grammar as functions from a text to what stands
//!   in it; [`scanner`] and [`parser`] are the parser that computes them, and
//!   [`lexer`] cuts a text into tokens with their spans ([`span`]).
//! - [`diag`] reduces the failures of competing alternatives to the one that
//!   is reported, and [`error`] gives it its place and its message.
//! - [`format`] states the canonical text of a tree and writes it.
//! - [`laws`] states what holds of all of them together: the parser reads
//!   back what the formatter writes, what it returns is a valid tree, and
//!   its errors are determined by the input. [`roundtrip`], [`readback`],
//!   [`readback_expr`], [`readback_body`] and [`sound`] hold the proofs.
//! - [`text`] holds character classes, decimal numerals and the conversions
//!   between strings and vectors of characters.

pub mod block;
pub mod diag;
pub mod error;
pub mod expr;
pub mod format;
pub mod grammar;
pub mod ident;
pub mod laws;
pub mod lexer;
pub mod model;
pub mod parser;
pub mod readback;
pub mod readback_body;
pub mod readback_expr;
pub mod roundtrip;
pub mod scanner;
pub mod sound;
pub mod span;
pub mod structure;
pub mod text;
