//! A verified front end for a small C-like language: a comment-stripping
//! preprocessor that preserves line/column positions, a tokenizer that
//! interns identifier spellings into a flat text arena, a recursive-descent
//! parser that builds a typed abstract syntax tree, and a binary codec that
//! persists the tokenizer's output.

pub mod token;
pub mod error;
pub mod preprocess;
pub mod intern;
pub mod lexer;
pub mod persist;
pub mod ast;
pub mod parser;
