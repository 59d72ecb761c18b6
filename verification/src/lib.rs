//! A small credential-store engine: a command language (lexer, parser),
//! an in-memory record store with per-record field history, and an
//! evaluator that applies parsed commands to the store and renders the
//! results with sensitivity masking.

pub mod chars;
pub mod crypt;
pub mod eval;
pub mod laws;
pub mod lex;
pub mod outside;
pub mod parse;
pub mod sorting;
pub mod store;
