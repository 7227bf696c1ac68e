//! Lexical-analysis front end for a small scripting language: a single-pass
//! scanner that turns raw source text into a flat, ordered token sequence,
//! reporting every lexical defect it meets without aborting early.

pub mod ast_printer;
pub mod driver;
pub mod expr;
pub mod scan_model;
pub mod scanner;
pub mod token;
