//! A small spreadsheet-formula engine: a lexer and a recursive-descent parser
//! for cell formulas, an evaluator over arbitrary-precision decimals, and a
//! table driver with per-cell memoization and cycle detection.
pub mod ast;
pub mod cell;
pub mod decimal;
pub mod error;
pub mod eval;
pub mod grid;
pub mod laws;
pub mod parser;
pub mod rows;
pub mod table;
pub mod tokenizer;
