//! The SQL front end: tokens, syntax trees, the grammar, and the printer.
pub mod keyword;
pub mod lexicon;
pub mod statements;
pub mod tokenizer;
pub mod ast;
pub mod clauses;
pub mod rules;
pub mod error;
pub mod grammar;
pub mod grouping;
pub mod printer;
pub mod round_trip;
