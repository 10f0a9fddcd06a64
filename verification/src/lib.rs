//! A minimal stack-oriented language front end: a character-level tokenizer,
//! a bracket-nesting state machine, a tree builder, and an evaluator that
//! walks the resulting syntax tree against a runtime value stack and a
//! macro table.

pub mod token;
pub mod nesting;
pub mod syntax;
pub mod diag;
pub mod value;
pub mod table;
pub mod eval;
pub mod mach;
