//! Semantic core of a Pascal-family compiler front end: a typed expression
//! model with type inference, operand validation and integer constant folding,
//! a semantic-error taxonomy with source-range tagging, a byte-range to
//! line/column position mapper, and radix-generic numeric literal parsing.

pub mod expr;
pub mod literal;
pub mod parse_error;
pub mod position;
pub mod program;
pub mod semantic;
pub mod store;
pub mod text;
pub mod throwable;
pub mod types;
