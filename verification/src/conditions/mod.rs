//! Conditions: their syntax tree, the parser, and the generator.

pub mod ast;
pub mod compact;
pub mod error;
pub mod flat;
pub mod gen_condition;
pub mod generator;
pub mod grammar;
pub mod parser;

pub use ast::{BinaryOp, Expr, Range, RangeOp};
pub use error::{FailureKind, ParseError};
pub use generator::{to_ddr_string, to_ddr_string_with_options, GenerateOptions};
pub use parser::parse_ddr_expression;
