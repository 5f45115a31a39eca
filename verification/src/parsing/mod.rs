//! From tokens to an expression, and from an expression to its value.

pub mod evaluate;
pub mod grammar;
pub mod laws;
pub mod plan;
pub mod rules;
pub mod table;
pub mod tree;

pub use evaluate::Worksheet;
pub use grammar::{ParseError, ParseErrorKind, Parser};
pub use plan::{EvalError, Operation, Plan, Step};
pub use table::{Cell, Table};
pub use tree::{Binary, CellRef, Expression, FnExpression, Group, Literal, Unary};
