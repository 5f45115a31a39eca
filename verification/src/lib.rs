//! A small spreadsheet: cells hold text, numbers or formulas over other
//! cells.
//!
//! A table is read from text, one row to a line and `|` between the cells
//! of a row; a cell that starts with `=` holds a formula. A formula is
//! scanned into tokens ([`scanning`]) and parsed into an expression
//! ([`parsing::grammar`]). Evaluating an expression ([`parsing::evaluate`])
//! resolves its references to other cells, evaluates each formula once and
//! refuses a formula that needs its own value.
//!
//! The values are floating-point numbers, and the arithmetic on them is not
//! done here. Evaluation lays out a plan ([`parsing::plan`]): the steps of
//! the arithmetic, in order, for a stack of numbers. The caller carries the
//! steps out and hands the results back as text, and the table is written
//! with them in place of the formulas.
//!
//! What evaluating means is stated in [`parsing::rules`], and what holds of
//! every plan in [`parsing::laws`].

pub mod address;
pub mod parsing;
pub mod scanning;
pub mod text;
