//! From the text of a formula to its tokens.

pub mod laws;
pub mod lexer;
pub mod token;

pub use crate::address::CellIndex;
pub use lexer::{Builtin, Tokenizer};
pub use token::{LexError, LexErrorKind, LiteralValue, Token, TokenType};
