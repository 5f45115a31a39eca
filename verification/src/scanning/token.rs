//! Tokens, and the errors of scanning.

use crate::address::CellIndex;
use vstd::prelude::*;

verus! {

#[derive(Debug, Clone, Copy, PartialEq, Eq, Structural)]
pub enum TokenType {
    Number,
    Plus,
    Minus,
    Star,
    Slash,
    OpeningParenthese,
    ClosingParenthese,
    CellRef,
    Function,
    Comma,
}

/// What a token stands for when a formula is evaluated.
#[derive(Debug)]
pub enum LiteralValue {
    /// A number, held as the decimal numeral that the formula writes: digits,
    /// and optionally a point and more digits.
    Float(String),
    /// The address that a cell reference names.
    CellRef(CellIndex),
}

pub enum LiteralView {
    Float(Seq<char>),
    CellRef(CellIndex),
}

impl View for LiteralValue {
    type V = LiteralView;

    open spec fn view(&self) -> LiteralView {
        match self {
            LiteralValue::Float(numeral) => LiteralView::Float(numeral@),
            LiteralValue::CellRef(index) => LiteralView::CellRef(*index),
        }
    }
}

impl Clone for LiteralValue {
    fn clone(&self) -> (copy: Self)
        ensures
            copy@ == self@,
    {
        match self {
            LiteralValue::Float(numeral) => LiteralValue::Float(numeral.clone()),
            LiteralValue::CellRef(index) => LiteralValue::CellRef(*index),
        }
    }
}

/// A token: its type, the text it was read from, and what it stands for.
#[derive(Debug)]
pub struct Token {
    pub kind: TokenType,
    pub lexeme: String,
    pub literal: Option<LiteralValue>,
}

pub struct TokenView {
    pub kind: TokenType,
    pub lexeme: Seq<char>,
    pub literal: Option<LiteralView>,
}

pub open spec fn literal_view(literal: Option<LiteralValue>) -> Option<LiteralView> {
    match literal {
        Some(value) => Some(value@),
        None => None,
    }
}

impl View for Token {
    type V = TokenView;

    open spec fn view(&self) -> TokenView {
        TokenView { kind: self.kind, lexeme: self.lexeme@, literal: literal_view(self.literal) }
    }
}

impl DeepView for Token {
    type V = TokenView;

    open spec fn deep_view(&self) -> TokenView {
        self@
    }
}

/// Two tokens are equal when their type and their lexeme are: what a token
/// stands for is no part of its identity.
impl PartialEq for Token {
    fn eq(&self, other: &Self) -> (equal: bool) {
        self.kind == other.kind && self.lexeme == other.lexeme
    }
}

impl vstd::std_specs::cmp::PartialEqSpecImpl for Token {
    open spec fn obeys_eq_spec() -> bool {
        true
    }

    open spec fn eq_spec(&self, other: &Self) -> bool {
        self.kind == other.kind && self.lexeme@ == other.lexeme@
    }
}

impl Token {
    pub fn new(t: TokenType, lexeme: String, literal: Option<LiteralValue>) -> (token: Self)
        ensures
            token.kind == t,
            token.lexeme == lexeme,
            token.literal == literal,
    {
        Token { kind: t, lexeme, literal }
    }

    pub fn get_type(&self) -> (kind: &TokenType)
        ensures
            *kind == self.kind,
    {
        &self.kind
    }

    pub fn get_lexeme(&self) -> (lexeme: &String)
        ensures
            *lexeme == self.lexeme,
    {
        &self.lexeme
    }

    /// A token with the same type, lexeme and literal.
    pub fn duplicate(&self) -> (copy: Self)
        ensures
            copy@ == self@,
    {
        let literal = match &self.literal {
            Some(value) => Some(value.clone()),
            None => None,
        };
        Token { kind: self.kind, lexeme: self.lexeme.clone(), literal }
    }
}

/// Why a text is not a sequence of tokens.
#[derive(Debug, Clone, Copy, PartialEq, Eq, Structural)]
pub enum LexErrorKind {
    /// A character that starts no token.
    UnknownCharacter,
    /// Digits and a point with no digit after the point.
    MalformedNumber,
    /// Letters that are neither a function's name nor, with the digits after
    /// them, the address of a cell.
    InvalidIdentifier,
}

/// An error of scanning: the lexeme that is refused and where it stands in
/// the text, from the byte offset `start` up to the byte offset `end`.
#[derive(Debug)]
pub struct LexError {
    pub kind: LexErrorKind,
    pub lexeme: String,
    pub start: usize,
    pub end: usize,
}

pub struct LexErrorView {
    pub kind: LexErrorKind,
    pub lexeme: Seq<char>,
    pub start: int,
    pub end: int,
}

impl View for LexError {
    type V = LexErrorView;

    open spec fn view(&self) -> LexErrorView {
        LexErrorView {
            kind: self.kind,
            lexeme: self.lexeme@,
            start: self.start as int,
            end: self.end as int,
        }
    }
}

} // verus!
