//! The grammar of formulas, and the parser that follows it.
//!
//! ```text
//! expression := term
//! term       := factor (('+' | '-') factor)*
//! factor     := unary (('*' | '/') unary)*
//! unary      := ('+' | '-') unary | primary
//! primary    := NUMBER | CELLREF
//!             | '(' expression ')'
//!             | FUNCTION '(' [ expression (',' expression)* ] ')'
//! ```
//!
//! Operators of one level associate to the left. Tokens after the end of
//! the expression are left unread.

use crate::parsing::tree::{
    lemma_views_push, views, Binary, CellRef, ExprView, Expression, FnExpression, Group, Literal,
    Unary,
};
use crate::scanning::token::{Token, TokenType, TokenView};
use vstd::prelude::*;

verus! {

#[derive(Debug, Clone, Copy, PartialEq, Eq, Structural)]
pub enum ParseErrorKind {
    /// A token that starts no expression, where one must start.
    UnexpectedToken,
    /// No `)` where a group or a list of arguments must end.
    MissingClosingParenthese,
    /// No `(` after the name of a function.
    MissingOpeningParenthese,
}

/// An error of parsing: its kind, the index of the token at which it was
/// found, and that token's lexeme. At the end of the tokens the lexeme is
/// empty.
#[derive(Debug)]
pub struct ParseError {
    pub kind: ParseErrorKind,
    pub lexeme: String,
    pub position: usize,
}

pub struct ParseErrorView {
    pub kind: ParseErrorKind,
    pub lexeme: Seq<char>,
    pub position: int,
}

impl View for ParseError {
    type V = ParseErrorView;

    open spec fn view(&self) -> ParseErrorView {
        ParseErrorView {
            kind: self.kind,
            lexeme: self.lexeme@,
            position: self.position as int,
        }
    }
}

/// An expression read from the tokens, and the number of tokens it took.
pub struct Parsed {
    pub tree: ExprView,
    pub used: nat,
}

/// The arguments of a call, and the number of tokens they took, the
/// closing parenthesis included.
pub struct ParsedList {
    pub trees: Seq<ExprView>,
    pub used: nat,
}

/// The type of the token at `pos`, if there is one.
pub open spec fn kind_at(tokens: Seq<TokenView>, pos: nat) -> Option<TokenType> {
    if pos < tokens.len() {
        Some(tokens[pos as int].kind)
    } else {
        None
    }
}

/// The error of a kind found at `pos`, with the lexeme of the token there.
pub open spec fn failure(kind: ParseErrorKind, tokens: Seq<TokenView>, pos: nat) -> ParseErrorView {
    ParseErrorView {
        kind,
        lexeme: if pos < tokens.len() {
            tokens[pos as int].lexeme
        } else {
            Seq::empty()
        },
        position: pos as int,
    }
}

/// The number of tokens from `pos` on.
pub open spec fn left(tokens: Seq<TokenView>, pos: nat) -> nat {
    if pos <= tokens.len() {
        (tokens.len() - pos) as nat
    } else {
        0
    }
}

pub open spec fn is_additive(kind: Option<TokenType>) -> bool {
    kind == Some(TokenType::Plus) || kind == Some(TokenType::Minus)
}

pub open spec fn is_multiplicative(kind: Option<TokenType>) -> bool {
    kind == Some(TokenType::Star) || kind == Some(TokenType::Slash)
}

/// Two operands around an operator.
pub open spec fn binary(left: ExprView, operator: TokenView, right: ExprView) -> ExprView {
    ExprView::Binary(Box::new(left), operator, Box::new(right))
}

/// The expression that starts at `pos`.
pub open spec fn expression(tokens: Seq<TokenView>, pos: nat) -> Result<Parsed, ParseErrorView>
    decreases left(tokens, pos), 6nat,
{
    term(tokens, pos)
}

/// The term that starts at `pos`: factors joined by `+` and `-`.
pub open spec fn term(tokens: Seq<TokenView>, pos: nat) -> Result<Parsed, ParseErrorView>
    decreases left(tokens, pos), 5nat,
{
    match factor(tokens, pos) {
        Ok(first) => term_rest(tokens, pos, pos + first.used, first.tree),
        Err(error) => Err(error),
    }
}

/// The term that starts at `start`, whose operands read so far make
/// `before`, and which goes on at `pos`.
pub open spec fn term_rest(tokens: Seq<TokenView>, start: nat, pos: nat, before: ExprView) -> Result<
    Parsed,
    ParseErrorView,
>
    decreases left(tokens, pos), 4nat,
{
    if is_additive(kind_at(tokens, pos)) {
        match factor(tokens, pos + 1) {
            Ok(right) => term_rest(
                tokens,
                start,
                pos + 1 + right.used,
                binary(before, tokens[pos as int], right.tree),
            ),
            Err(error) => Err(error),
        }
    } else {
        Ok(Parsed { tree: before, used: (pos - start) as nat })
    }
}

/// The factor that starts at `pos`: signed operands joined by `*` and `/`.
pub open spec fn factor(tokens: Seq<TokenView>, pos: nat) -> Result<Parsed, ParseErrorView>
    decreases left(tokens, pos), 3nat,
{
    match unary(tokens, pos) {
        Ok(first) => factor_rest(tokens, pos, pos + first.used, first.tree),
        Err(error) => Err(error),
    }
}

/// The factor that starts at `start`, whose operands read so far make
/// `before`, and which goes on at `pos`.
pub open spec fn factor_rest(
    tokens: Seq<TokenView>,
    start: nat,
    pos: nat,
    before: ExprView,
) -> Result<Parsed, ParseErrorView>
    decreases left(tokens, pos), 2nat,
{
    if is_multiplicative(kind_at(tokens, pos)) {
        match unary(tokens, pos + 1) {
            Ok(right) => factor_rest(
                tokens,
                start,
                pos + 1 + right.used,
                binary(before, tokens[pos as int], right.tree),
            ),
            Err(error) => Err(error),
        }
    } else {
        Ok(Parsed { tree: before, used: (pos - start) as nat })
    }
}

/// The signed operand that starts at `pos`: signs, then a primary.
pub open spec fn unary(tokens: Seq<TokenView>, pos: nat) -> Result<Parsed, ParseErrorView>
    decreases left(tokens, pos), 1nat,
{
    if is_additive(kind_at(tokens, pos)) {
        match unary(tokens, pos + 1) {
            Ok(operand) => Ok(
                Parsed {
                    tree: ExprView::Unary(tokens[pos as int], Box::new(operand.tree)),
                    used: 1 + operand.used,
                },
            ),
            Err(error) => Err(error),
        }
    } else {
        primary(tokens, pos)
    }
}

/// The primary that starts at `pos`: a number, a reference, a group or a
/// call.
pub open spec fn primary(tokens: Seq<TokenView>, pos: nat) -> Result<Parsed, ParseErrorView>
    decreases left(tokens, pos), 0nat,
{
    match kind_at(tokens, pos) {
        Some(TokenType::Number) => Ok(
            Parsed { tree: ExprView::Literal(tokens[pos as int]), used: 1 },
        ),
        Some(TokenType::CellRef) => Ok(
            Parsed { tree: ExprView::CellRef(tokens[pos as int]), used: 1 },
        ),
        Some(TokenType::OpeningParenthese) => match expression(tokens, pos + 1) {
            Ok(inner) => if kind_at(tokens, pos + 1 + inner.used) == Some(
                TokenType::ClosingParenthese,
            ) {
                Ok(Parsed { tree: ExprView::Group(Box::new(inner.tree)), used: inner.used + 2 })
            } else {
                Err(failure(ParseErrorKind::MissingClosingParenthese, tokens, pos + 1 + inner.used))
            },
            Err(error) => Err(error),
        },
        Some(TokenType::Function) => if kind_at(tokens, pos + 1) == Some(
            TokenType::OpeningParenthese,
        ) {
            match arguments(tokens, pos + 2) {
                Ok(list) => Ok(
                    Parsed {
                        tree: ExprView::Function(tokens[pos as int].lexeme, list.trees),
                        used: list.used + 2,
                    },
                ),
                Err(error) => Err(error),
            }
        } else {
            Err(failure(ParseErrorKind::MissingOpeningParenthese, tokens, pos + 1))
        },
        _ => Err(failure(ParseErrorKind::UnexpectedToken, tokens, pos)),
    }
}

/// The arguments of a call, from the place after its `(` through its `)`.
pub open spec fn arguments(tokens: Seq<TokenView>, pos: nat) -> Result<ParsedList, ParseErrorView>
    decreases left(tokens, pos), 8nat,
{
    if kind_at(tokens, pos) == Some(TokenType::ClosingParenthese) {
        Ok(ParsedList { trees: Seq::empty(), used: 1 })
    } else {
        match expression(tokens, pos) {
            Ok(first) => arguments_rest(tokens, pos, pos + first.used, seq![first.tree]),
            Err(error) => Err(error),
        }
    }
}

/// The arguments that start at `start`, of which `found` have been read,
/// and which go on at `pos` with `,` or end there with `)`.
pub open spec fn arguments_rest(
    tokens: Seq<TokenView>,
    start: nat,
    pos: nat,
    found: Seq<ExprView>,
) -> Result<ParsedList, ParseErrorView>
    decreases left(tokens, pos), 7nat,
{
    if kind_at(tokens, pos) == Some(TokenType::ClosingParenthese) {
        Ok(ParsedList { trees: found, used: (pos + 1 - start) as nat })
    } else if kind_at(tokens, pos) == Some(TokenType::Comma) {
        match expression(tokens, pos + 1) {
            Ok(next) => arguments_rest(
                tokens,
                start,
                pos + 1 + next.used,
                found.push(next.tree),
            ),
            Err(error) => Err(error),
        }
    } else {
        Err(failure(ParseErrorKind::MissingClosingParenthese, tokens, pos))
    }
}

/// A parser over a sequence of tokens. It holds the tokens and the index of
/// the next one to read.
pub struct Parser {
    tokens: Vec<Token>,
    current: usize,
}

impl Parser {
    pub closed spec fn tokens(&self) -> Seq<TokenView> {
        self.tokens.deep_view()
    }

    /// The index of the next token to read.
    pub closed spec fn position(&self) -> nat {
        self.current as nat
    }

    pub closed spec fn wf(&self) -> bool {
        self.current <= self.tokens.len()
    }

    /// What holds of the parser `self`, which was `before`, when it has
    /// read what `outcome` says and returned `result`: the tokens are the
    /// same, a tree is the one of `outcome` and the position has moved by
    /// the tokens used, an error is the one of `outcome` and the position is
    /// where it was found.
    pub open spec fn follows(
        &self,
        before: Parser,
        outcome: Result<Parsed, ParseErrorView>,
        result: Result<Expression, ParseError>,
    ) -> bool {
        &&& self.wf()
        &&& self.tokens() == before.tokens()
        &&& match outcome {
            Ok(parsed) => result matches Ok(tree) && tree@ == parsed.tree && self.position()
                == before.position() + parsed.used,
            Err(error) => result matches Err(refused) && refused@ == error && self.position()
                == error.position,
        }
    }

    pub fn new(tokens: Vec<Token>) -> (parser: Self)
        ensures
            parser.wf(),
            parser.tokens() == tokens.deep_view(),
            parser.position() == 0,
    {
        Parser { tokens, current: 0 }
    }

    /// Reads one expression from the parser's position on.
    pub fn parse(&mut self) -> (result: Result<Expression, ParseError>)
        requires
            old(self).wf(),
        ensures
            final(self).follows(
                *old(self),
                expression(old(self).tokens(), old(self).position()),
                result,
            ),
    {
        self.expression()
    }

    fn expression(&mut self) -> (result: Result<Expression, ParseError>)
        requires
            old(self).wf(),
        ensures
            final(self).follows(
                *old(self),
                expression(old(self).tokens(), old(self).position()),
                result,
            ),
        decreases left(old(self).tokens(), old(self).position()), 7nat,
    {
        self.term()
    }

    fn term(&mut self) -> (result: Result<Expression, ParseError>)
        requires
            old(self).wf(),
        ensures
            final(self).follows(
                *old(self),
                term(old(self).tokens(), old(self).position()),
                result,
            ),
        decreases left(old(self).tokens(), old(self).position()), 6nat,
    {
        let ghost tokens = self.tokens();
        let ghost start = self.position();
        let mut expr = match self.factor() {
            Ok(first) => first,
            Err(refused) => {
                return Err(refused);
            },
        };
        while self.next_token_is(&[TokenType::Plus, TokenType::Minus])
            invariant
                self.wf(),
                self.tokens() == tokens,
                tokens == old(self).tokens(),
                start == old(self).position(),
                start <= self.position(),
                term_rest(tokens, start, self.position(), expr@) == term(tokens, start),
            decreases left(tokens, self.position()),
        {
            expr = match self.term_step(expr) {
                Ok(longer) => longer,
                Err(refused) => {
                    return Err(refused);
                },
            };
        }
        Ok(expr)
    }

    /// Reads `+` or `-` and the factor after it, and joins them to the
    /// operands `before` them.
    fn term_step(&mut self, before: Expression) -> (result: Result<Expression, ParseError>)
        requires
            old(self).wf(),
            is_additive(kind_at(old(self).tokens(), old(self).position())),
        ensures
            final(self).follows(
                *old(self),
                match factor(old(self).tokens(), old(self).position() + 1) {
                    Ok(right) => Ok(
                        Parsed {
                            tree: binary(
                                before@,
                                old(self).tokens()[old(self).position() as int],
                                right.tree,
                            ),
                            used: 1 + right.used,
                        },
                    ),
                    Err(error) => Err(error),
                },
                result,
            ),
        decreases left(old(self).tokens(), old(self).position()), 5nat,
    {
        let op = self.consume();
        match self.factor() {
            Ok(right) => Ok(Expression::Binary(Binary::new(Box::new(before), op, Box::new(right)))),
            Err(refused) => Err(refused),
        }
    }

    fn factor(&mut self) -> (result: Result<Expression, ParseError>)
        requires
            old(self).wf(),
        ensures
            final(self).follows(
                *old(self),
                factor(old(self).tokens(), old(self).position()),
                result,
            ),
        decreases left(old(self).tokens(), old(self).position()), 4nat,
    {
        let ghost tokens = self.tokens();
        let ghost start = self.position();
        let mut expr = match self.unary() {
            Ok(first) => first,
            Err(refused) => {
                return Err(refused);
            },
        };
        while self.next_token_is(&[TokenType::Star, TokenType::Slash])
            invariant
                self.wf(),
                self.tokens() == tokens,
                tokens == old(self).tokens(),
                start == old(self).position(),
                start <= self.position(),
                factor_rest(tokens, start, self.position(), expr@) == factor(tokens, start),
            decreases left(tokens, self.position()),
        {
            expr = match self.factor_step(expr) {
                Ok(longer) => longer,
                Err(refused) => {
                    return Err(refused);
                },
            };
        }
        Ok(expr)
    }

    /// Reads `*` or `/` and the operand after it, and joins them to the
    /// operands `before` them.
    fn factor_step(&mut self, before: Expression) -> (result: Result<Expression, ParseError>)
        requires
            old(self).wf(),
            is_multiplicative(kind_at(old(self).tokens(), old(self).position())),
        ensures
            final(self).follows(
                *old(self),
                match unary(old(self).tokens(), old(self).position() + 1) {
                    Ok(right) => Ok(
                        Parsed {
                            tree: binary(
                                before@,
                                old(self).tokens()[old(self).position() as int],
                                right.tree,
                            ),
                            used: 1 + right.used,
                        },
                    ),
                    Err(error) => Err(error),
                },
                result,
            ),
        decreases left(old(self).tokens(), old(self).position()), 3nat,
    {
        let op = self.consume();
        match self.unary() {
            Ok(right) => Ok(Expression::Binary(Binary::new(Box::new(before), op, Box::new(right)))),
            Err(refused) => Err(refused),
        }
    }

    fn unary(&mut self) -> (result: Result<Expression, ParseError>)
        requires
            old(self).wf(),
        ensures
            final(self).follows(
                *old(self),
                unary(old(self).tokens(), old(self).position()),
                result,
            ),
        decreases left(old(self).tokens(), old(self).position()), 2nat,
    {
        if self.next_token_is(&[TokenType::Plus, TokenType::Minus]) {
            let op = self.consume();
            let expression = match self.unary() {
                Ok(operand) => operand,
                Err(refused) => {
                    return Err(refused);
                },
            };
            return Ok(Expression::Unary(Unary::new(op, Box::new(expression))));
        }
        self.primary()
    }

    fn primary(&mut self) -> (result: Result<Expression, ParseError>)
        requires
            old(self).wf(),
        ensures
            final(self).follows(
                *old(self),
                primary(old(self).tokens(), old(self).position()),
                result,
            ),
        decreases left(old(self).tokens(), old(self).position()), 1nat,
    {
        if self.next_token_is(&[TokenType::Number]) {
            Ok(Expression::Literal(Literal::new(self.consume())))
        } else if self.next_token_is(&[TokenType::CellRef]) {
            Ok(Expression::CellRef(CellRef::new(self.consume())))
        } else if self.next_token_is(&[TokenType::OpeningParenthese]) {
            self.group()
        } else if self.next_token_is(&[TokenType::Function]) {
            self.call()
        } else {
            Err(self.refuse(ParseErrorKind::UnexpectedToken))
        }
    }

    /// Reads an expression in parentheses, from its `(` on.
    fn group(&mut self) -> (result: Result<Expression, ParseError>)
        requires
            old(self).wf(),
            kind_at(old(self).tokens(), old(self).position()) == Some(
                TokenType::OpeningParenthese,
            ),
        ensures
            final(self).follows(
                *old(self),
                primary(old(self).tokens(), old(self).position()),
                result,
            ),
        decreases left(old(self).tokens(), old(self).position()), 0nat,
    {
        self.consume();
        let inner = match self.expression() {
            Ok(inner) => inner,
            Err(refused) => {
                return Err(refused);
            },
        };
        if !self.next_token_is(&[TokenType::ClosingParenthese]) {
            return Err(self.refuse(ParseErrorKind::MissingClosingParenthese));
        }
        self.consume();
        Ok(Expression::Group(Group::new(Box::new(inner))))
    }

    /// Reads the call of a function, from its name on.
    fn call(&mut self) -> (result: Result<Expression, ParseError>)
        requires
            old(self).wf(),
            kind_at(old(self).tokens(), old(self).position()) == Some(TokenType::Function),
        ensures
            final(self).follows(
                *old(self),
                primary(old(self).tokens(), old(self).position()),
                result,
            ),
        decreases left(old(self).tokens(), old(self).position()), 0nat,
    {
        let name = self.consume().get_lexeme().clone();
        if !self.next_token_is(&[TokenType::OpeningParenthese]) {
            return Err(self.refuse(ParseErrorKind::MissingOpeningParenthese));
        }
        self.consume();
        match self.arguments() {
            Ok(params) => Ok(Expression::Function(FnExpression::new(name, params))),
            Err(refused) => Err(refused),
        }
    }

    /// Reads the arguments of a call, from the place after its `(` through
    /// its `)`.
    fn arguments(&mut self) -> (result: Result<Vec<Expression>, ParseError>)
        requires
            old(self).wf(),
        ensures
            final(self).wf(),
            final(self).tokens() == old(self).tokens(),
            match arguments(old(self).tokens(), old(self).position()) {
                Ok(list) => result matches Ok(params) && views(params@) == list.trees
                    && final(self).position() == old(self).position() + list.used,
                Err(error) => result matches Err(refused) && refused@ == error
                    && final(self).position() == error.position,
            },
        decreases left(old(self).tokens(), old(self).position()), 8nat,
    {
        let ghost tokens = self.tokens();
        let ghost start = self.position();
        let mut params: Vec<Expression> = Vec::new();
        if !self.next_token_is(&[TokenType::ClosingParenthese]) {
            let first = match self.expression() {
                Ok(first) => first,
                Err(refused) => {
                    return Err(refused);
                },
            };
            proof {
                lemma_views_push(Seq::empty(), first);
            }
            params.push(first);
            while !self.next_token_is(&[TokenType::ClosingParenthese])
                invariant
                    self.wf(),
                    self.tokens() == tokens,
                    tokens == old(self).tokens(),
                    start == old(self).position(),
                    start <= self.position(),
                    arguments_rest(tokens, start, self.position(), views(params@)) == arguments(
                        tokens,
                        start,
                    ),
                decreases left(tokens, self.position()),
            {
                if !self.next_token_is(&[TokenType::Comma]) {
                    return Err(self.refuse(ParseErrorKind::MissingClosingParenthese));
                }
                self.consume();
                let next = match self.expression() {
                    Ok(next) => next,
                    Err(refused) => {
                        return Err(refused);
                    },
                };
                proof {
                    lemma_views_push(params@, next);
                }
                params.push(next);
            }
        }
        self.consume();
        Ok(params)
    }

    /// The error of the given kind for the token at the parser's position.
    fn refuse(&self, kind: ParseErrorKind) -> (error: ParseError)
        requires
            self.wf(),
        ensures
            error@ == failure(kind, self.tokens(), self.position()),
    {
        let lexeme = if self.current < self.tokens.len() {
            self.tokens[self.current].get_lexeme().clone()
        } else {
            String::new()
        };
        ParseError { kind, lexeme, position: self.current }
    }

    /// Takes the token at the parser's position.
    fn consume(&mut self) -> (token: Token)
        requires
            old(self).wf(),
            old(self).position() < old(self).tokens().len(),
        ensures
            final(self).wf(),
            final(self).tokens() == old(self).tokens(),
            final(self).position() == old(self).position() + 1,
            token@ == old(self).tokens()[old(self).position() as int],
    {
        let token = self.tokens[self.current].duplicate();
        self.current += 1;
        token
    }

    /// Whether there is a next token and its type is one of `types`.
    fn next_token_is(&self, types: &[TokenType]) -> (yes: bool)
        requires
            self.wf(),
        ensures
            yes == (kind_at(self.tokens(), self.position()) matches Some(kind) && types@.contains(
                kind,
            )),
    {
        if self.current >= self.tokens.len() {
            return false;
        }
        let next = self.tokens[self.current].get_type();
        let mut i: usize = 0;
        while i < types.len()
            invariant
                i <= types.len(),
                self.position() < self.tokens().len(),
                *next == self.tokens()[self.position() as int].kind,
                forall|k: int| 0 <= k < i ==> types[k] != *next,
            decreases types.len() - i,
        {
            if types[i] == *next {
                return true;
            }
            i += 1;
        }
        false
    }
}

} // verus!
