//! The expression that a formula writes.

use crate::address::{
    column_index, column_label, column_of, is_label, push_label, InvalidAddress,
};
use crate::scanning::token::{Token, TokenView};
use crate::text::chars_of;
use vstd::prelude::*;

verus! {

/// An expression: a number, a reference to a cell, an expression in
/// parentheses, a sign before an expression, two expressions around an
/// operator, or a function applied to arguments.
#[derive(Debug)]
pub enum Expression {
    Literal(Literal),
    CellRef(CellRef),
    Group(Group),
    Unary(Unary),
    Binary(Binary),
    Function(FnExpression),
}

#[derive(Debug)]
pub struct Binary {
    pub left: Box<Expression>,
    pub operator: Token,
    pub right: Box<Expression>,
}

#[derive(Debug)]
pub struct Unary {
    pub operator: Token,
    pub operand: Box<Expression>,
}

#[derive(Debug)]
pub struct FnExpression {
    pub name: String,
    pub params: Vec<Expression>,
}

#[derive(Debug)]
pub struct Literal {
    pub token: Token,
}

#[derive(Debug)]
pub struct CellRef {
    pub token: Token,
}

#[derive(Debug)]
pub struct Group {
    pub inner: Box<Expression>,
}

pub enum ExprView {
    Literal(TokenView),
    CellRef(TokenView),
    Group(Box<ExprView>),
    Unary(TokenView, Box<ExprView>),
    Binary(Box<ExprView>, TokenView, Box<ExprView>),
    Function(Seq<char>, Seq<ExprView>),
}

/// The views of a sequence of expressions, one for one.
pub open spec fn views(expressions: Seq<Expression>) -> Seq<ExprView>
    decreases expressions,
{
    if expressions.len() == 0 {
        Seq::empty()
    } else {
        views(expressions.drop_last()).push(expression_view(expressions.last()))
    }
}

/// The view of an expression: its tokens, names and parts by their views.
pub open spec fn expression_view(expression: Expression) -> ExprView
    decreases expression,
{
    match expression {
        Expression::Literal(literal) => ExprView::Literal(literal.token@),
        Expression::CellRef(reference) => ExprView::CellRef(reference.token@),
        Expression::Group(group) => ExprView::Group(Box::new(expression_view(*group.inner))),
        Expression::Unary(unary) => ExprView::Unary(
            unary.operator@,
            Box::new(expression_view(*unary.operand)),
        ),
        Expression::Binary(binary) => ExprView::Binary(
            Box::new(expression_view(*binary.left)),
            binary.operator@,
            Box::new(expression_view(*binary.right)),
        ),
        Expression::Function(call) => ExprView::Function(call.name@, views(call.params@)),
    }
}

impl View for Expression {
    type V = ExprView;

    open spec fn view(&self) -> ExprView {
        expression_view(*self)
    }
}

impl View for Literal {
    type V = ExprView;

    open spec fn view(&self) -> ExprView {
        ExprView::Literal(self.token@)
    }
}

impl View for CellRef {
    type V = ExprView;

    open spec fn view(&self) -> ExprView {
        ExprView::CellRef(self.token@)
    }
}

impl View for Group {
    type V = ExprView;

    open spec fn view(&self) -> ExprView {
        ExprView::Group(Box::new(expression_view(*self.inner)))
    }
}

impl View for Unary {
    type V = ExprView;

    open spec fn view(&self) -> ExprView {
        ExprView::Unary(self.operator@, Box::new(expression_view(*self.operand)))
    }
}

impl View for Binary {
    type V = ExprView;

    open spec fn view(&self) -> ExprView {
        ExprView::Binary(
            Box::new(expression_view(*self.left)),
            self.operator@,
            Box::new(expression_view(*self.right)),
        )
    }
}

impl View for FnExpression {
    type V = ExprView;

    open spec fn view(&self) -> ExprView {
        ExprView::Function(self.name@, views(self.params@))
    }
}

/// The views of expressions are as many, and each the view of its
/// expression.
pub proof fn lemma_views(expressions: Seq<Expression>)
    ensures
        views(expressions).len() == expressions.len(),
        forall|i: int|
            0 <= i < expressions.len() ==> (#[trigger] views(expressions)[i]) == expressions[i]@,
    decreases expressions.len(),
{
    if expressions.len() > 0 {
        lemma_views(expressions.drop_last());
    }
}

/// The views of expressions and one more are their views and its view.
pub proof fn lemma_views_push(expressions: Seq<Expression>, last: Expression)
    ensures
        views(expressions.push(last)) == views(expressions).push(last@),
{
    assert(expressions.push(last).drop_last() == expressions);
}

impl Binary {
    pub fn new(left: Box<Expression>, operator: Token, right: Box<Expression>) -> (node: Self)
        ensures
            node.left == left,
            node.operator == operator,
            node.right == right,
    {
        Binary { left, operator, right }
    }
}

impl Unary {
    pub fn new(operator: Token, expression: Box<Expression>) -> (node: Self)
        ensures
            node.operator == operator,
            node.operand == expression,
    {
        Unary { operator, operand: expression }
    }
}

impl FnExpression {
    pub fn new(name: String, params: Vec<Expression>) -> (node: Self)
        ensures
            node.name == name,
            node.params == params,
    {
        FnExpression { name, params }
    }
}

impl Literal {
    pub fn new(literal: Token) -> (node: Self)
        ensures
            node.token == literal,
    {
        Literal { token: literal }
    }
}

impl Group {
    pub fn new(literal: Box<Expression>) -> (node: Self)
        ensures
            node.inner == literal,
    {
        Group { inner: literal }
    }
}

impl CellRef {
    pub fn new(token: Token) -> (node: Self)
        ensures
            node.token == token,
    {
        CellRef { token }
    }

    /// The index of the column that `column_name` names, in either case of
    /// letters: 0 for `A`, 25 for `Z`, 26 for `AA`. A name that is empty,
    /// holds anything but letters, or names a column beyond `usize::MAX` is
    /// refused.
    pub fn text_to_number(column_name: String) -> (found: Result<usize, InvalidAddress>)
        ensures
            match found {
                Ok(index) => is_label(column_name@) && index == column_index(column_name@),
                Err(_) => !(is_label(column_name@) && column_index(column_name@) <= usize::MAX),
            },
    {
        let chars = chars_of(column_name.as_str());
        assert(chars@.subrange(0, chars.len() as int) == chars@);
        column_of(&chars, 0, chars.len())
    }

    /// The name of the column with the given index, in upper case.
    pub fn number_to_text(column: usize) -> (label: String)
        ensures
            label@ == column_label(column as nat),
    {
        let mut label = String::new();
        push_label(&mut label, column);
        label
    }
}

} // verus!
