//! Token and expression data types, together with their mathematical models.

use vstd::prelude::*;

verus! {

/// Reserved words of the language, recognized case-insensitively.
#[derive(Debug, PartialEq, Eq, Structural, Clone, Copy)]
pub enum Keyword {
    Select,
    Create,
    Table,
    Where,
    From,
    Order,
    By,
    And,
    Or,
    Not,
}

/// One lexical unit of source text.
#[derive(Debug, PartialEq)]
pub enum Token {
    Keyword(Keyword),
    Identifier(String),
    StringLiteral(String),
    Number(u64),
    Invalid(char),
    // Punctuation
    RightParentheses,
    LeftParentheses,
    Comma,
    Semicolon,
    // Comparison operators
    GreaterThan,
    GreaterThanOrEqual,
    LessThan,
    LessThanOrEqual,
    Equal,
    NotEqual,
    // Arithmetic operators
    Multiply,
    Divide,
    Minus,
    Plus,
    // End-of-input sentinel
    Eof,
}

/// The mathematical value of a `Token`: string payloads become `Seq<char>`.
pub enum TokenV {
    Keyword(Keyword),
    Identifier(Seq<char>),
    StringLiteral(Seq<char>),
    Number(u64),
    Invalid(char),
    RightParentheses,
    LeftParentheses,
    Comma,
    Semicolon,
    GreaterThan,
    GreaterThanOrEqual,
    LessThan,
    LessThanOrEqual,
    Equal,
    NotEqual,
    Multiply,
    Divide,
    Minus,
    Plus,
    Eof,
}

impl View for Token {
    type V = TokenV;

    open spec fn view(&self) -> TokenV {
        match self {
            Token::Keyword(k) => TokenV::Keyword(*k),
            Token::Identifier(s) => TokenV::Identifier(s@),
            Token::StringLiteral(s) => TokenV::StringLiteral(s@),
            Token::Number(n) => TokenV::Number(*n),
            Token::Invalid(c) => TokenV::Invalid(*c),
            Token::RightParentheses => TokenV::RightParentheses,
            Token::LeftParentheses => TokenV::LeftParentheses,
            Token::Comma => TokenV::Comma,
            Token::Semicolon => TokenV::Semicolon,
            Token::GreaterThan => TokenV::GreaterThan,
            Token::GreaterThanOrEqual => TokenV::GreaterThanOrEqual,
            Token::LessThan => TokenV::LessThan,
            Token::LessThanOrEqual => TokenV::LessThanOrEqual,
            Token::Equal => TokenV::Equal,
            Token::NotEqual => TokenV::NotEqual,
            Token::Multiply => TokenV::Multiply,
            Token::Divide => TokenV::Divide,
            Token::Minus => TokenV::Minus,
            Token::Plus => TokenV::Plus,
            Token::Eof => TokenV::Eof,
        }
    }
}

impl Clone for Token {
    /// Cloning a token preserves its value exactly.
    fn clone(&self) -> (res: Self)
        ensures
            res == self,
    {
        match self {
            Token::Keyword(k) => Token::Keyword(*k),
            Token::Identifier(s) => Token::Identifier(s.clone()),
            Token::StringLiteral(s) => Token::StringLiteral(s.clone()),
            Token::Number(n) => Token::Number(*n),
            Token::Invalid(c) => Token::Invalid(*c),
            Token::RightParentheses => Token::RightParentheses,
            Token::LeftParentheses => Token::LeftParentheses,
            Token::Comma => Token::Comma,
            Token::Semicolon => Token::Semicolon,
            Token::GreaterThan => Token::GreaterThan,
            Token::GreaterThanOrEqual => Token::GreaterThanOrEqual,
            Token::LessThan => Token::LessThan,
            Token::LessThanOrEqual => Token::LessThanOrEqual,
            Token::Equal => Token::Equal,
            Token::NotEqual => Token::NotEqual,
            Token::Multiply => Token::Multiply,
            Token::Divide => Token::Divide,
            Token::Minus => Token::Minus,
            Token::Plus => Token::Plus,
            Token::Eof => Token::Eof,
        }
    }
}

/// The mathematical token sequence held by a `Vec<Token>`.
pub open spec fn toks_v(ts: Seq<Token>) -> Seq<TokenV> {
    Seq::new(ts.len(), |i: int| ts[i]@)
}

/// Binary operators of the expression grammar.
#[derive(Debug, PartialEq, Eq, Structural, Clone, Copy)]
pub enum BinaryOperator {
    Plus,
    Minus,
    Multiply,
    Divide,
}

/// An expression tree: binary operations over integer literals and
/// identifier references, each node owning its children.
#[derive(Debug, PartialEq)]
pub enum Expression {
    BinaryOperation {
        left_operand: Box<Expression>,
        operator: BinaryOperator,
        right_operand: Box<Expression>,
    },
    Number(u64),
    Identifier(String),
}

/// The mathematical value of an `Expression`.
pub enum ExprV {
    BinaryOperation {
        left_operand: Box<ExprV>,
        operator: BinaryOperator,
        right_operand: Box<ExprV>,
    },
    Number(u64),
    Identifier(Seq<char>),
}

pub open spec fn expr_view(e: Expression) -> ExprV
    decreases e,
{
    match e {
        Expression::BinaryOperation { left_operand, operator, right_operand } => (
            ExprV::BinaryOperation {
                left_operand: Box::new(expr_view(*left_operand)),
                operator,
                right_operand: Box::new(expr_view(*right_operand)),
            }
        ),
        Expression::Number(n) => ExprV::Number(n),
        Expression::Identifier(s) => ExprV::Identifier(s@),
    }
}

impl View for Expression {
    type V = ExprV;

    open spec fn view(&self) -> ExprV {
        expr_view(*self)
    }
}

} // verus!
