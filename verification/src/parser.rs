//! Expressions, and the parser for infix notation.
//!
//! The grammar, with both operators grouping to the right and the product
//! binding tighter than the sum:
//!
//! ```text
//! expression -> term '+' expression | term
//! term       -> primary '*' term | primary
//! primary    -> NUMBER | VARIABLE | '(' expression ')'
//! ```
//!
//! [`infix_expression`], [`infix_term`] and [`infix_primary`] say what each
//! rule makes of the tokens from a position on; the executable functions
//! compute them.

use crate::lexer::{Token, Tokens};
use vstd::prelude::*;

verus! {

/// A binary operator.
#[derive(Debug, PartialEq, Eq, Clone, Copy, Structural)]
pub enum Operator {
    Sum,
    Product,
}

/// An expression tree.
#[derive(Debug, PartialEq, Eq)]
pub enum Expression {
    Number(u32),
    Variable(char),
    Binary(Operator, Box<Expression>, Box<Expression>),
}

/// Why a token sequence could not be parsed.
#[derive(Debug, PartialEq, Eq, Clone, Copy, Structural)]
pub enum ParseError {
    /// A token that cannot start an operand.
    UnexpectedToken(Token),
    /// One token was required and another one stood there.
    Mismatch { expected: Token, actual: Token },
    /// The tokens ran out where one more was needed.
    UnexpectedEnd,
    /// Postfix notation: the sequence does not end with the end marker.
    MissingEnd,
    /// Postfix notation: a parenthesis stood among the tokens read.
    Parenthesis,
    /// Postfix notation: the sequence is empty, or an end marker stood where
    /// an operand or operator was needed.
    Malformed,
}

/// What a rule makes of the tokens from a position on: the expression and the
/// number of tokens that it takes up.
pub type Parsed = Result<(Expression, nat), ParseError>;

pub open spec fn binary(op: Operator, left: Expression, right: Expression) -> Expression {
    Expression::Binary(op, Box::new(left), Box::new(right))
}

/// Requires the token `expected` at `pos`.
pub open spec fn expect_token(s: Seq<Token>, pos: nat, expected: Token) -> Result<(), ParseError> {
    if pos >= s.len() {
        Err(ParseError::UnexpectedEnd)
    } else if s[pos as int] != expected {
        Err(ParseError::Mismatch { expected, actual: s[pos as int] })
    } else {
        Ok(())
    }
}

/// A number, a variable, or an expression in parentheses.
pub open spec fn infix_primary(s: Seq<Token>, pos: nat) -> Parsed
    decreases s.len() - pos, 0nat,
{
    if pos >= s.len() {
        Err(ParseError::UnexpectedEnd)
    } else {
        match s[pos as int] {
            Token::Number(n) => Ok((Expression::Number(n), 1)),
            Token::Variable(c) => Ok((Expression::Variable(c), 1)),
            Token::LeftParen => match infix_expression(s, pos + 1) {
                Ok((inner, used)) => match expect_token(s, pos + 1 + used, Token::RightParen) {
                    Ok(_) => Ok((inner, used + 2)),
                    Err(e) => Err(e),
                },
                Err(e) => Err(e),
            },
            other => Err(ParseError::UnexpectedToken(other)),
        }
    }
}

/// A primary, or a primary, `*` and a term.
pub open spec fn infix_term(s: Seq<Token>, pos: nat) -> Parsed
    decreases s.len() - pos, 1nat,
{
    match infix_primary(s, pos) {
        Ok((left, used)) => {
            if pos + used >= s.len() {
                Err(ParseError::UnexpectedEnd)
            } else if s[(pos + used) as int] == Token::Product {
                match infix_term(s, pos + used + 1) {
                    Ok((right, more)) => Ok((binary(Operator::Product, left, right), used + 1 + more)),
                    Err(e) => Err(e),
                }
            } else {
                Ok((left, used))
            }
        },
        Err(e) => Err(e),
    }
}

/// A term, or a term, `+` and an expression.
pub open spec fn infix_expression(s: Seq<Token>, pos: nat) -> Parsed
    decreases s.len() - pos, 2nat,
{
    match infix_term(s, pos) {
        Ok((left, used)) => {
            if pos + used >= s.len() {
                Err(ParseError::UnexpectedEnd)
            } else if s[(pos + used) as int] == Token::Sum {
                match infix_expression(s, pos + used + 1) {
                    Ok((right, more)) => Ok((binary(Operator::Sum, left, right), used + 1 + more)),
                    Err(e) => Err(e),
                }
            } else {
                Ok((left, used))
            }
        },
        Err(e) => Err(e),
    }
}

/// The expression that the tokens start with in infix notation. Tokens behind
/// it are not looked at.
pub open spec fn infix_parse(s: Seq<Token>) -> Result<Expression, ParseError> {
    match infix_expression(s, 0) {
        Ok((expression, _)) => Ok(expression),
        Err(e) => Err(e),
    }
}

/// What an executable rule returned when it started at `pos`: it gives the
/// position behind the expression, a rule the number of tokens taken.
pub open spec fn advanced(result: Result<(Expression, usize), ParseError>, pos: usize) -> Parsed {
    match result {
        Ok((expression, next)) => Ok((expression, (next - pos) as nat)),
        Err(e) => Err(e),
    }
}

/// A parsing strategy: a way to read a token sequence as an expression.
pub trait Parse {
    /// What the strategy makes of a token sequence.
    spec fn parsed(tokens: Seq<Token>) -> Result<Expression, ParseError>;

    /// Parses `tokens`, which are left as they are.
    fn run(tokens: &Tokens) -> (result: Result<Expression, ParseError>)
        ensures
            result == Self::parsed(tokens@),
    ;
}

/// The parser for infix notation.
pub struct Parser;

impl Parse for Parser {
    open spec fn parsed(tokens: Seq<Token>) -> Result<Expression, ParseError> {
        infix_parse(tokens)
    }

    fn run(tokens: &Tokens) -> (result: Result<Expression, ParseError>) {
        match parse_expression(tokens, 0) {
            Ok((expression, _)) => Ok(expression),
            Err(e) => Err(e),
        }
    }
}

/// Parses a primary that starts at `pos`; gives it with the position behind it.
pub fn parse_primary(tokens: &Tokens, pos: usize) -> (result: Result<
    (Expression, usize),
    ParseError,
>)
    ensures
        advanced(result, pos) == infix_primary(tokens@, pos as nat),
        result matches Ok((_, next)) ==> pos < next <= tokens.len(),
    decreases tokens.len() - pos, 0nat,
{
    if pos >= tokens.len() {
        return Err(ParseError::UnexpectedEnd);
    }
    match tokens[pos] {
        Token::Number(number) => Ok((Expression::Number(number), pos + 1)),
        Token::Variable(var) => Ok((Expression::Variable(var), pos + 1)),
        Token::LeftParen => {
            let (expression, close) = parse_expression(tokens, pos + 1)?;
            let next = assert_next(tokens, close, Token::RightParen)?;
            Ok((expression, next))
        },
        other => Err(ParseError::UnexpectedToken(other)),
    }
}

/// Parses a term that starts at `pos`; gives it with the position behind it.
pub fn parse_term(tokens: &Tokens, pos: usize) -> (result: Result<(Expression, usize), ParseError>)
    ensures
        advanced(result, pos) == infix_term(tokens@, pos as nat),
        result matches Ok((_, next)) ==> pos < next <= tokens.len(),
    decreases tokens.len() - pos, 1nat,
{
    let (expression, next) = parse_primary(tokens, pos)?;
    if next >= tokens.len() {
        return Err(ParseError::UnexpectedEnd);
    }
    if tokens[next] == Token::Product {
        let (right, end) = parse_term(tokens, next + 1)?;
        return Ok((Expression::Binary(Operator::Product, Box::new(expression), Box::new(right)), end));
    }
    Ok((expression, next))
}

/// Parses an expression that starts at `pos`; gives it with the position
/// behind it.
pub fn parse_expression(tokens: &Tokens, pos: usize) -> (result: Result<
    (Expression, usize),
    ParseError,
>)
    ensures
        advanced(result, pos) == infix_expression(tokens@, pos as nat),
        result matches Ok((_, next)) ==> pos < next <= tokens.len(),
    decreases tokens.len() - pos, 2nat,
{
    let (expression, next) = parse_term(tokens, pos)?;
    if next >= tokens.len() {
        return Err(ParseError::UnexpectedEnd);
    }
    match tokens[next] {
        Token::Sum => {
            let (right, end) = parse_expression(tokens, next + 1)?;
            Ok((Expression::Binary(Operator::Sum, Box::new(expression), Box::new(right)), end))
        },
        _ => Ok((expression, next)),
    }
}

/// Requires `token` at `pos`; gives the position behind it.
pub fn assert_next(tokens: &Tokens, pos: usize, token: Token) -> (result: Result<usize, ParseError>)
    ensures
        match result {
            Ok(next) => expect_token(tokens@, pos as nat, token) is Ok && next == pos + 1,
            Err(e) => expect_token(tokens@, pos as nat, token) == Err::<(), ParseError>(e),
        },
{
    if pos >= tokens.len() {
        return Err(ParseError::UnexpectedEnd);
    }
    let next = tokens[pos];
    if next != token {
        return Err(ParseError::Mismatch { expected: token, actual: next });
    }
    Ok(pos + 1)
}

} // verus!
