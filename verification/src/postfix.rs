//! The parser for postfix notation.
//!
//! A sequence is read from its end backward: an operator is followed, going
//! backward, by its right operand and then by its left one. Tokens in front
//! of the expression read are not looked at.

use crate::lexer::{Token, Tokens};
use crate::parser::{binary, Expression, Operator, Parse, ParseError, Parsed};
use vstd::prelude::*;

verus! {

/// The number of tokens in front of position `end`.
pub open spec fn room(end: int) -> nat {
    if end > 0 {
        end as nat
    } else {
        0
    }
}

pub open spec fn is_parenthesis(t: Token) -> bool {
    t == Token::LeftParen || t == Token::RightParen
}

/// The expression that ends just before position `end`, with the number of
/// tokens that it takes up.
pub open spec fn postfix_operand(s: Seq<Token>, end: int) -> Parsed
    decreases room(end),
{
    if end <= 0 || end > s.len() {
        Err(ParseError::UnexpectedEnd)
    } else {
        match s[end - 1] {
            Token::Number(n) => Ok((Expression::Number(n), 1)),
            Token::Variable(c) => Ok((Expression::Variable(c), 1)),
            Token::LeftParen | Token::RightParen => Err(ParseError::Parenthesis),
            Token::Eof => Err(ParseError::Malformed),
            operator => match postfix_operand(s, end - 1) {
                Ok((right, used)) => match postfix_operand(s, end - 1 - used) {
                    Ok((left, more)) => Ok((binary(operator_of(operator), left, right), 1 + used + more)),
                    Err(e) => Err(e),
                },
                Err(e) => Err(e),
            },
        }
    }
}

/// The operator that an operator token stands for.
pub open spec fn operator_of(t: Token) -> Operator {
    if t == Token::Sum {
        Operator::Sum
    } else {
        Operator::Product
    }
}

/// The expression that the tokens end with in postfix notation, the end
/// marker set aside.
pub open spec fn postfix_parse(s: Seq<Token>) -> Result<Expression, ParseError> {
    if s.len() == 0 {
        Err(ParseError::Malformed)
    } else if s.last() != Token::Eof {
        Err(ParseError::MissingEnd)
    } else {
        match postfix_operand(s, s.len() - 1) {
            Ok((expression, _)) => Ok(expression),
            Err(e) => Err(e),
        }
    }
}

/// The number of tokens at the front that a parse that succeeds leaves
/// unread; none where the parse fails.
pub open spec fn postfix_unread(s: Seq<Token>) -> int {
    match postfix_operand(s, s.len() - 1) {
        Ok((_, used)) => s.len() - 1 - used,
        Err(_) => 0,
    }
}

/// What the executable reduction returned when it started at `end`: it gives
/// the number of tokens left in front, the rule the number of tokens taken.
pub open spec fn reduced(result: Result<(Expression, usize), ParseError>, end: usize) -> Parsed {
    match result {
        Ok((expression, rest)) => Ok((expression, (end - rest) as nat)),
        Err(e) => Err(e),
    }
}

/// The parser for postfix notation.
pub struct PostfixParser;

impl Parse for PostfixParser {
    open spec fn parsed(tokens: Seq<Token>) -> Result<Expression, ParseError> {
        postfix_parse(tokens)
    }

    fn run(tokens: &Tokens) -> (result: Result<Expression, ParseError>) {
        let count = tokens.len();
        if count == 0 {
            return Err(ParseError::Malformed);
        }
        match tokens[count - 1] {
            Token::Eof => match parse_expression(tokens, count - 1) {
                Ok((expression, _)) => Ok(expression),
                Err(e) => Err(e),
            },
            _ => Err(ParseError::MissingEnd),
        }
    }
}

/// Reads the expression that ends just before position `end`; gives it with
/// the number of tokens left in front of it.
pub fn parse_expression(tokens: &Tokens, end: usize) -> (result: Result<
    (Expression, usize),
    ParseError,
>)
    ensures
        reduced(result, end) == postfix_operand(tokens@, end as int),
        result matches Ok((_, rest)) ==> rest < end,
    decreases end,
{
    if end == 0 || end > tokens.len() {
        return Err(ParseError::UnexpectedEnd);
    }
    let this = tokens[end - 1];
    match this {
        Token::Sum => {
            let (right, middle) = parse_expression(tokens, end - 1)?;
            let (left, rest) = parse_expression(tokens, middle)?;
            Ok((Expression::Binary(Operator::Sum, Box::new(left), Box::new(right)), rest))
        },
        Token::Product => {
            let (right, middle) = parse_expression(tokens, end - 1)?;
            let (left, rest) = parse_expression(tokens, middle)?;
            Ok((Expression::Binary(Operator::Product, Box::new(left), Box::new(right)), rest))
        },
        Token::Number(a) => Ok((Expression::Number(a), end - 1)),
        Token::Variable(var) => Ok((Expression::Variable(var), end - 1)),
        Token::LeftParen | Token::RightParen => Err(ParseError::Parenthesis),
        Token::Eof => Err(ParseError::Malformed),
    }
}

/// An expression that was read takes up tokens that are there, and no
/// parenthesis stands among them.
pub proof fn lemma_postfix_reads_no_parenthesis(s: Seq<Token>, end: int)
    ensures
        postfix_operand(s, end) matches Ok((_, used)) ==> {
            &&& 0 < used <= end <= s.len()
            &&& forall|k: int| end - used <= k < end ==> !is_parenthesis(#[trigger] s[k])
        },
    decreases room(end),
{
    if 0 < end <= s.len() {
        if let Ok((_, used)) = postfix_operand(s, end - 1) {
            lemma_postfix_reads_no_parenthesis(s, end - 1);
            lemma_postfix_reads_no_parenthesis(s, end - 1 - used);
        }
    }
}

/// A token sequence with a parenthesis in it does not parse in postfix
/// notation, unless the parenthesis stands in front of the expression that
/// the sequence ends with, where it is not read.
pub proof fn lemma_postfix_rejects_parenthesis(s: Seq<Token>, k: int)
    requires
        0 <= k < s.len(),
        is_parenthesis(s[k]),
        k >= postfix_unread(s),
    ensures
        postfix_parse(s) is Err,
{
    lemma_postfix_reads_no_parenthesis(s, s.len() - 1);
}

/// The token that stands for an operator.
pub open spec fn operator_token(op: Operator) -> Token {
    match op {
        Operator::Sum => Token::Sum,
        Operator::Product => Token::Product,
    }
}

/// An expression in postfix notation: the left operand, the right operand,
/// the operator.
pub open spec fn postfix_tokens(e: Expression) -> Seq<Token>
    decreases e,
{
    match e {
        Expression::Number(n) => seq![Token::Number(n)],
        Expression::Variable(c) => seq![Token::Variable(c)],
        Expression::Binary(op, left, right) => postfix_tokens(*left) + postfix_tokens(*right)
            + seq![operator_token(op)],
    }
}

/// An expression takes up at least one token.
pub proof fn lemma_postfix_tokens_nonempty(e: Expression)
    ensures
        postfix_tokens(e).len() > 0,
{
}

/// Where the tokens in front of position `end` are an expression in postfix
/// notation, reading backward from `end` gives that expression, and takes up
/// its tokens.
pub proof fn lemma_postfix_operand_of_tokens(e: Expression, s: Seq<Token>, end: int)
    requires
        postfix_tokens(e).len() <= end <= s.len(),
        s.subrange(end - postfix_tokens(e).len(), end) == postfix_tokens(e),
    ensures
        postfix_operand(s, end) == Ok::<(Expression, nat), ParseError>(
            (e, postfix_tokens(e).len()),
        ),
    decreases e,
{
    let tokens = postfix_tokens(e);
    let start = end - tokens.len();
    assert(tokens.len() > 0) by {
        lemma_postfix_tokens_nonempty(e);
    }
    assert(s[end - 1] == s.subrange(start, end)[tokens.len() - 1]);
    match e {
        Expression::Number(n) => {},
        Expression::Variable(c) => {},
        Expression::Binary(op, left, right) => {
            let l = postfix_tokens(*left);
            let r = postfix_tokens(*right);
            assert(tokens[tokens.len() - 1] == operator_token(op));
            assert(s.subrange(end - 1 - r.len(), end - 1) =~= r) by {
                assert forall|k: int| 0 <= k < r.len() implies s[end - 1 - r.len() + k] == r[k] by {
                    assert(tokens[l.len() + k] == r[k]);
                    assert(s.subrange(start, end)[l.len() + k] == s[start + l.len() + k]);
                }
            }
            assert(s.subrange(start, start + l.len()) =~= l) by {
                assert forall|k: int| 0 <= k < l.len() implies s[start + k] == l[k] by {
                    assert(tokens[k] == l[k]);
                    assert(s.subrange(start, end)[k] == s[start + k]);
                }
            }
            lemma_postfix_operand_of_tokens(*right, s, end - 1);
            lemma_postfix_operand_of_tokens(*left, s, end - 1 - r.len());
        },
    }
}

/// Parsing inverts postfix notation: the tokens of an expression in postfix
/// notation, with the end marker behind them and any tokens in front, parse
/// as that expression.
pub proof fn lemma_postfix_parse_of_tokens(e: Expression, front: Seq<Token>)
    ensures
        postfix_parse(front + postfix_tokens(e) + seq![Token::Eof]) == Ok::<
            Expression,
            ParseError,
        >(e),
{
    let s = front + postfix_tokens(e) + seq![Token::Eof];
    assert(s.subrange(s.len() - 1 - postfix_tokens(e).len(), s.len() - 1) =~= postfix_tokens(e));
    lemma_postfix_operand_of_tokens(e, s, s.len() - 1);
}

} // verus!
