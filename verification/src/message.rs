//! The texts in which tokens and errors are shown to a user.

use crate::evaluator::EvalError;
use crate::lexer::{decimal_text, LexError, Token};
use crate::parser::ParseError;
use crate::text::{decimal_string, labelled, labelled_char, labelled_text, quoted};
use vstd::prelude::*;
use vstd::string::StringExecFns;

verus! {

/// The text that shows a token.
pub open spec fn token_text(t: Token) -> Seq<char> {
    match t {
        Token::Number(n) => labelled_text("Number"@, decimal_text(n as nat)),
        Token::Variable(c) => labelled_text("Variable"@, quoted(c)),
        Token::Sum => "Sum"@,
        Token::Product => "Product"@,
        Token::LeftParen => "LeftParen"@,
        Token::RightParen => "RightParen"@,
        Token::Eof => "Eof"@,
    }
}

/// The message for an error of the tokenizer.
pub open spec fn lex_error_text(e: LexError) -> Seq<char> {
    match e {
        LexError::UnexpectedCharacter(c) => "Unexpected character `"@ + seq![c] + "`"@,
        LexError::NumberTooLarge => "Number too large"@,
    }
}

/// The message for an error of a parser.
pub open spec fn parse_error_text(e: ParseError) -> Seq<char> {
    match e {
        ParseError::UnexpectedToken(t) => "Unexpected token "@ + token_text(t),
        ParseError::Mismatch { expected, actual } => "Expected "@ + token_text(expected)
            + " actual "@ + token_text(actual),
        ParseError::UnexpectedEnd => "Unexpected EOF"@,
        ParseError::MissingEnd => "Parsing error"@,
        ParseError::Parenthesis => "Parenthesis are not allowed in postfix notation."@,
        ParseError::Malformed => "Unexpected error"@,
    }
}

/// The message for an error of the evaluation.
pub open spec fn eval_error_text(e: EvalError) -> Seq<char> {
    match e {
        EvalError::VariableNotFound(name) => "Variable "@ + seq![name] + " not found."@,
        EvalError::Lex(inner) => lex_error_text(inner),
        EvalError::Parse(inner) => parse_error_text(inner),
        EvalError::Overflow => "Arithmetic overflow"@,
        EvalError::DepthExceeded => "Definitions nested too deeply"@,
    }
}

impl Token {
    /// The text that shows the token.
    pub fn describe(&self) -> (text: String)
        ensures
            text@ == token_text(*self),
    {
        match self {
            Token::Number(n) => {
                let digits = decimal_string(*n);
                labelled("Number", digits.as_str())
            },
            Token::Variable(c) => labelled_char("Variable", *c),
            Token::Sum => "Sum".to_owned(),
            Token::Product => "Product".to_owned(),
            Token::LeftParen => "LeftParen".to_owned(),
            Token::RightParen => "RightParen".to_owned(),
            Token::Eof => "Eof".to_owned(),
        }
    }
}

impl LexError {
    /// The message for the error.
    pub fn message(&self) -> (text: String)
        ensures
            text@ == lex_error_text(*self),
    {
        match self {
            LexError::UnexpectedCharacter(c) => {
                let mut text = "Unexpected character `".to_owned();
                text.push(*c);
                text.append("`");
                assert(text@ =~= lex_error_text(*self));
                text
            },
            LexError::NumberTooLarge => "Number too large".to_owned(),
        }
    }
}

impl ParseError {
    /// The message for the error.
    pub fn message(&self) -> (text: String)
        ensures
            text@ == parse_error_text(*self),
    {
        match self {
            ParseError::UnexpectedToken(t) => {
                let mut text = "Unexpected token ".to_owned();
                text.append(t.describe().as_str());
                text
            },
            ParseError::Mismatch { expected, actual } => {
                let mut text = "Expected ".to_owned();
                text.append(expected.describe().as_str());
                text.append(" actual ");
                text.append(actual.describe().as_str());
                text
            },
            ParseError::UnexpectedEnd => "Unexpected EOF".to_owned(),
            ParseError::MissingEnd => "Parsing error".to_owned(),
            ParseError::Parenthesis => "Parenthesis are not allowed in postfix notation.".to_owned(),
            ParseError::Malformed => "Unexpected error".to_owned(),
        }
    }
}

impl EvalError {
    /// The message for the error.
    pub fn message(&self) -> (text: String)
        ensures
            text@ == eval_error_text(*self),
    {
        match self {
            EvalError::VariableNotFound(name) => {
                let mut text = "Variable ".to_owned();
                text.push(*name);
                text.append(" not found.");
                assert(text@ =~= eval_error_text(*self));
                text
            },
            EvalError::Lex(inner) => inner.message(),
            EvalError::Parse(inner) => inner.message(),
            EvalError::Overflow => "Arithmetic overflow".to_owned(),
            EvalError::DepthExceeded => "Definitions nested too deeply".to_owned(),
        }
    }
}

} // verus!
