//! The tokenizer: text to a sequence of tokens that ends with [`Token::Eof`].
//!
//! The meaning of tokenizing is given by [`tokenize`], a function on sequences
//! of characters; [`Lexer::run`] computes it.

use crate::text::to_chars;
use vstd::prelude::*;

verus! {

/// A lexical unit of an expression.
#[derive(Debug, PartialEq, Eq, Clone, Copy, Structural)]
pub enum Token {
    Number(u32),
    Variable(char),
    Sum,
    Product,
    LeftParen,
    RightParen,
    Eof,
}

/// A token sequence in source order.
pub type Tokens = Vec<Token>;

/// Why a text could not be tokenized.
#[derive(Debug, PartialEq, Eq, Clone, Copy, Structural)]
pub enum LexError {
    /// A character that belongs to no token.
    UnexpectedCharacter(char),
    /// A run of digits whose value does not fit in 32 bits.
    NumberTooLarge,
}

pub open spec fn is_digit(c: char) -> bool {
    '0' <= c && c <= '9'
}

pub open spec fn is_letter(c: char) -> bool {
    'a' <= c && c <= 'z'
}

pub open spec fn is_blank(c: char) -> bool {
    c == ' ' || c == '\t'
}

/// The characters that may occur in a text that tokenizes.
pub open spec fn in_alphabet(c: char) -> bool {
    is_digit(c) || is_letter(c) || is_blank(c) || c == '+' || c == '*' || c == '(' || c == ')'
}

/// The value of a decimal digit.
pub open spec fn digit_value(c: char) -> nat {
    (c as int - '0' as int) as nat
}

/// The token that a character stands for by itself, if there is one.
pub open spec fn symbol(c: char) -> Option<Token> {
    if is_letter(c) {
        Some(Token::Variable(c))
    } else if c == '+' {
        Some(Token::Sum)
    } else if c == '*' {
        Some(Token::Product)
    } else if c == '(' {
        Some(Token::LeftParen)
    } else if c == ')' {
        Some(Token::RightParen)
    } else {
        None
    }
}

/// The position just behind the run of digits that starts at `i`; `i` itself
/// where no digit stands at `i`.
pub open spec fn digits_end(s: Seq<char>, i: int) -> int
    decreases s.len() - i,
{
    if 0 <= i < s.len() && is_digit(s[i]) {
        digits_end(s, i + 1)
    } else {
        i
    }
}

/// The number that a sequence of digits denotes in base ten.
pub open spec fn decimal_value(s: Seq<char>) -> nat
    decreases s.len(),
{
    if s.len() == 0 {
        0
    } else {
        decimal_value(s.drop_last()) * 10 + digit_value(s.last())
    }
}

/// `v` as a 32-bit number, if it is one.
pub open spec fn fits(v: nat) -> Option<u32> {
    if v <= u32::MAX {
        Some(v as u32)
    } else {
        None
    }
}

/// The tokens `front`, then the outcome `rest` of tokenizing what follows.
pub open spec fn prefixed(front: Seq<Token>, rest: Result<Seq<Token>, LexError>) -> Result<
    Seq<Token>,
    LexError,
> {
    match rest {
        Ok(tokens) => Ok(front + tokens),
        Err(e) => Err(e),
    }
}

/// The outcome of tokenizing `s` from position `i` on.
///
/// Blanks are skipped, a run of digits is one number, every other character
/// of the alphabet is one token, and the first character outside the
/// alphabet, or the first number that is too large, ends it with an error.
pub open spec fn lex_from(s: Seq<char>, i: int) -> Result<Seq<Token>, LexError>
    decreases s.len() - i,
{
    if i < 0 || i >= s.len() {
        Ok(seq![Token::Eof])
    } else if is_blank(s[i]) {
        lex_from(s, i + 1)
    } else if is_digit(s[i]) {
        let j = digits_end(s, i);
        proof {
            lemma_digits_end_bounds(s, i);
        }
        match fits(decimal_value(s.subrange(i, j))) {
            Some(n) => prefixed(seq![Token::Number(n)], lex_from(s, j)),
            None => Err(LexError::NumberTooLarge),
        }
    } else {
        match symbol(s[i]) {
            Some(t) => prefixed(seq![t], lex_from(s, i + 1)),
            None => Err(LexError::UnexpectedCharacter(s[i])),
        }
    }
}

/// The outcome of tokenizing the text `s`.
pub open spec fn tokenize(s: Seq<char>) -> Result<Seq<Token>, LexError> {
    lex_from(s, 0)
}

/// A token sequence as the tokenizer makes them: it ends with the end marker,
/// which occurs nowhere else.
pub open spec fn is_terminated(tokens: Seq<Token>) -> bool {
    &&& tokens.len() > 0
    &&& tokens.last() == Token::Eof
    &&& forall|k: int| 0 <= k < tokens.len() - 1 ==> tokens[k] != Token::Eof
}

/// What an executable tokenizer returned, over sequences.
pub open spec fn lexed(result: Result<Tokens, LexError>) -> Result<Seq<Token>, LexError> {
    match result {
        Ok(tokens) => Ok(tokens@),
        Err(e) => Err(e),
    }
}

/// A run of digits ends behind its first digit and inside the text, and only
/// digits stand in it.
pub proof fn lemma_digits_end_bounds(s: Seq<char>, i: int)
    requires
        0 <= i <= s.len(),
    ensures
        i <= digits_end(s, i) <= s.len(),
        i < s.len() && is_digit(s[i]) ==> i < digits_end(s, i),
        forall|k: int| i <= k < digits_end(s, i) ==> is_digit(s[k]),
        digits_end(s, i) < s.len() ==> !is_digit(s[digits_end(s, i)]),
    decreases s.len() - i,
{
    if i < s.len() && is_digit(s[i]) {
        lemma_digits_end_bounds(s, i + 1);
    }
}

/// Appending a digit multiplies the value by ten and adds the digit.
pub proof fn lemma_decimal_value_push(s: Seq<char>, c: char)
    ensures
        decimal_value(s.push(c)) == decimal_value(s) * 10 + digit_value(c),
{
    assert(s.push(c).drop_last() =~= s);
}

proof fn lemma_prefixed_push(front: Seq<Token>, t: Token, rest: Result<Seq<Token>, LexError>)
    ensures
        prefixed(front, prefixed(seq![t], rest)) == prefixed(front.push(t), rest),
{
    if let Ok(tokens) = rest {
        assert(front + (seq![t] + tokens) =~= front.push(t) + tokens);
    }
}

/// Whatever tokenizes gives a sequence that ends with the one end marker.
pub proof fn lemma_lex_terminated(s: Seq<char>, i: int)
    ensures
        lex_from(s, i) matches Ok(tokens) ==> is_terminated(tokens),
    decreases s.len() - i,
{
    if i < 0 || i >= s.len() {
    } else if is_blank(s[i]) {
        lemma_lex_terminated(s, i + 1);
    } else if is_digit(s[i]) {
        lemma_digits_end_bounds(s, i);
        lemma_lex_terminated(s, digits_end(s, i));
    } else {
        lemma_lex_terminated(s, i + 1);
    }
}

fn is_digit_char(c: char) -> (r: bool)
    ensures
        r == is_digit(c),
{
    '0' <= c && c <= '9'
}

fn symbol_of(c: char) -> (r: Option<Token>)
    ensures
        r == symbol(c),
{
    if 'a' <= c && c <= 'z' {
        Some(Token::Variable(c))
    } else if c == '+' {
        Some(Token::Sum)
    } else if c == '*' {
        Some(Token::Product)
    } else if c == '(' {
        Some(Token::LeftParen)
    } else if c == ')' {
        Some(Token::RightParen)
    } else {
        None
    }
}

/// Reads the run of digits that starts at `start`: its value, if that fits
/// in 32 bits, and the position behind it.
pub fn get_number(chars: &Vec<char>, start: usize) -> (r: (Option<u32>, usize))
    requires
        start <= chars.len(),
    ensures
        r.1 == digits_end(chars@, start as int),
        r.0 == fits(decimal_value(chars@.subrange(start as int, r.1 as int))),
{
    let mut i: usize = start;
    let mut value: Option<u32> = Some(0);
    while i < chars.len() && is_digit_char(chars[i])
        invariant
            start <= i <= chars.len(),
            digits_end(chars@, start as int) == digits_end(chars@, i as int),
            value == fits(decimal_value(chars@.subrange(start as int, i as int))),
        decreases chars.len() - i,
    {
        let digit: u32 = chars[i] as u32 - '0' as u32;
        proof {
            let run = chars@.subrange(start as int, i as int);
            assert(chars@.subrange(start as int, i + 1) =~= run.push(chars@[i as int]));
            lemma_decimal_value_push(run, chars@[i as int]);
        }
        value =
        match value {
            Some(v) => match v.checked_mul(10) {
                Some(tens) => tens.checked_add(digit),
                None => None,
            },
            None => None,
        };
        i += 1;
    }
    (value, i)
}

/// The tokenizer.
pub struct Lexer;

impl Lexer {
    /// Tokenizes `input`.
    ///
    /// The result is that of [`tokenize`] on the characters of `input`: the
    /// tokens in source order with the end marker behind them, or the first
    /// error met from the left.
    pub fn run(input: String) -> (result: Result<Tokens, LexError>)
        ensures
            lexed(result) == tokenize(input@),
            result matches Ok(tokens) ==> is_terminated(tokens@),
    {
        let chars = to_chars(input.as_str());
        let mut tokens: Vec<Token> = Vec::new();
        let mut i: usize = 0;
        while i < chars.len()
            invariant
                i <= chars.len(),
                chars@ == input@,
                tokenize(chars@) == prefixed(tokens@, lex_from(chars@, i as int)),
            decreases chars.len() - i,
        {
            let c = chars[i];
            if c == ' ' || c == '\t' {
                i += 1;
            } else if is_digit_char(c) {
                let (value, end) = get_number(&chars, i);
                proof {
                    lemma_digits_end_bounds(chars@, i as int);
                }
                match value {
                    Some(n) => {
                        proof {
                            lemma_prefixed_push(
                                tokens@,
                                Token::Number(n),
                                lex_from(chars@, end as int),
                            );
                        }
                        tokens.push(Token::Number(n));
                        i = end;
                    },
                    None => {
                        return Err(LexError::NumberTooLarge);
                    },
                }
            } else {
                match symbol_of(c) {
                    Some(t) => {
                        proof {
                            lemma_prefixed_push(tokens@, t, lex_from(chars@, i + 1));
                        }
                        tokens.push(t);
                        i += 1;
                    },
                    None => {
                        return Err(LexError::UnexpectedCharacter(c));
                    },
                }
            }
        }
        proof {
            assert(tokens@ + seq![Token::Eof] =~= tokens@.push(Token::Eof));
            lemma_lex_terminated(chars@, 0);
        }
        tokens.push(Token::Eof);
        Ok(tokens)
    }
}

/// The character that writes the digit `d`.
pub open spec fn digit_char(d: nat) -> char {
    (d + '0' as nat) as char
}

/// The decimal text of `n`, without leading zeros.
pub open spec fn decimal_text(n: nat) -> Seq<char>
    decreases n,
{
    if n < 10 {
        seq![digit_char(n)]
    } else {
        decimal_text(n / 10).push(digit_char(n % 10))
    }
}

/// The decimal text of a number is made of digits and denotes that number.
pub proof fn lemma_decimal_text(n: nat)
    ensures
        decimal_text(n).len() > 0,
        forall|k: int| 0 <= k < decimal_text(n).len() ==> is_digit(#[trigger] decimal_text(n)[k]),
        decimal_value(decimal_text(n)) == n,
    decreases n,
{
    if n < 10 {
        assert(seq![digit_char(n)] =~= Seq::<char>::empty().push(digit_char(n)));
        lemma_decimal_value_push(Seq::<char>::empty(), digit_char(n));
    } else {
        lemma_decimal_text(n / 10);
        lemma_decimal_value_push(decimal_text(n / 10), digit_char(n % 10));
    }
}

/// A text of digits alone is one number: tokenizing it gives that number and
/// the end marker, or fails where the number does not fit in 32 bits.
pub proof fn lemma_digits_tokenize(s: Seq<char>)
    requires
        s.len() > 0,
        forall|k: int| 0 <= k < s.len() ==> is_digit(#[trigger] s[k]),
    ensures
        tokenize(s) == match fits(decimal_value(s)) {
            Some(n) => Ok::<Seq<Token>, LexError>(seq![Token::Number(n), Token::Eof]),
            None => Err::<Seq<Token>, LexError>(LexError::NumberTooLarge),
        },
{
    lemma_digits_end_bounds(s, 0);
    assert(digits_end(s, 0) == s.len());
    assert(s.subrange(0, s.len() as int) =~= s);
    assert(lex_from(s, s.len() as int) == Ok::<Seq<Token>, LexError>(seq![Token::Eof]));
    if let Some(n) = fits(decimal_value(s)) {
        assert(seq![Token::Number(n)] + seq![Token::Eof] =~= seq![Token::Number(n), Token::Eof]);
    }
}

/// For every number `n` that fits in 32 bits, tokenizing its decimal text
/// gives the number `n` and the end marker.
pub proof fn lemma_number_tokenizes(n: nat)
    requires
        n <= u32::MAX,
    ensures
        tokenize(decimal_text(n)) == Ok::<Seq<Token>, LexError>(
            seq![Token::Number(n as u32), Token::Eof],
        ),
{
    lemma_decimal_text(n);
    lemma_digits_tokenize(decimal_text(n));
}

/// For every lowercase letter `c`, tokenizing the text `c` gives the variable
/// `c` and the end marker.
pub proof fn lemma_letter_tokenizes(c: char)
    requires
        is_letter(c),
    ensures
        tokenize(seq![c]) == Ok::<Seq<Token>, LexError>(seq![Token::Variable(c), Token::Eof]),
{
    let s = seq![c];
    assert(lex_from(s, 1) == Ok::<Seq<Token>, LexError>(seq![Token::Eof]));
    assert(seq![Token::Variable(c)] + seq![Token::Eof] =~= seq![Token::Variable(c), Token::Eof]);
}

proof fn lemma_rejected_from(s: Seq<char>, i: int, k: int)
    requires
        0 <= i <= k < s.len(),
        !in_alphabet(s[k]),
    ensures
        lex_from(s, i) is Err,
    decreases k - i,
{
    if is_blank(s[i]) {
        lemma_rejected_from(s, i + 1, k);
    } else if is_digit(s[i]) {
        lemma_digits_end_bounds(s, i);
        let j = digits_end(s, i);
        assert(j <= k) by {
            if j > k {
                assert(is_digit(s[k]));
            }
        }
        lemma_rejected_from(s, j, k);
    } else if symbol(s[i]) is Some {
        lemma_rejected_from(s, i + 1, k);
    }
}

/// A text that holds a character outside the alphabet does not tokenize.
pub proof fn lemma_foreign_character_rejected(s: Seq<char>, k: int)
    requires
        0 <= k < s.len(),
        !in_alphabet(s[k]),
    ensures
        tokenize(s) is Err,
{
    lemma_rejected_from(s, 0, k);
}

} // verus!
