//! Expressions written out as tokens and as text, and the proofs that
//! tokenizing and parsing read back what was written.
//!
//! In infix notation an operand is put in parentheses where the grammar would
//! otherwise read it differently: a sum as an operand of a product or as the
//! left operand of a sum, a product as the left operand of a product. In text
//! one blank stands between two tokens.

use crate::lexer::{
    decimal_text, decimal_value, digits_end, is_digit, is_letter, lemma_decimal_text, lex_from,
    tokenize, LexError, Token,
};
use crate::parser::{
    infix_expression, infix_parse, infix_primary, infix_term, Expression, Operator, ParseError,
    Parsed,
};
use crate::postfix::{
    lemma_postfix_parse_of_tokens, operator_token, postfix_parse, postfix_tokens,
};
use crate::text::push_decimal;
use vstd::prelude::*;
use vstd::string::StringExecFns;

verus! {

/// `body` between parentheses.
pub open spec fn parenthesized(body: Seq<Token>) -> Seq<Token> {
    seq![Token::LeftParen] + body + seq![Token::RightParen]
}

/// The rule of the grammar that reads an expression as it stands, without
/// parentheses around it: 0 for the rule of expressions, 1 for that of terms,
/// 2 for that of primaries.
pub open spec fn level_of(e: Expression) -> nat {
    match e {
        Expression::Binary(Operator::Sum, _, _) => 0,
        Expression::Binary(Operator::Product, _, _) => 1,
        _ => 2,
    }
}

/// `body`, between parentheses where `wrap` holds.
pub open spec fn wrapped(wrap: bool, body: Seq<Token>) -> Seq<Token> {
    if wrap {
        parenthesized(body)
    } else {
        body
    }
}

/// The expression in infix notation, written for the rule `level` to read.
pub open spec fn infix_tokens(e: Expression, level: nat) -> Seq<Token>
    decreases e,
{
    match e {
        Expression::Number(n) => seq![Token::Number(n)],
        Expression::Variable(c) => seq![Token::Variable(c)],
        Expression::Binary(Operator::Sum, left, right) => wrapped(
            level > 0,
            infix_tokens(*left, 1) + seq![Token::Sum] + infix_tokens(*right, 0),
        ),
        Expression::Binary(Operator::Product, left, right) => wrapped(
            level > 1,
            infix_tokens(*left, 2) + seq![Token::Product] + infix_tokens(*right, 1),
        ),
    }
}

/// What the rule `level` makes of the tokens from `pos` on.
pub open spec fn rule(level: nat, s: Seq<Token>, pos: nat) -> Parsed {
    if level == 0 {
        infix_expression(s, pos)
    } else if level == 1 {
        infix_term(s, pos)
    } else {
        infix_primary(s, pos)
    }
}

/// Whether the tokens `t` stand in `s` from position `pos` on.
pub open spec fn stands_at(s: Seq<Token>, pos: int, t: Seq<Token>) -> bool {
    &&& 0 <= pos
    &&& pos + t.len() <= s.len()
    &&& forall|k: int| 0 <= k < t.len() ==> s[pos + k] == #[trigger] t[k]
}

/// Whether what the rule `level` reads ends at position `pos`: a term ends
/// before a token that is no `*`, an expression before one that is neither
/// `*` nor `+`, and a primary anywhere.
pub open spec fn ends_at(level: nat, s: Seq<Token>, pos: nat) -> bool {
    level >= 2 || (pos < s.len() && s[pos as int] != Token::Product && (level >= 1 || s[pos as int]
        != Token::Sum))
}

proof fn lemma_stands_at_parts(s: Seq<Token>, pos: int, a: Seq<Token>, b: Seq<Token>)
    requires
        stands_at(s, pos, a + b),
    ensures
        stands_at(s, pos, a),
        stands_at(s, pos + a.len(), b),
{
    let t = a + b;
    assert forall|k: int| 0 <= k < a.len() implies s[pos + k] == #[trigger] a[k] by {
        assert(t[k] == a[k]);
    }
    assert forall|k: int| 0 <= k < b.len() implies s[pos + a.len() + k] == #[trigger] b[k] by {
        assert(t[a.len() + k] == b[k]);
    }
}

proof fn lemma_stands_at_operands(
    s: Seq<Token>,
    pos: int,
    left: Seq<Token>,
    op: Token,
    right: Seq<Token>,
)
    requires
        stands_at(s, pos, left + seq![op] + right),
    ensures
        stands_at(s, pos, left),
        s[pos + left.len()] == op,
        stands_at(s, pos + left.len() + 1, right),
{
    lemma_stands_at_parts(s, pos, left + seq![op], right);
    lemma_stands_at_parts(s, pos, left, seq![op]);
    assert(seq![op][0] == op);
}

/// An expression takes up at least one token.
pub proof fn lemma_infix_tokens_nonempty(e: Expression, level: nat)
    ensures
        infix_tokens(e, level).len() > 0,
    decreases e,
{
    match e {
        Expression::Binary(Operator::Sum, left, right) => {
            lemma_infix_tokens_nonempty(*left, 1);
        },
        Expression::Binary(Operator::Product, left, right) => {
            lemma_infix_tokens_nonempty(*left, 2);
        },
        _ => {},
    }
}

/// A sum or a product that stands without parentheses is read by its own
/// rule.
proof fn lemma_rule_of_operation(e: Expression, s: Seq<Token>, pos: nat)
    requires
        e is Binary,
        stands_at(s, pos as int, infix_tokens(e, 0)),
        ends_at(level_of(e), s, pos + infix_tokens(e, 0).len()),
    ensures
        rule(level_of(e), s, pos) == Ok::<(Expression, nat), ParseError>(
            (e, infix_tokens(e, 0).len()),
        ),
    decreases e, 0nat,
{
    match e {
        Expression::Binary(Operator::Sum, left, right) => {
            let l = infix_tokens(*left, 1);
            let r = infix_tokens(*right, 0);
            lemma_stands_at_operands(s, pos as int, l, Token::Sum, r);
            lemma_rule_of_tokens(*left, 1, s, pos);
            lemma_rule_of_tokens(*right, 0, s, (pos + l.len() + 1) as nat);
        },
        Expression::Binary(Operator::Product, left, right) => {
            let l = infix_tokens(*left, 2);
            let r = infix_tokens(*right, 1);
            lemma_stands_at_operands(s, pos as int, l, Token::Product, r);
            lemma_rule_of_tokens(*left, 2, s, pos);
            lemma_rule_of_tokens(*right, 1, s, (pos + l.len() + 1) as nat);
        },
        _ => {},
    }
}

/// Where an expression stands written for the rule `level`, and what the
/// rule reads ends behind it, the rule reads that expression, and takes up
/// its tokens.
pub proof fn lemma_rule_of_tokens(e: Expression, level: nat, s: Seq<Token>, pos: nat)
    requires
        level <= 2,
        stands_at(s, pos as int, infix_tokens(e, level)),
        ends_at(level, s, pos + infix_tokens(e, level).len()),
    ensures
        rule(level, s, pos) == Ok::<(Expression, nat), ParseError>(
            (e, infix_tokens(e, level).len()),
        ),
    decreases e, 1nat,
{
    let tokens = infix_tokens(e, level);
    lemma_infix_tokens_nonempty(e, level);
    assert(s[pos as int] == tokens[0]);
    match e {
        Expression::Number(_) => {},
        Expression::Variable(_) => {},
        Expression::Binary(_, _, _) => {
            let body = infix_tokens(e, 0);
            if level > level_of(e) {
                lemma_stands_at_parts(s, pos as int, seq![Token::LeftParen] + body, seq![
                    Token::RightParen,
                ]);
                lemma_stands_at_parts(s, pos as int, seq![Token::LeftParen], body);
                assert(seq![Token::LeftParen][0] == Token::LeftParen);
                assert(seq![Token::RightParen][0] == Token::RightParen);
                assert(s[pos as int] == Token::LeftParen);
                assert(s[(pos + 1 + body.len()) as int] == Token::RightParen);
                lemma_rule_of_operation(e, s, pos + 1);
                assert(infix_expression(s, pos + 1) == Ok::<(Expression, nat), ParseError>(
                    (e, body.len()),
                ));
                assert(infix_primary(s, pos) == Ok::<(Expression, nat), ParseError>(
                    (e, body.len() + 2),
                ));
            } else {
                lemma_rule_of_operation(e, s, pos);
            }
        },
    }
}

/// Parsing inverts infix notation: the tokens of an expression in infix
/// notation, with the end marker behind them and any tokens behind that,
/// parse as that expression.
pub proof fn lemma_infix_parse_of_tokens(e: Expression, behind: Seq<Token>)
    ensures
        infix_parse(infix_tokens(e, 0) + seq![Token::Eof] + behind) == Ok::<
            Expression,
            ParseError,
        >(e),
{
    let tokens = infix_tokens(e, 0);
    let s = tokens + seq![Token::Eof] + behind;
    assert(stands_at(s, 0, tokens));
    assert(s[tokens.len() as int] == Token::Eof);
    lemma_rule_of_tokens(e, 0, s, 0);
}

/// The text of one token; the end marker has none.
pub open spec fn token_source(t: Token) -> Seq<char> {
    match t {
        Token::Number(n) => decimal_text(n as nat),
        Token::Variable(c) => seq![c],
        Token::Sum => seq!['+'],
        Token::Product => seq!['*'],
        Token::LeftParen => seq!['('],
        Token::RightParen => seq![')'],
        Token::Eof => Seq::empty(),
    }
}

/// The tokens as text, with one blank between two of them.
pub open spec fn written(tokens: Seq<Token>) -> Seq<char>
    decreases tokens.len(),
{
    if tokens.len() == 0 {
        Seq::empty()
    } else if tokens.len() == 1 {
        token_source(tokens[0])
    } else {
        token_source(tokens[0]) + seq![' '] + written(tokens.drop_first())
    }
}

/// Whether the text of a token is read back as that token: the variable of a
/// variable token is a lowercase letter, and the token is not the end marker.
pub open spec fn is_writable(t: Token) -> bool {
    match t {
        Token::Variable(c) => is_letter(c),
        Token::Eof => false,
        _ => true,
    }
}

/// Whether every token of a sequence is writable.
pub open spec fn all_writable(tokens: Seq<Token>) -> bool {
    forall|k: int| 0 <= k < tokens.len() ==> is_writable(#[trigger] tokens[k])
}

proof fn lemma_all_writable_joined(a: Seq<Token>, b: Seq<Token>)
    requires
        all_writable(a),
        all_writable(b),
    ensures
        all_writable(a + b),
{
    assert forall|k: int| 0 <= k < (a + b).len() implies is_writable(#[trigger] (a + b)[k]) by {
        if k < a.len() {
            assert((a + b)[k] == a[k]);
        } else {
            assert((a + b)[k] == b[k - a.len()]);
        }
    }
}

/// Whether the variables of an expression are lowercase letters.
pub open spec fn is_writable_expression(e: Expression) -> bool
    decreases e,
{
    match e {
        Expression::Number(_) => true,
        Expression::Variable(c) => is_letter(c),
        Expression::Binary(_, left, right) => is_writable_expression(*left)
            && is_writable_expression(*right),
    }
}

/// Whether `s` from position `pos` to its end is the text `t`.
pub open spec fn ends_with_text(s: Seq<char>, pos: int, t: Seq<char>) -> bool {
    &&& 0 <= pos
    &&& pos + t.len() == s.len()
    &&& forall|k: int| 0 <= k < t.len() ==> s[pos + k] == #[trigger] t[k]
}

proof fn lemma_digits_run(s: Seq<char>, pos: int, count: nat)
    requires
        0 <= pos,
        pos + count <= s.len(),
        forall|k: int| pos <= k < pos + count ==> is_digit(#[trigger] s[k]),
        pos + count == s.len() || !is_digit(s[pos + count]),
    ensures
        digits_end(s, pos) == pos + count,
    decreases count,
{
    if count > 0 {
        assert(is_digit(s[pos]));
        lemma_digits_run(s, pos + 1, (count - 1) as nat);
    }
}

/// Where the text of writable tokens stands at the end of `s`, tokenizing
/// from there gives these tokens and the end marker.
proof fn lemma_lex_of_written(tokens: Seq<Token>, s: Seq<char>, pos: int)
    requires
        all_writable(tokens),
        ends_with_text(s, pos, written(tokens)),
    ensures
        lex_from(s, pos) == Ok::<Seq<Token>, LexError>(tokens + seq![Token::Eof]),
    decreases tokens.len(),
{
    if tokens.len() == 0 {
        assert(tokens + seq![Token::Eof] =~= seq![Token::Eof]);
    } else {
        let first = tokens[0];
        let rest = tokens.drop_first();
        let source = token_source(first);
        let text = written(tokens);
        let next = pos + source.len();
        assert(is_writable(first));
        assert forall|k: int| 0 <= k < rest.len() implies is_writable(#[trigger] rest[k]) by {
            assert(rest[k] == tokens[k + 1]);
        }
        assert(source.len() > 0) by {
            if let Token::Number(n) = first {
                lemma_decimal_text(n as nat);
            }
        }
        assert(forall|k: int| 0 <= k < source.len() ==> text[k] == source[k]);
        assert forall|k: int| 0 <= k < source.len() implies s[pos + k] == source[k] by {
            assert(s[pos + k] == text[k]);
        }
        // What stands behind the first token: the end of the text, or a blank
        // and the other tokens.
        if tokens.len() == 1 {
            assert(next == s.len());
            assert(rest.len() == 0);
        } else {
            assert(text[source.len() as int] == ' ');
            assert(s[next] == text[source.len() as int]);
            assert forall|k: int| 0 <= k < written(rest).len() implies s[next + 1 + k]
                == #[trigger] written(rest)[k] by {
                assert(text[source.len() + 1 + k] == written(rest)[k]);
                assert(s[pos + (source.len() + 1 + k)] == text[source.len() + 1 + k]);
            }
            lemma_lex_of_written(rest, s, next + 1);
            assert(lex_from(s, next) == lex_from(s, next + 1));
        }
        assert(lex_from(s, next) == Ok::<Seq<Token>, LexError>(rest + seq![Token::Eof])) by {
            if tokens.len() == 1 {
                assert(rest + seq![Token::Eof] =~= seq![Token::Eof]);
            }
        }
        assert(seq![first] + (rest + seq![Token::Eof]) =~= tokens + seq![Token::Eof]);
        match first {
            Token::Number(n) => {
                lemma_decimal_text(n as nat);
                assert forall|k: int| pos <= k < next implies is_digit(#[trigger] s[k]) by {
                    assert(s[pos + (k - pos)] == source[k - pos]);
                }
                lemma_digits_run(s, pos, source.len());
                assert(s.subrange(pos, next) =~= source);
                assert(decimal_value(s.subrange(pos, next)) == n);
            },
            _ => {
                assert(source.len() == 1);
                assert(s[pos] == source[0]);
            },
        }
    }
}

/// Tokenizing inverts writing: the text of writable tokens tokenizes as
/// these tokens and the end marker.
pub proof fn lemma_tokenize_written(tokens: Seq<Token>)
    requires
        all_writable(tokens),
    ensures
        tokenize(written(tokens)) == Ok::<Seq<Token>, LexError>(tokens + seq![Token::Eof]),
{
    lemma_lex_of_written(tokens, written(tokens), 0);
}

/// The tokens of a writable expression in infix notation are writable.
pub proof fn lemma_infix_tokens_writable(e: Expression, level: nat)
    requires
        is_writable_expression(e),
    ensures
        all_writable(infix_tokens(e, level)),
    decreases e,
{
    let body = infix_tokens(e, 0);
    match e {
        Expression::Binary(Operator::Sum, left, right) => {
            lemma_infix_tokens_writable(*left, 1);
            lemma_infix_tokens_writable(*right, 0);
            lemma_all_writable_joined(infix_tokens(*left, 1), seq![Token::Sum]);
            lemma_all_writable_joined(
                infix_tokens(*left, 1) + seq![Token::Sum],
                infix_tokens(*right, 0),
            );
        },
        Expression::Binary(Operator::Product, left, right) => {
            lemma_infix_tokens_writable(*left, 2);
            lemma_infix_tokens_writable(*right, 1);
            lemma_all_writable_joined(infix_tokens(*left, 2), seq![Token::Product]);
            lemma_all_writable_joined(
                infix_tokens(*left, 2) + seq![Token::Product],
                infix_tokens(*right, 1),
            );
        },
        _ => {},
    }
    assert(all_writable(body));
    if e is Binary && level > level_of(e) {
        lemma_all_writable_joined(seq![Token::LeftParen], body);
        lemma_all_writable_joined(seq![Token::LeftParen] + body, seq![Token::RightParen]);
    }
}

/// The tokens of a writable expression in postfix notation are writable.
pub proof fn lemma_postfix_tokens_writable(e: Expression)
    requires
        is_writable_expression(e),
    ensures
        all_writable(postfix_tokens(e)),
    decreases e,
{
    match e {
        Expression::Binary(op, left, right) => {
            lemma_postfix_tokens_writable(*left);
            lemma_postfix_tokens_writable(*right);
            lemma_all_writable_joined(postfix_tokens(*left), postfix_tokens(*right));
            lemma_all_writable_joined(
                postfix_tokens(*left) + postfix_tokens(*right),
                seq![operator_token(op)],
            );
        },
        _ => {},
    }
}

/// An expression whose variables are lowercase letters, written in infix
/// notation, tokenizes, and its tokens parse as that expression.
pub proof fn lemma_infix_round_trip(e: Expression)
    requires
        is_writable_expression(e),
    ensures
        tokenize(written(infix_tokens(e, 0))) matches Ok(tokens) && infix_parse(tokens) == Ok::<
            Expression,
            ParseError,
        >(e),
{
    lemma_infix_tokens_writable(e, 0);
    lemma_tokenize_written(infix_tokens(e, 0));
    lemma_infix_parse_of_tokens(e, Seq::empty());
    assert(infix_tokens(e, 0) + seq![Token::Eof] + Seq::<Token>::empty() =~= infix_tokens(e, 0)
        + seq![Token::Eof]);
}

/// An expression whose variables are lowercase letters, written in postfix
/// notation, tokenizes, and its tokens parse as that expression.
pub proof fn lemma_postfix_round_trip(e: Expression)
    requires
        is_writable_expression(e),
    ensures
        tokenize(written(postfix_tokens(e))) matches Ok(tokens) && postfix_parse(tokens) == Ok::<
            Expression,
            ParseError,
        >(e),
{
    lemma_postfix_tokens_writable(e);
    lemma_tokenize_written(postfix_tokens(e));
    lemma_postfix_parse_of_tokens(e, Seq::empty());
    assert(Seq::<Token>::empty() + postfix_tokens(e) + seq![Token::Eof] =~= postfix_tokens(e)
        + seq![Token::Eof]);
}

/// Appends the tokens of `e` in infix notation, written for the rule `level`.
pub fn push_infix_tokens(out: &mut Vec<Token>, e: &Expression, level: u8)
    ensures
        final(out)@ == old(out)@ + infix_tokens(*e, level as nat),
    decreases e,
{
    match e {
        Expression::Number(n) => {
            out.push(Token::Number(*n));
            assert(out@ =~= old(out)@ + infix_tokens(*e, level as nat));
        },
        Expression::Variable(c) => {
            out.push(Token::Variable(*c));
            assert(out@ =~= old(out)@ + infix_tokens(*e, level as nat));
        },
        Expression::Binary(Operator::Sum, left, right) => {
            if level > 0 {
                out.push(Token::LeftParen);
            }
            push_infix_tokens(out, left, 1);
            out.push(Token::Sum);
            push_infix_tokens(out, right, 0);
            if level > 0 {
                out.push(Token::RightParen);
            }
            assert(out@ =~= old(out)@ + infix_tokens(*e, level as nat));
        },
        Expression::Binary(Operator::Product, left, right) => {
            if level > 1 {
                out.push(Token::LeftParen);
            }
            push_infix_tokens(out, left, 2);
            out.push(Token::Product);
            push_infix_tokens(out, right, 1);
            if level > 1 {
                out.push(Token::RightParen);
            }
            assert(out@ =~= old(out)@ + infix_tokens(*e, level as nat));
        },
    }
}

/// Appends the tokens of `e` in postfix notation.
pub fn push_postfix_tokens(out: &mut Vec<Token>, e: &Expression)
    ensures
        final(out)@ == old(out)@ + postfix_tokens(*e),
    decreases e,
{
    match e {
        Expression::Number(n) => {
            out.push(Token::Number(*n));
        },
        Expression::Variable(c) => {
            out.push(Token::Variable(*c));
        },
        Expression::Binary(op, left, right) => {
            push_postfix_tokens(out, left);
            push_postfix_tokens(out, right);
            match op {
                Operator::Sum => out.push(Token::Sum),
                Operator::Product => out.push(Token::Product),
            }
        },
    }
    assert(out@ =~= old(out)@ + postfix_tokens(*e));
}

/// Writes the tokens as text, with one blank between two of them.
pub fn write_tokens(tokens: &Vec<Token>) -> (text: String)
    ensures
        text@ == written(tokens@),
{
    let mut text = String::new();
    let mut i: usize = tokens.len();
    while i > 0
        invariant
            i <= tokens.len(),
            text@ == written(tokens@.subrange(i as int, tokens.len() as int)),
        decreases i,
    {
        i -= 1;
        let ghost behind = tokens@.subrange(i + 1, tokens.len() as int);
        let ghost from_here = tokens@.subrange(i as int, tokens.len() as int);
        proof {
            assert(from_here.drop_first() =~= behind);
            assert(from_here[0] == tokens@[i as int]);
        }
        let mut front = String::new();
        match tokens[i] {
            Token::Number(n) => {
                push_decimal(&mut front, n);
            },
            Token::Variable(c) => {
                front.push(c);
            },
            Token::Sum => {
                front.push('+');
            },
            Token::Product => {
                front.push('*');
            },
            Token::LeftParen => {
                front.push('(');
            },
            Token::RightParen => {
                front.push(')');
            },
            Token::Eof => {},
        }
        assert(front@ =~= token_source(tokens@[i as int]));
        if i + 1 < tokens.len() {
            front.push(' ');
            assert(front@ =~= token_source(tokens@[i as int]) + seq![' ']);
        }
        front.append(text.as_str());
        text = front;
    }
    assert(tokens@.subrange(0, tokens.len() as int) =~= tokens@);
    text
}

impl Expression {
    /// The expression as text in infix notation.
    pub fn infix_text(&self) -> (text: String)
        ensures
            text@ == written(infix_tokens(*self, 0)),
    {
        let mut tokens: Vec<Token> = Vec::new();
        push_infix_tokens(&mut tokens, self, 0);
        assert(Seq::<Token>::empty() + infix_tokens(*self, 0) =~= infix_tokens(*self, 0));
        write_tokens(&tokens)
    }

    /// The expression as text in postfix notation.
    pub fn postfix_text(&self) -> (text: String)
        ensures
            text@ == written(postfix_tokens(*self)),
    {
        let mut tokens: Vec<Token> = Vec::new();
        push_postfix_tokens(&mut tokens, self);
        assert(Seq::<Token>::empty() + postfix_tokens(*self) =~= postfix_tokens(*self));
        write_tokens(&tokens)
    }
}

} // verus!
