use exprcalc::lexer::{Lexer, Token};
use exprcalc::notation::{push_infix_tokens, push_postfix_tokens, write_tokens};
use exprcalc::parser::{Expression, Operator, Parse, Parser};
use exprcalc::postfix::PostfixParser;

fn number(n: u32) -> Expression {
    Expression::Number(n)
}

fn variable(c: char) -> Expression {
    Expression::Variable(c)
}

fn sum(left: Expression, right: Expression) -> Expression {
    Expression::Binary(Operator::Sum, Box::new(left), Box::new(right))
}

fn product(left: Expression, right: Expression) -> Expression {
    Expression::Binary(Operator::Product, Box::new(left), Box::new(right))
}

fn samples() -> Vec<Expression> {
    vec![
        number(0),
        number(u32::MAX),
        variable('a'),
        variable('z'),
        sum(number(1), number(2)),
        product(number(1), number(2)),
        sum(number(1), sum(number(2), number(3))),
        sum(sum(number(1), number(2)), number(3)),
        product(number(1), product(number(2), number(3))),
        product(product(number(1), number(2)), number(3)),
        sum(product(number(2), number(3)), number(4)),
        sum(number(2), product(number(3), number(4))),
        product(sum(number(2), number(3)), number(4)),
        product(number(2), sum(number(3), number(4))),
        product(sum(variable('x'), number(10)), sum(variable('y'), product(number(7), variable('x')))),
        sum(
            product(sum(sum(number(1), number(2)), number(3)), product(number(4), number(5))),
            sum(product(product(number(6), number(7)), number(8)), number(9)),
        ),
    ]
}

#[test]
fn infix_text_reads_back_as_the_expression() {
    for expression in samples() {
        let text = expression.infix_text();
        let tokens = Lexer::run(text).unwrap();
        assert_eq!(Parser::run(&tokens), Ok(expression));
    }
}

#[test]
fn postfix_text_reads_back_as_the_expression() {
    for expression in samples() {
        let text = expression.postfix_text();
        let tokens = Lexer::run(text).unwrap();
        assert_eq!(PostfixParser::run(&tokens), Ok(expression));
    }
}

#[test]
fn infix_text_puts_parentheses_where_they_are_needed() {
    assert_eq!(sum(number(1), sum(number(2), number(3))).infix_text(), "1 + 2 + 3");
    assert_eq!(sum(sum(number(1), number(2)), number(3)).infix_text(), "( 1 + 2 ) + 3");
    assert_eq!(product(number(1), product(number(2), number(3))).infix_text(), "1 * 2 * 3");
    assert_eq!(
        product(product(number(1), number(2)), number(3)).infix_text(),
        "( 1 * 2 ) * 3"
    );
    assert_eq!(sum(product(number(2), number(3)), number(4)).infix_text(), "2 * 3 + 4");
    assert_eq!(sum(number(2), product(number(3), number(4))).infix_text(), "2 + 3 * 4");
    assert_eq!(product(sum(number(2), number(3)), number(4)).infix_text(), "( 2 + 3 ) * 4");
    assert_eq!(product(number(2), sum(number(3), number(4))).infix_text(), "2 * ( 3 + 4 )");
    assert_eq!(number(12).infix_text(), "12");
    assert_eq!(variable('x').infix_text(), "x");
}

#[test]
fn postfix_text_puts_the_operator_last() {
    assert_eq!(
        sum(number(2), product(number(3), number(4))).postfix_text(),
        "2 3 4 * +"
    );
    assert_eq!(
        product(sum(number(2), number(3)), variable('x')).postfix_text(),
        "2 3 + x *"
    );
    assert_eq!(number(12).postfix_text(), "12");
}

#[test]
fn writing_tokens_and_tokenizing_gives_them_back() {
    let tokens = vec![
        Token::Number(12),
        Token::Number(34),
        Token::Variable('a'),
        Token::Variable('b'),
        Token::RightParen,
        Token::Sum,
        Token::Product,
        Token::LeftParen,
        Token::Number(0),
    ];
    let text = write_tokens(&tokens);
    assert_eq!(text, "12 34 a b ) + * ( 0");
    let mut expected = tokens.clone();
    expected.push(Token::Eof);
    assert_eq!(Lexer::run(text), Ok(expected));
}

#[test]
fn writing_no_tokens_gives_the_empty_text() {
    assert_eq!(write_tokens(&vec![]), "");
    assert_eq!(write_tokens(&vec![Token::Eof]), "");
}

#[test]
fn push_infix_tokens_appends_for_a_rule() {
    let expression = sum(number(1), number(2));
    let mut tokens = vec![Token::Variable('q')];
    push_infix_tokens(&mut tokens, &expression, 0);
    assert_eq!(
        tokens,
        vec![Token::Variable('q'), Token::Number(1), Token::Sum, Token::Number(2)]
    );
    let mut wrapped = Vec::new();
    push_infix_tokens(&mut wrapped, &expression, 1);
    assert_eq!(
        wrapped,
        vec![
            Token::LeftParen,
            Token::Number(1),
            Token::Sum,
            Token::Number(2),
            Token::RightParen
        ]
    );
    let mut term = Vec::new();
    push_infix_tokens(&mut term, &product(number(1), number(2)), 1);
    assert_eq!(term, vec![Token::Number(1), Token::Product, Token::Number(2)]);
    let mut primary = Vec::new();
    push_infix_tokens(&mut primary, &product(number(1), number(2)), 2);
    assert_eq!(primary.len(), 5);
    let mut leaf = Vec::new();
    push_infix_tokens(&mut leaf, &number(5), 2);
    assert_eq!(leaf, vec![Token::Number(5)]);
}

#[test]
fn push_postfix_tokens_appends() {
    let mut tokens = vec![Token::Number(9)];
    push_postfix_tokens(&mut tokens, &product(number(1), variable('x')));
    assert_eq!(
        tokens,
        vec![Token::Number(9), Token::Number(1), Token::Variable('x'), Token::Product]
    );
}

#[test]
fn postfix_tokens_parse_behind_any_tokens() {
    let expression = sum(number(1), product(number(2), number(3)));
    let mut tokens = vec![Token::LeftParen, Token::Sum, Token::Number(7)];
    push_postfix_tokens(&mut tokens, &expression);
    tokens.push(Token::Eof);
    assert_eq!(PostfixParser::run(&tokens), Ok(expression));
}

#[test]
fn infix_tokens_parse_before_any_tokens() {
    let expression = product(sum(number(1), number(2)), number(3));
    let mut tokens = Vec::new();
    push_infix_tokens(&mut tokens, &expression, 0);
    tokens.push(Token::Eof);
    tokens.push(Token::Product);
    tokens.push(Token::Number(4));
    assert_eq!(Parser::run(&tokens), Ok(expression));
}
