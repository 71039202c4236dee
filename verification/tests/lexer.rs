use exprcalc::lexer::{get_number, LexError, Lexer, Token};

fn lex(text: &str) -> Result<Vec<Token>, LexError> {
    Lexer::run(text.to_string())
}

#[test]
fn number_text_gives_number_and_end() {
    assert_eq!(lex("0"), Ok(vec![Token::Number(0), Token::Eof]));
    assert_eq!(lex("7"), Ok(vec![Token::Number(7), Token::Eof]));
    assert_eq!(lex("42"), Ok(vec![Token::Number(42), Token::Eof]));
    assert_eq!(lex("1234567890"), Ok(vec![Token::Number(1234567890), Token::Eof]));
}

#[test]
fn every_lowercase_letter_is_a_variable() {
    for c in 'a'..='z' {
        assert_eq!(lex(&c.to_string()), Ok(vec![Token::Variable(c), Token::Eof]));
    }
}

#[test]
fn adjacent_letters_are_separate_variables() {
    assert_eq!(
        lex("ab"),
        Ok(vec![Token::Variable('a'), Token::Variable('b'), Token::Eof])
    );
}

#[test]
fn digits_are_read_greedily() {
    assert_eq!(
        lex("12 34"),
        Ok(vec![Token::Number(12), Token::Number(34), Token::Eof])
    );
    assert_eq!(
        lex("12a3"),
        Ok(vec![
            Token::Number(12),
            Token::Variable('a'),
            Token::Number(3),
            Token::Eof
        ])
    );
}

#[test]
fn leading_zeros_do_not_change_the_number() {
    assert_eq!(lex("007"), Ok(vec![Token::Number(7), Token::Eof]));
}

#[test]
fn operators_and_parentheses() {
    assert_eq!(
        lex("(2+3)*4"),
        Ok(vec![
            Token::LeftParen,
            Token::Number(2),
            Token::Sum,
            Token::Number(3),
            Token::RightParen,
            Token::Product,
            Token::Number(4),
            Token::Eof
        ])
    );
}

#[test]
fn blanks_and_tabs_are_skipped() {
    assert_eq!(
        lex(" \t1 \t+\t x  "),
        Ok(vec![
            Token::Number(1),
            Token::Sum,
            Token::Variable('x'),
            Token::Eof
        ])
    );
}

#[test]
fn empty_text_is_only_the_end_marker() {
    assert_eq!(lex(""), Ok(vec![Token::Eof]));
    assert_eq!(lex("   "), Ok(vec![Token::Eof]));
}

#[test]
fn foreign_character_is_rejected() {
    assert_eq!(lex("-"), Err(LexError::UnexpectedCharacter('-')));
    assert_eq!(lex("2 / 3"), Err(LexError::UnexpectedCharacter('/')));
    assert_eq!(lex("A"), Err(LexError::UnexpectedCharacter('A')));
    assert_eq!(lex("1\n"), Err(LexError::UnexpectedCharacter('\n')));
    assert_eq!(lex("x = 1"), Err(LexError::UnexpectedCharacter('=')));
    assert_eq!(lex("2+é"), Err(LexError::UnexpectedCharacter('é')));
}

#[test]
fn first_error_from_the_left_is_reported() {
    assert_eq!(lex("1 $ #"), Err(LexError::UnexpectedCharacter('$')));
    assert_eq!(lex("99999999999 $"), Err(LexError::NumberTooLarge));
    assert_eq!(lex("$ 99999999999"), Err(LexError::UnexpectedCharacter('$')));
}

#[test]
fn largest_number_fits_and_the_next_does_not() {
    assert_eq!(lex("4294967295"), Ok(vec![Token::Number(u32::MAX), Token::Eof]));
    assert_eq!(lex("4294967296"), Err(LexError::NumberTooLarge));
    assert_eq!(lex("42949672950"), Err(LexError::NumberTooLarge));
    assert_eq!(lex("00000000004294967295"), Ok(vec![Token::Number(u32::MAX), Token::Eof]));
}

#[test]
fn tokens_end_with_the_only_end_marker() {
    let tokens = lex("1+(a*22)").unwrap();
    assert_eq!(tokens.last(), Some(&Token::Eof));
    assert_eq!(tokens.iter().filter(|t| **t == Token::Eof).count(), 1);
}

#[test]
fn get_number_reads_one_run() {
    let chars: Vec<char> = "ab123+45".chars().collect();
    assert_eq!(get_number(&chars, 2), (Some(123), 5));
    assert_eq!(get_number(&chars, 3), (Some(23), 5));
    assert_eq!(get_number(&chars, 6), (Some(45), 8));
}

#[test]
fn get_number_off_a_digit_reads_nothing() {
    let chars: Vec<char> = "ab1".chars().collect();
    assert_eq!(get_number(&chars, 0), (Some(0), 0));
    assert_eq!(get_number(&chars, 3), (Some(0), 3));
}

#[test]
fn get_number_reports_a_value_that_does_not_fit() {
    let chars: Vec<char> = "4294967296x".chars().collect();
    assert_eq!(get_number(&chars, 0), (None, 10));
}
