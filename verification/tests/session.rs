use exprcalc::evaluator::EvalError;
use exprcalc::lexer::{LexError, Token};
use exprcalc::parser::ParseError;
use exprcalc::session::{
    evaluate, find, interpret, interpret_marked, mark_blanks, prompt, spells, text_of, trim,
    Command, Failure, OperationMode,
};
use exprcalc::variables::VariableTable;

fn chars(text: &str) -> Vec<char> {
    text.chars().collect()
}

fn assign(name: char, definition: &str) -> Command {
    Command::Assign { name, definition: definition.to_string() }
}

#[test]
fn line_is_evaluated_in_infix_notation() {
    let memory = VariableTable::new();
    assert_eq!(evaluate(&OperationMode::Infix, "2+3*4".to_string(), &memory), Ok(14));
    assert_eq!(evaluate(&OperationMode::Infix, "(2+3)*4".to_string(), &memory), Ok(20));
}

#[test]
fn line_is_evaluated_in_postfix_notation() {
    let memory = VariableTable::new();
    assert_eq!(evaluate(&OperationMode::Postfix, "2 3 4 * +".to_string(), &memory), Ok(14));
    assert_eq!(evaluate(&OperationMode::Postfix, "2 3 + 4 *".to_string(), &memory), Ok(20));
}

#[test]
fn line_uses_the_variables() {
    let mut memory = VariableTable::new();
    memory.insert('x', "2+3".to_string());
    assert_eq!(evaluate(&OperationMode::Infix, "x*x".to_string(), &memory), Ok(25));
    assert_eq!(evaluate(&OperationMode::Postfix, "x 1 +".to_string(), &memory), Ok(6));
}

#[test]
fn definitions_are_infix_in_both_notations() {
    let mut memory = VariableTable::new();
    memory.insert('x', "2 3 +".to_string());
    assert_eq!(evaluate(&OperationMode::Postfix, "x".to_string(), &memory), Ok(2));
    assert_eq!(evaluate(&OperationMode::Infix, "x".to_string(), &memory), Ok(2));
}

#[test]
fn each_stage_gives_its_failure() {
    let memory = VariableTable::new();
    assert_eq!(
        evaluate(&OperationMode::Infix, "2-3".to_string(), &memory),
        Err(Failure::Lex(LexError::UnexpectedCharacter('-')))
    );
    assert_eq!(
        evaluate(&OperationMode::Infix, "(2+3".to_string(), &memory),
        Err(Failure::Parse(ParseError::Mismatch {
            expected: Token::RightParen,
            actual: Token::Eof
        }))
    );
    assert_eq!(
        evaluate(&OperationMode::Postfix, "(2 3 +)".to_string(), &memory),
        Err(Failure::Parse(ParseError::Parenthesis))
    );
    assert_eq!(
        evaluate(&OperationMode::Infix, "x".to_string(), &memory),
        Err(Failure::Eval(EvalError::VariableNotFound('x')))
    );
}

#[test]
fn prompt_names_the_notation() {
    assert_eq!(prompt(&OperationMode::Infix), "INFIX > ");
    assert_eq!(prompt(&OperationMode::Postfix), "POSTFIX > ");
}

#[test]
fn exit_and_defined_are_commands() {
    assert_eq!(interpret("exit"), Command::Exit);
    assert_eq!(interpret("defined"), Command::Defined);
}

#[test]
fn near_misses_of_commands_are_expressions() {
    assert_eq!(interpret("exit "), Command::Evaluate);
    assert_eq!(interpret("Exit"), Command::Evaluate);
    assert_eq!(interpret("exi"), Command::Evaluate);
    assert_eq!(interpret("define"), Command::Evaluate);
    assert_eq!(interpret(""), Command::Evaluate);
}

#[test]
fn line_without_equals_sign_is_an_expression() {
    assert_eq!(interpret("2+3"), Command::Evaluate);
    assert_eq!(interpret("x"), Command::Evaluate);
}

#[test]
fn assignment_takes_name_and_definition_without_blanks() {
    assert_eq!(interpret("x=2+3"), assign('x', "2+3"));
    assert_eq!(interpret("  x  =  2 + 3  "), assign('x', "2 + 3"));
    assert_eq!(interpret("x\t=\n1"), assign('x', "1"));
    assert_eq!(interpret("x="), assign('x', ""));
    assert_eq!(interpret("x=   "), assign('x', ""));
}

#[test]
fn any_one_byte_character_is_a_name() {
    assert_eq!(interpret("X = 1"), assign('X', "1"));
    assert_eq!(interpret("1 = 2"), assign('1', "2"));
    assert_eq!(interpret("+ = 2"), assign('+', "2"));
}

#[test]
fn left_side_that_is_no_name() {
    assert_eq!(interpret("xy = 1"), Command::IncorrectName);
    assert_eq!(interpret("= 1"), Command::IncorrectName);
    assert_eq!(interpret("   = 1"), Command::IncorrectName);
    assert_eq!(interpret("x y = 1"), Command::IncorrectName);
    assert_eq!(interpret("é = 1"), Command::IncorrectName);
}

#[test]
fn more_than_one_equals_sign() {
    assert_eq!(interpret("x = 1 = 2"), Command::IncorrectAssignment);
    assert_eq!(interpret("x=="), Command::IncorrectAssignment);
    assert_eq!(interpret("=="), Command::IncorrectAssignment);
    assert_eq!(interpret("xy = 1 ="), Command::IncorrectAssignment);
}

#[test]
fn spells_compares_whole_texts() {
    assert!(spells(&chars("exit"), "exit"));
    assert!(!spells(&chars("exit"), "exi"));
    assert!(!spells(&chars("exi"), "exit"));
    assert!(!spells(&chars("exit"), "exat"));
    assert!(spells(&chars(""), ""));
}

#[test]
fn find_gives_the_first_position_or_the_length() {
    let line = chars("a=b=c");
    assert_eq!(find(&line, '=', 0), 1);
    assert_eq!(find(&line, '=', 1), 1);
    assert_eq!(find(&line, '=', 2), 3);
    assert_eq!(find(&line, '=', 4), 5);
    assert_eq!(find(&line, '=', 5), 5);
    assert_eq!(find(&line, '=', 9), 5);
    assert_eq!(find(&line, 'z', 0), 5);
}

#[test]
fn mark_blanks_marks_white_space() {
    assert_eq!(
        mark_blanks(&chars(" a\t=\n1")),
        vec![true, false, true, false, true, false]
    );
    assert_eq!(mark_blanks(&chars("")), Vec::<bool>::new());
}

#[test]
fn mark_blanks_knows_white_space_beyond_ascii() {
    assert_eq!(
        mark_blanks(&chars("\u{00A0}x\u{2003}\u{3000}é")),
        vec![true, false, true, true, false]
    );
}

#[test]
fn trim_gives_the_bounds_without_the_marked_ends() {
    let blank = vec![true, true, false, false, true, false, true, true];
    assert_eq!(trim(&blank, 0, 8), (2, 6));
    assert_eq!(trim(&blank, 2, 6), (2, 6));
    assert_eq!(trim(&blank, 4, 8), (5, 6));
    assert_eq!(trim(&blank, 6, 8), (8, 8));
    assert_eq!(trim(&blank, 0, 2), (2, 2));
    assert_eq!(trim(&blank, 3, 3), (3, 3));
}

#[test]
fn trim_takes_positions_beyond_the_marks_as_unmarked() {
    let blank = vec![true, true];
    assert_eq!(trim(&blank, 0, 4), (2, 4));
    assert_eq!(trim(&blank, 3, 5), (3, 5));
}

#[test]
fn interpret_marked_goes_by_the_marks_it_is_given() {
    let line = chars("_x_=_1_");
    let blank = vec![true, false, true, false, true, false, true];
    assert_eq!(interpret_marked(&line, &blank), assign('x', "1"));
    let none = vec![false; 7];
    assert_eq!(interpret_marked(&line, &none), Command::IncorrectName);
    let short: Vec<bool> = vec![];
    assert_eq!(interpret_marked(&chars("x=1"), &short), assign('x', "1"));
    assert_eq!(interpret_marked(&chars("exit"), &short), Command::Exit);
    assert_eq!(interpret_marked(&chars("a=b=c"), &short), Command::IncorrectAssignment);
    assert_eq!(interpret_marked(&chars("2+3"), &short), Command::Evaluate);
}

#[test]
fn text_of_copies_a_part() {
    let line = chars("héllo");
    assert_eq!(text_of(&line, 1, 4), "éll");
    assert_eq!(text_of(&line, 0, 5), "héllo");
    assert_eq!(text_of(&line, 2, 2), "");
}
