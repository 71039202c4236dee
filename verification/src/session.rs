//! What an interactive session does with a line of input: which command the
//! line is, and what value it has as an expression.

use crate::evaluator::{eval, EvalError};
use crate::lexer::{tokenize, LexError, Lexer, Token};
use crate::message::{eval_error_text, lex_error_text, parse_error_text};
use crate::parser::{infix_parse, Expression, Parse, ParseError, Parser};
use crate::postfix::{postfix_parse, PostfixParser};
use crate::text::to_chars;
use crate::variables::VariableTable;
use vstd::prelude::*;

verus! {

/// The notation in which a session reads expressions.
#[derive(Debug, PartialEq, Eq, Clone, Copy, Structural)]
pub enum OperationMode {
    Infix,
    Postfix,
}

/// Why a line has no value.
#[derive(Debug, PartialEq, Eq, Clone, Copy, Structural)]
pub enum Failure {
    /// The line does not tokenize.
    Lex(LexError),
    /// The tokens of the line do not parse.
    Parse(ParseError),
    /// The expression has no value.
    Eval(EvalError),
}

/// What the notation `mode` makes of a token sequence.
pub open spec fn parsed_in(mode: OperationMode, tokens: Seq<Token>) -> Result<
    Expression,
    ParseError,
> {
    match mode {
        OperationMode::Infix => infix_parse(tokens),
        OperationMode::Postfix => postfix_parse(tokens),
    }
}

/// The value of the line `line` read in the notation `mode`: it is
/// tokenized, parsed and evaluated, and the first stage that fails gives the
/// error.
pub open spec fn line_value(
    mode: OperationMode,
    line: Seq<char>,
    variables: Map<char, Seq<char>>,
    depth: nat,
) -> Result<u32, Failure> {
    match tokenize(line) {
        Ok(tokens) => match parsed_in(mode, tokens) {
            Ok(expression) => match eval(expression, variables, depth) {
                Ok(value) => Ok(value),
                Err(e) => Err(Failure::Eval(e)),
            },
            Err(e) => Err(Failure::Parse(e)),
        },
        Err(e) => Err(Failure::Lex(e)),
    }
}

/// The value of `line`, read in the notation `mode`, against `memory`.
pub fn evaluate(mode: &OperationMode, line: String, memory: &VariableTable) -> (result: Result<
    u32,
    Failure,
>)
    ensures
        result == line_value(*mode, line@, memory@, memory@.dom().len()),
{
    let tokens = match Lexer::run(line) {
        Ok(tokens) => tokens,
        Err(e) => {
            return Err(Failure::Lex(e));
        },
    };
    let parsed = match mode {
        OperationMode::Infix => Parser::run(&tokens),
        OperationMode::Postfix => PostfixParser::run(&tokens),
    };
    let expression = match parsed {
        Ok(expression) => expression,
        Err(e) => {
            return Err(Failure::Parse(e));
        },
    };
    match expression.evaluate(memory) {
        Ok(result) => Ok(result),
        Err(e) => Err(Failure::Eval(e)),
    }
}

/// The message for a failure: that of the stage that failed.
pub open spec fn failure_text(f: Failure) -> Seq<char> {
    match f {
        Failure::Lex(e) => lex_error_text(e),
        Failure::Parse(e) => parse_error_text(e),
        Failure::Eval(e) => eval_error_text(e),
    }
}

impl Failure {
    /// The message for the failure.
    pub fn message(&self) -> (text: String)
        ensures
            text@ == failure_text(*self),
    {
        match self {
            Failure::Lex(e) => e.message(),
            Failure::Parse(e) => e.message(),
            Failure::Eval(e) => e.message(),
        }
    }
}

/// The prompt of a session in the notation `mode`.
pub fn prompt(mode: &OperationMode) -> (text: &'static str)
    ensures
        text@ == match *mode {
            OperationMode::Infix => "INFIX > "@,
            OperationMode::Postfix => "POSTFIX > "@,
        },
{
    match mode {
        OperationMode::Infix => "INFIX > ",
        OperationMode::Postfix => "POSTFIX > ",
    }
}

/// What a session is asked to do by a line.
#[derive(Debug, PartialEq, Eq)]
pub enum Command {
    /// Leave the session.
    Exit,
    /// List the variables that are defined.
    Defined,
    /// Define the variable `name` as the text `definition`.
    Assign { name: char, definition: String },
    /// A line with more than one `=`.
    IncorrectAssignment,
    /// An assignment whose left side is not a name.
    IncorrectName,
    /// Evaluate the line as an expression.
    Evaluate,
}

/// A command, with texts as sequences of characters.
pub enum CommandView {
    Exit,
    Defined,
    Assign { name: char, definition: Seq<char> },
    IncorrectAssignment,
    IncorrectName,
    Evaluate,
}

impl View for Command {
    type V = CommandView;

    open spec fn view(&self) -> CommandView {
        match *self {
            Command::Exit => CommandView::Exit,
            Command::Defined => CommandView::Defined,
            Command::Assign { name, definition } => CommandView::Assign {
                name,
                definition: definition@,
            },
            Command::IncorrectAssignment => CommandView::IncorrectAssignment,
            Command::IncorrectName => CommandView::IncorrectName,
            Command::Evaluate => CommandView::Evaluate,
        }
    }
}

/// Whether `char::is_whitespace` holds of a character: whether it has the
/// Unicode property White_Space.
pub uninterp spec fn whitespace(c: char) -> bool;

/// `char::is_whitespace` tells whether the character is white space.
pub assume_specification[ char::is_whitespace ](c: char) -> (b: bool)
    ensures
        b == whitespace(c),
;

/// For each character of a text, whether it is white space.
pub open spec fn blanks(s: Seq<char>) -> Seq<bool> {
    Seq::new(s.len(), |i: int| whitespace(s[i]))
}

/// Whether position `i` is marked in `blank`; no position beyond its end is.
pub open spec fn is_marked(blank: Seq<bool>, i: int) -> bool {
    0 <= i < blank.len() && blank[i]
}

/// The first position from `from` on at which `c` stands in `s`; the length
/// of `s` where there is none.
pub open spec fn first_index(s: Seq<char>, c: char, from: int) -> int
    decreases s.len() - from,
{
    if from < 0 || from >= s.len() {
        s.len() as int
    } else if s[from] == c {
        from
    } else {
        first_index(s, c, from + 1)
    }
}

/// The first position in `from..to` that is not marked; `to` where there is
/// none.
pub open spec fn skip_blank(blank: Seq<bool>, from: int, to: int) -> int
    decreases to - from,
{
    if from < to && is_marked(blank, from) {
        skip_blank(blank, from + 1, to)
    } else {
        from
    }
}

/// The position behind the last one in `from..to` that is not marked; `from`
/// where there is none.
pub open spec fn drop_blank(blank: Seq<bool>, from: int, to: int) -> int
    decreases to - from,
{
    if from < to && is_marked(blank, to - 1) {
        drop_blank(blank, from, to - 1)
    } else {
        to
    }
}

/// The part `from..to` of `s` without the marked positions at its two ends.
pub open spec fn trimmed(s: Seq<char>, blank: Seq<bool>, from: int, to: int) -> Seq<char> {
    let start = skip_blank(blank, from, to);
    s.subrange(start, drop_blank(blank, start, to))
}

/// Whether a text is the name of a variable: one character, written in one
/// byte.
pub open spec fn is_name(s: Seq<char>) -> bool {
    s.len() == 1 && (s[0] as u32) < 0x80
}

/// The command that the line `s` is, where `blank` marks its white space.
///
/// `exit` and `defined` are commands by themselves. Any other line with an
/// `=` in it is an assignment, which is correct where it has one `=`, with a
/// name on its left; the name and the definition are taken without the white
/// space around them. Every other line is an expression to evaluate.
pub open spec fn interpretation(s: Seq<char>, blank: Seq<bool>) -> CommandView {
    let assign = first_index(s, '=', 0);
    if s == "exit"@ {
        CommandView::Exit
    } else if s == "defined"@ {
        CommandView::Defined
    } else if assign == s.len() {
        CommandView::Evaluate
    } else if first_index(s, '=', assign + 1) < s.len() {
        CommandView::IncorrectAssignment
    } else if !is_name(trimmed(s, blank, 0, assign)) {
        CommandView::IncorrectName
    } else {
        CommandView::Assign {
            name: trimmed(s, blank, 0, assign)[0],
            definition: trimmed(s, blank, assign + 1, s.len() as int),
        }
    }
}

/// Whether `chars` spells `word`.
pub fn spells(chars: &Vec<char>, word: &str) -> (same: bool)
    ensures
        same == (chars@ == word@),
{
    let letters = to_chars(word);
    if chars.len() != letters.len() {
        return false;
    }
    let mut i: usize = 0;
    while i < chars.len()
        invariant
            i <= chars.len(),
            chars.len() == letters.len(),
            letters@ == word@,
            forall|k: int| 0 <= k < i ==> chars@[k] == letters@[k],
        decreases chars.len() - i,
    {
        if chars[i] != letters[i] {
            return false;
        }
        i += 1;
    }
    assert(chars@ =~= letters@);
    true
}

/// The first position from `from` on at which `c` stands; the length of
/// `chars` where there is none.
pub fn find(chars: &Vec<char>, c: char, from: usize) -> (at: usize)
    ensures
        at == first_index(chars@, c, from as int),
        at <= chars.len(),
        from <= chars.len() ==> from <= at,
{
    let mut i: usize = from;
    while i < chars.len() && chars[i] != c
        invariant
            from <= i,
            first_index(chars@, c, from as int) == first_index(chars@, c, i as int),
        decreases chars.len() - i,
    {
        i += 1;
    }
    if i >= chars.len() {
        chars.len()
    } else {
        i
    }
}

/// Marks the white space of `chars`.
pub fn mark_blanks(chars: &Vec<char>) -> (blank: Vec<bool>)
    ensures
        blank@ == blanks(chars@),
{
    let mut blank: Vec<bool> = Vec::new();
    let mut i: usize = 0;
    while i < chars.len()
        invariant
            i <= chars.len(),
            blank@.len() == i,
            forall|k: int| 0 <= k < i ==> blank@[k] == whitespace(chars@[k]),
        decreases chars.len() - i,
    {
        blank.push(chars[i].is_whitespace());
        i += 1;
    }
    assert(blank@ =~= blanks(chars@));
    blank
}

fn marked(blank: &Vec<bool>, i: usize) -> (is: bool)
    ensures
        is == is_marked(blank@, i as int),
{
    i < blank.len() && blank[i]
}

/// The bounds of the part `from..to` without the marked positions at its two
/// ends.
pub fn trim(blank: &Vec<bool>, from: usize, to: usize) -> (bounds: (usize, usize))
    requires
        from <= to,
    ensures
        from <= bounds.0 <= bounds.1 <= to,
        bounds.0 == skip_blank(blank@, from as int, to as int),
        bounds.1 == drop_blank(blank@, bounds.0 as int, to as int),
{
    let mut start: usize = from;
    while start < to && marked(blank, start)
        invariant
            from <= start <= to,
            skip_blank(blank@, from as int, to as int) == skip_blank(
                blank@,
                start as int,
                to as int,
            ),
        decreases to - start,
    {
        start += 1;
    }
    let mut end: usize = to;
    while start < end && marked(blank, end - 1)
        invariant
            start <= end <= to,
            drop_blank(blank@, start as int, to as int) == drop_blank(
                blank@,
                start as int,
                end as int,
            ),
        decreases end - start,
    {
        end -= 1;
    }
    (start, end)
}

/// The part `from..to` of `chars` as a text.
pub fn text_of(chars: &Vec<char>, from: usize, to: usize) -> (text: String)
    requires
        from <= to <= chars.len(),
    ensures
        text@ == chars@.subrange(from as int, to as int),
{
    let mut text = String::new();
    let mut i: usize = from;
    while i < to
        invariant
            from <= i <= to <= chars.len(),
            text@ == chars@.subrange(from as int, i as int),
        decreases to - i,
    {
        text.push(chars[i]);
        assert(chars@.subrange(from as int, i + 1) =~= chars@.subrange(from as int, i as int).push(
            chars@[i as int],
        ));
        i += 1;
    }
    text
}

/// Tells which command the line `chars` is, where `blank` marks its white
/// space.
pub fn interpret_marked(chars: &Vec<char>, blank: &Vec<bool>) -> (command: Command)
    ensures
        command@ == interpretation(chars@, blank@),
{
    if spells(chars, "exit") {
        return Command::Exit;
    }
    if spells(chars, "defined") {
        return Command::Defined;
    }
    let assign = find(chars, '=', 0);
    if assign == chars.len() {
        return Command::Evaluate;
    }
    if find(chars, '=', assign + 1) < chars.len() {
        return Command::IncorrectAssignment;
    }
    let (name_start, name_end) = trim(blank, 0, assign);
    if name_end - name_start != 1 || chars[name_start] as u32 >= 0x80 {
        return Command::IncorrectName;
    }
    let (start, end) = trim(blank, assign + 1, chars.len());
    Command::Assign { name: chars[name_start], definition: text_of(chars, start, end) }
}

/// Tells which command `line` is.
pub fn interpret(line: &str) -> (command: Command)
    ensures
        command@ == interpretation(line@, blanks(line@)),
{
    let chars = to_chars(line);
    let blank = mark_blanks(&chars);
    interpret_marked(&chars, &blank)
}

} // verus!
