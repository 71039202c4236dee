//! Evaluation of expressions against a table of variables.
//!
//! A variable stands for the text that defines it: each time it is met, the
//! text is tokenized, parsed in infix notation and evaluated against the same
//! table. Definitions that refer to each other in a circle would never come
//! to an end, so an evaluation counts the definitions it has entered, one
//! inside the other, and gives up with [`EvalError::DepthExceeded`] beyond a
//! bound. Sums and products that do not fit in 32 bits are reported as
//! [`EvalError::Overflow`].

use crate::lexer::{tokenize, LexError, Lexer};
use crate::parser::{infix_parse, Expression, Operator, Parse, ParseError, Parser};
use crate::variables::VariableTable;
use vstd::prelude::*;
use vstd::set_lib::lemma_len_subset;

verus! {

/// Why an expression has no value.
#[derive(Debug, PartialEq, Eq, Clone, Copy, Structural)]
pub enum EvalError {
    /// The variable has no definition in the table.
    VariableNotFound(char),
    /// The definition of a variable does not tokenize.
    Lex(LexError),
    /// The definition of a variable does not parse.
    Parse(ParseError),
    /// A sum or a product does not fit in 32 bits.
    Overflow,
    /// More definitions were entered, one inside the other, than the bound
    /// allows.
    DepthExceeded,
}

/// The sum or the product of two numbers.
pub open spec fn apply(op: Operator, a: u32, b: u32) -> Result<u32, EvalError> {
    let value = match op {
        Operator::Sum => a + b,
        Operator::Product => a * b,
    };
    if value <= u32::MAX {
        Ok(value as u32)
    } else {
        Err(EvalError::Overflow)
    }
}

/// The expression that the text of a definition denotes.
pub open spec fn definition(text: Seq<char>) -> Result<Expression, EvalError> {
    match tokenize(text) {
        Ok(tokens) => match infix_parse(tokens) {
            Ok(expression) => Ok(expression),
            Err(e) => Err(EvalError::Parse(e)),
        },
        Err(e) => Err(EvalError::Lex(e)),
    }
}

/// The value of `e` where `variables` gives the definitions and at most
/// `depth` definitions may be entered one inside the other.
///
/// The operands of an operator are evaluated from left to right, and the
/// first error ends the evaluation.
pub open spec fn eval(e: Expression, variables: Map<char, Seq<char>>, depth: nat) -> Result<
    u32,
    EvalError,
>
    decreases depth, e,
{
    match e {
        Expression::Number(n) => Ok(n),
        Expression::Variable(name) => if !variables.contains_key(name) {
            Err(EvalError::VariableNotFound(name))
        } else {
            match definition(variables[name]) {
                Ok(defined) => if depth == 0 {
                    Err(EvalError::DepthExceeded)
                } else {
                    eval(defined, variables, (depth - 1) as nat)
                },
                Err(e) => Err(e),
            }
        },
        Expression::Binary(op, left, right) => match eval(*left, variables, depth) {
            Ok(a) => match eval(*right, variables, depth) {
                Ok(b) => apply(op, a, b),
                Err(e) => Err(e),
            },
            Err(e) => Err(e),
        },
    }
}

impl Expression {
    /// Evaluates the expression against `memory`.
    ///
    /// As many definitions may be entered one inside the other as the table
    /// holds. That bound cuts nothing short but what would go on for ever:
    /// the result is that of every bound under which the evaluation ends
    /// otherwise than by the bound.
    pub fn evaluate(&self, memory: &VariableTable) -> (result: Result<u32, EvalError>)
        ensures
            result == eval(*self, memory@, memory@.dom().len()),
            forall|depth: nat|
                ends_within(*self, memory@, depth) ==> result == #[trigger] eval(
                    *self,
                    memory@,
                    depth,
                ),
    {
        let count = memory.len();
        proof {
            assert forall|depth: nat| ends_within(*self, memory@, depth) implies eval(
                *self,
                memory@,
                count as nat,
            ) == #[trigger] eval(*self, memory@, depth) by {
                lemma_table_size_suffices(*self, memory@, depth);
            }
        }
        self.evaluate_within(memory, count)
    }

    /// Evaluates the expression against `memory`, entering at most `depth`
    /// definitions one inside the other.
    pub fn evaluate_within(&self, memory: &VariableTable, depth: usize) -> (result: Result<
        u32,
        EvalError,
    >)
        ensures
            result == eval(*self, memory@, depth as nat),
        decreases depth, self,
    {
        match self {
            Expression::Number(number) => Ok(*number),
            Expression::Variable(var) => match memory.get(*var) {
                None => Err(EvalError::VariableNotFound(*var)),
                Some(string_expr) => {
                    let tokens = match Lexer::run(string_expr.clone()) {
                        Ok(tokens) => tokens,
                        Err(e) => {
                            return Err(EvalError::Lex(e));
                        },
                    };
                    let expression = match Parser::run(&tokens) {
                        Ok(expression) => expression,
                        Err(e) => {
                            return Err(EvalError::Parse(e));
                        },
                    };
                    if depth == 0 {
                        return Err(EvalError::DepthExceeded);
                    }
                    expression.evaluate_within(memory, depth - 1)
                },
            },
            Expression::Binary(op, left, right) => {
                let a = left.evaluate_within(memory, depth)?;
                let b = right.evaluate_within(memory, depth)?;
                let value = match op {
                    Operator::Sum => a.checked_add(b),
                    Operator::Product => a.checked_mul(b),
                };
                match value {
                    Some(value) => Ok(value),
                    None => Err(EvalError::Overflow),
                }
            },
        }
    }
}

/// Whether the evaluation of `e` under the bound `depth` ends otherwise than
/// by the bound.
pub open spec fn ends_within(e: Expression, variables: Map<char, Seq<char>>, depth: nat) -> bool {
    eval(e, variables, depth) != Err::<u32, EvalError>(EvalError::DepthExceeded)
}

/// The bound changes no outcome but its own: where an evaluation ends
/// otherwise than with [`EvalError::DepthExceeded`], it ends in the same way
/// under every larger bound.
pub proof fn lemma_eval_depth_monotonic(
    e: Expression,
    variables: Map<char, Seq<char>>,
    depth: nat,
    more: nat,
)
    requires
        depth <= more,
        ends_within(e, variables, depth),
    ensures
        eval(e, variables, more) == eval(e, variables, depth),
    decreases depth, e,
{
    match e {
        Expression::Number(_) => {},
        Expression::Variable(name) => {
            if variables.contains_key(name) {
                if let Ok(defined) = definition(variables[name]) {
                    lemma_eval_depth_monotonic(
                        defined,
                        variables,
                        (depth - 1) as nat,
                        (more - 1) as nat,
                    );
                }
            }
        },
        Expression::Binary(_, left, right) => {
            lemma_eval_depth_monotonic(*left, variables, depth, more);
            if eval(*left, variables, depth) is Ok {
                lemma_eval_depth_monotonic(*right, variables, depth, more);
            }
        },
    }
}

/// Whether `depth` is the least bound within which the evaluation of `e`
/// ends, and is not zero.
pub open spec fn needs(e: Expression, variables: Map<char, Seq<char>>, depth: nat) -> bool {
    &&& depth >= 1
    &&& ends_within(e, variables, depth)
    &&& !ends_within(e, variables, (depth - 1) as nat)
}

/// An expression that needs a bound has a variable in it that needs the same
/// bound.
proof fn lemma_needed_by_variable(e: Expression, variables: Map<char, Seq<char>>, depth: nat) -> (x:
    char)
    requires
        needs(e, variables, depth),
    ensures
        variables.contains_key(x),
        needs(Expression::Variable(x), variables, depth),
    decreases e,
{
    let less = (depth - 1) as nat;
    match e {
        Expression::Number(_) => 'a',
        Expression::Variable(name) => name,
        Expression::Binary(_, left, right) => {
            if !ends_within(*left, variables, less) {
                lemma_needed_by_variable(*left, variables, depth)
            } else {
                lemma_eval_depth_monotonic(*left, variables, less, depth);
                lemma_needed_by_variable(*right, variables, depth)
            }
        },
    }
}

/// A variable that needs a bound of two or more has a variable in its
/// definition that needs a bound which is less by one.
proof fn lemma_needed_by_definition(x: char, variables: Map<char, Seq<char>>, depth: nat) -> (y:
    char)
    requires
        depth >= 2,
        needs(Expression::Variable(x), variables, depth),
    ensures
        variables.contains_key(y),
        needs(Expression::Variable(y), variables, (depth - 1) as nat),
{
    let defined = definition(variables[x])->Ok_0;
    lemma_needed_by_variable(defined, variables, (depth - 1) as nat)
}

/// A variable that needs the bound `depth` stands at the end of a chain of
/// as many variables, each of them defined.
proof fn lemma_chain_of_variables(x: char, variables: Map<char, Seq<char>>, depth: nat) -> (chain:
    Set<char>)
    requires
        variables.contains_key(x),
        needs(Expression::Variable(x), variables, depth),
    ensures
        chain.finite(),
        chain.len() == depth,
        chain.subset_of(variables.dom()),
        forall|y: char| chain.contains(y) ==> ends_within(Expression::Variable(y), variables, depth),
    decreases depth,
{
    if depth == 1 {
        set![x]
    } else {
        let y = lemma_needed_by_definition(x, variables, depth);
        let shorter = lemma_chain_of_variables(y, variables, (depth - 1) as nat);
        assert forall|z: char| shorter.contains(z) implies ends_within(
            Expression::Variable(z),
            variables,
            depth,
        ) by {
            lemma_eval_depth_monotonic(
                Expression::Variable(z),
                variables,
                (depth - 1) as nat,
                depth,
            );
        }
        shorter.insert(x)
    }
}

proof fn lemma_least_bound(e: Expression, variables: Map<char, Seq<char>>, low: nat, high: nat) -> (depth:
    nat)
    requires
        low < high,
        !ends_within(e, variables, low),
        ends_within(e, variables, high),
    ensures
        low < depth <= high,
        needs(e, variables, depth),
    decreases high - low,
{
    if ends_within(e, variables, (high - 1) as nat) {
        lemma_least_bound(e, variables, low, (high - 1) as nat)
    } else {
        high
    }
}

/// The number of variables defined is bound enough: an evaluation that ends
/// under any bound otherwise than by the bound ends in the same way under the
/// bound that [`Expression::evaluate`] sets.
pub proof fn lemma_table_size_suffices(e: Expression, variables: Map<char, Seq<char>>, depth: nat)
    requires
        variables.dom().finite(),
        ends_within(e, variables, depth),
    ensures
        eval(e, variables, variables.dom().len()) == eval(e, variables, depth),
{
    let count = variables.dom().len();
    if depth <= count {
        lemma_eval_depth_monotonic(e, variables, depth, count);
    } else if ends_within(e, variables, count) {
        lemma_eval_depth_monotonic(e, variables, count, depth);
    } else {
        let least = lemma_least_bound(e, variables, count, depth);
        let x = lemma_needed_by_variable(e, variables, least);
        let chain = lemma_chain_of_variables(x, variables, least);
        lemma_len_subset(chain, variables.dom());
    }
}

} // verus!
