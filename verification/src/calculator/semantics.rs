//! What execution means: the state of the machine and the effect of a
//! token and of a token sequence on it, as mathematical functions.

use crate::calculator::arithmetic::{ArithmeticModel, Operator};
use crate::calculator::error::ExecError;
use crate::calculator::operations::{closing_brace, lemma_closing_from_bounds, token_braces};
use crate::calculator::stack::operands;
use crate::calculator::value::ValueView;
use crate::tokenizer::TokenView;
use vstd::prelude::*;

verus! {

/// The observable state of the machine: the stack from the bottom to the
/// top, the variables of the current scope, and what has been reported so
/// far, oldest first.
pub struct Machine<N> {
    pub stack: Seq<ValueView<N>>,
    pub variables: Map<Seq<char>, ValueView<N>>,
    pub reports: Seq<ExecError>,
}

impl<N> Machine<N> {
    /// The machine with `value` pushed.
    pub open spec fn push(self, value: ValueView<N>) -> Machine<N> {
        Machine { stack: self.stack.push(value), ..self }
    }

    /// The machine with `error` reported; stack and variables stay.
    pub open spec fn report(self, error: ExecError) -> Machine<N> {
        Machine { reports: self.reports.push(error), ..self }
    }
}

/// The operator that a token is, if it is one.
pub open spec fn operator_of(token: TokenView) -> Option<Operator> {
    match token {
        TokenView::Plus => Some(Operator::Plus),
        TokenView::Minus => Some(Operator::Minus),
        TokenView::Multiply => Some(Operator::Multiply),
        TokenView::Divide => Some(Operator::Divide),
        _ => None,
    }
}

/// The effect of an arithmetic operator. With two numbers on top, the
/// second from the top the left operand, both are replaced by the result;
/// a division by zero is reported and yields the dividend. Otherwise the
/// failure is reported and the stack stays as it was.
pub open spec fn operate<N>(model: ArithmeticModel<N>, op: Operator, m: Machine<N>) -> Machine<N> {
    match operands(m.stack) {
        Ok((a, b)) => {
            let rest = m.stack.take(m.stack.len() - 2);
            if op == Operator::Divide && (model.is_zero)(b) {
                Machine { stack: rest.push(ValueView::Number(a)), ..m }.report(
                    ExecError::DivisionByZero,
                )
            } else {
                Machine { stack: rest.push(ValueView::Number((model.binary)(op, a, b))), ..m }
            }
        },
        Err(error) => m.report(error),
    }
}

/// The effect of a token that is neither `exec` nor the start of a block.
pub open spec fn step<N>(model: ArithmeticModel<N>, token: TokenView, m: Machine<N>) -> Machine<N> {
    match token {
        TokenView::Number(text) => m.push(ValueView::Number((model.literal)(text))),
        TokenView::Plus => operate(model, Operator::Plus, m),
        TokenView::Minus => operate(model, Operator::Minus, m),
        TokenView::Multiply => operate(model, Operator::Multiply, m),
        TokenView::Divide => operate(model, Operator::Divide, m),
        TokenView::Assign(name) => if m.stack.len() == 0 {
            m.report(ExecError::StackUnderflow)
        } else {
            Machine {
                stack: m.stack.drop_last(),
                variables: m.variables.insert(name, m.stack.last()),
                ..m
            }
        },
        TokenView::Variable(name) => if m.variables.contains_key(name) {
            m.push(m.variables[name])
        } else {
            m.report(ExecError::UnboundVariable)
        },
        TokenView::OpenBrace => m.report(ExecError::UnmatchedBrace),
        TokenView::CloseBrace => m.report(ExecError::UnmatchedBrace),
        TokenView::Exec => m,
    }
}

/// The effect of one token taken alone, where `depth` more scopes may be
/// entered. `exec` takes a coroutine off the stack and runs its tokens on
/// the same stack in a fresh scope without variables; the variables of the
/// caller are back when it returns. Where the stack is empty, its top is a
/// number, or no scope may be entered, `exec` reports that and leaves the
/// stack as it was. A brace taken alone has no partner.
pub open spec fn command<N>(
    model: ArithmeticModel<N>,
    token: TokenView,
    m: Machine<N>,
    depth: nat,
) -> Machine<N>
    decreases depth, 0nat,
{
    if token is Exec {
        if m.stack.len() == 0 {
            m.report(ExecError::StackUnderflow)
        } else {
            match m.stack.last() {
                ValueView::Number(_) => m.report(ExecError::ExecOnNonBlock),
                ValueView::Coroutine(body) => if depth == 0 {
                    m.report(ExecError::RecursionLimit)
                } else {
                    let inner = run(
                        model,
                        body,
                        Machine { stack: m.stack.drop_last(), variables: Map::empty(), ..m },
                        (depth - 1) as nat,
                    );
                    Machine { variables: m.variables, ..inner }
                },
            }
        }
    } else {
        step(model, token, m)
    }
}

/// The effect of a token sequence, left to right, where `depth` more
/// scopes may be entered. An opening brace with its partner pushes the
/// tokens between the two as a coroutine, unexecuted, and execution goes on
/// behind the partner; without a partner it is reported and the rest of the
/// sequence is not executed. Every other token has the effect that
/// [`command`] gives it.
pub open spec fn run<N>(
    model: ArithmeticModel<N>,
    tokens: Seq<TokenView>,
    m: Machine<N>,
    depth: nat,
) -> Machine<N>
    decreases depth, tokens.len() + 1,
{
    if tokens.len() == 0 {
        m
    } else if tokens[0] is OpenBrace {
        match closing_brace(token_braces(tokens)) {
            Some(end) => {
                proof {
                    lemma_closing_from_bounds(token_braces(tokens), 0, 0);
                }
                run(
                    model,
                    tokens.skip(end),
                    m.push(ValueView::Coroutine(tokens.subrange(1, end - 1))),
                    depth,
                )
            },
            None => m.report(ExecError::UnmatchedBrace),
        }
    } else {
        run(model, tokens.skip(1), command(model, tokens[0], m, depth), depth)
    }
}

} // verus!
