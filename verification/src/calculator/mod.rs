//! The stack machine: values, the stack, the variables and the executor.

pub mod arithmetic;
pub mod display;
pub mod environment;
pub mod error;
pub mod laws;
pub mod operations;
pub mod semantics;
pub mod stack;
pub mod value;

use crate::calculator::arithmetic::{Arithmetic, Operator};
use crate::calculator::environment::Environment;
use crate::calculator::error::ExecError;
use crate::calculator::operations::{lemma_closing_from_bounds, token_braces, Operations};
use crate::calculator::semantics::{command, operate, run, step, Machine};
use crate::calculator::stack::Stack;
use crate::calculator::value::{Value, ValueView};
use crate::tokenizer::{tokens_of, Token, TokenView, Tokenizer};
use vstd::prelude::*;

verus! {

/// The number of scopes that may be open at a time: `exec` nests
/// coroutines no deeper.
pub const MAX_DEPTH: usize = 64;

/// One session of the calculator: the stack, the variables of the current
/// scope, the saved variables of the scopes around it, and the reports that
/// have not been taken yet.
pub struct Calculator<N> {
    stack: Stack<N>,
    variables: Environment<Value<N>>,
    context_stack: Vec<Environment<Value<N>>>,
    reports: Vec<ExecError>,
    debug_mode: bool,
}

/// The tokens `tokens[from..to]`, copied.
fn copy_tokens(tokens: &Vec<Token>, from: usize, to: usize) -> (copy: Vec<Token>)
    requires
        from <= to <= tokens.len(),
    ensures
        copy.deep_view() == tokens.deep_view().subrange(from as int, to as int),
{
    let mut copy: Vec<Token> = Vec::new();
    let mut i: usize = from;
    while i < to
        invariant
            from <= i <= to <= tokens.len(),
            copy.deep_view() =~= tokens.deep_view().subrange(from as int, i as int),
        decreases to - i,
    {
        let ghost before = copy.deep_view();
        let token = tokens[i].clone();
        copy.push(token);
        assert(copy.deep_view() =~= before.push(tokens@[i as int]@));
        i += 1;
    }
    copy
}

impl<N: Copy> Calculator<N> {
    /// The observable state.
    pub closed spec fn machine(&self) -> Machine<N> {
        Machine { stack: self.stack@, variables: self.variables@, reports: self.reports@ }
    }

    /// The saved variables of the scopes around the current one, the
    /// outermost first. There is one for each coroutine that is being
    /// executed.
    pub closed spec fn contexts(&self) -> Seq<Map<Seq<char>, ValueView<N>>> {
        self.context_stack.deep_view()
    }

    /// Whether the session was made for debugging.
    pub closed spec fn debug(&self) -> bool {
        self.debug_mode
    }

    /// The number of scopes that may still be entered.
    pub open spec fn depth_left(&self) -> nat {
        if self.contexts().len() <= MAX_DEPTH {
            (MAX_DEPTH - self.contexts().len()) as nat
        } else {
            0
        }
    }

    /// A session with an empty stack, no variables and no reports.
    pub fn new(debug_mode: bool) -> (calculator: Self)
        ensures
            calculator.machine() == (Machine::<N> {
                stack: Seq::empty(),
                variables: Map::empty(),
                reports: Seq::empty(),
            }),
            calculator.contexts() == Seq::<Map<Seq<char>, ValueView<N>>>::empty(),
            calculator.debug() == debug_mode,
    {
        let calculator = Calculator {
            stack: Stack::new(),
            variables: Environment::new(),
            context_stack: Vec::new(),
            reports: Vec::new(),
            debug_mode,
        };
        assert(calculator.contexts() =~= Seq::empty());
        calculator
    }

    /// The stack, to be read.
    pub fn stack(&self) -> (stack: &Stack<N>)
        ensures
            stack@ == self.machine().stack,
    {
        &self.stack
    }

    /// The variables of the current scope, to be read.
    pub fn variables(&self) -> (variables: &Environment<Value<N>>)
        ensures
            variables@ == self.machine().variables,
    {
        &self.variables
    }

    /// The saved variables of the scopes around the current one, the
    /// outermost first, to be read.
    pub fn context_stack(&self) -> (contexts: &Vec<Environment<Value<N>>>)
        ensures
            contexts.deep_view() == self.contexts(),
    {
        &self.context_stack
    }

    /// Whether the session was made for debugging. It changes nothing in
    /// what execution does.
    pub fn debug_mode(&self) -> (debug: bool)
        ensures
            debug == self.debug(),
    {
        self.debug_mode
    }

    /// Hands out the reports that were recorded since they were last taken,
    /// oldest first, and forgets them.
    pub fn take_reports(&mut self) -> (reports: Vec<ExecError>)
        ensures
            reports@ == old(self).machine().reports,
            final(self).machine() == (Machine { reports: Seq::empty(), ..old(self).machine() }),
            final(self).contexts() == old(self).contexts(),
            final(self).debug() == old(self).debug(),
    {
        let mut reports: Vec<ExecError> = Vec::new();
        core::mem::swap(&mut self.reports, &mut reports);
        reports
    }

    /// Records a failure.
    fn report(&mut self, error: ExecError)
        ensures
            final(self).machine() == old(self).machine().report(error),
            final(self).contexts() == old(self).contexts(),
            final(self).debug() == old(self).debug(),
    {
        self.reports.push(error);
    }

    /// Enters a scope: saves the variables and starts without any.
    fn push_context(&mut self)
        requires
            old(self).contexts().len() < MAX_DEPTH,
        ensures
            final(self).machine() == (Machine {
                variables: Map::empty(),
                ..old(self).machine()
            }),
            final(self).contexts() == old(self).contexts().push(old(self).machine().variables),
            final(self).debug() == old(self).debug(),
    {
        let mut saved = Environment::new();
        core::mem::swap(&mut self.variables, &mut saved);
        self.context_stack.push(saved);
        assert(self.contexts() =~= old(self).contexts().push(old(self).machine().variables));
    }

    /// Leaves a scope: the variables that were saved last are back.
    fn pop_context(&mut self)
        requires
            old(self).contexts().len() > 0,
        ensures
            final(self).machine() == (Machine {
                variables: old(self).contexts().last(),
                ..old(self).machine()
            }),
            final(self).contexts() == old(self).contexts().drop_last(),
            final(self).debug() == old(self).debug(),
    {
        match self.context_stack.pop() {
            Some(saved) => {
                self.variables = saved;
            },
            None => {},
        }
        assert(self.contexts() =~= old(self).contexts().drop_last());
    }

    /// Carries out an arithmetic operator, see [`operate`].
    fn operate<L: Fn(&str) -> N, B: Fn(Operator, N, N) -> N, Z: Fn(N) -> bool>(
        &mut self,
        op: Operator,
        arithmetic: &Arithmetic<L, B, Z>,
    )
        requires
            arithmetic.well_formed(),
        ensures
            final(self).machine() == operate(arithmetic.model(), op, old(self).machine()),
            final(self).contexts() == old(self).contexts(),
            final(self).debug() == old(self).debug(),
    {
        let zero_divisor = match op {
            Operator::Divide => match self.stack.peek_operands() {
                Ok((_, divisor)) => arithmetic.zero(divisor),
                Err(_) => false,
            },
            _ => false,
        };
        let done = if zero_divisor {
            let dividend = |a: N, b: N| -> (r: N)
                ensures
                    r == a,
                { a };
            Operations::binary_op(&mut self.stack, dividend)
        } else {
            let result = |a: N, b: N| -> (r: N)
                ensures
                    r == (arithmetic.model().binary)(op, a, b),
                { arithmetic.apply(op, a, b) };
            Operations::binary_op(&mut self.stack, result)
        };
        match done {
            Ok(()) => {
                if zero_divisor {
                    self.report(ExecError::DivisionByZero);
                }
            },
            Err(error) => {
                self.report(error);
            },
        }
    }

    /// Carries out a token that is neither `exec` nor the start of a
    /// block, see [`step`].
    fn step<L: Fn(&str) -> N, B: Fn(Operator, N, N) -> N, Z: Fn(N) -> bool>(
        &mut self,
        token: &Token,
        arithmetic: &Arithmetic<L, B, Z>,
    )
        requires
            arithmetic.well_formed(),
            !(token@ is Exec),
        ensures
            final(self).machine() == step(arithmetic.model(), token@, old(self).machine()),
            final(self).contexts() == old(self).contexts(),
            final(self).debug() == old(self).debug(),
    {
        match token {
            Token::Number(text) => {
                let n = arithmetic.number(text.as_str());
                self.stack.push(n);
            },
            Token::Plus => {
                self.operate(Operator::Plus, arithmetic);
            },
            Token::Minus => {
                self.operate(Operator::Minus, arithmetic);
            },
            Token::Multiply => {
                self.operate(Operator::Multiply, arithmetic);
            },
            Token::Divide => {
                self.operate(Operator::Divide, arithmetic);
            },
            Token::Assign(name) => {
                match self.stack.pop() {
                    Some(value) => {
                        self.variables.set(name.clone(), value);
                    },
                    None => {
                        self.report(ExecError::StackUnderflow);
                    },
                }
            },
            Token::Variable(name) => {
                match self.variables.get(name) {
                    Some(value) => {
                        let copy = value.clone();
                        self.stack.push_value(copy);
                    },
                    None => {
                        self.report(ExecError::UnboundVariable);
                    },
                }
            },
            Token::OpenBrace => {
                self.report(ExecError::UnmatchedBrace);
            },
            Token::CloseBrace => {
                self.report(ExecError::UnmatchedBrace);
            },
            Token::Exec => {},
        }
    }

    /// Carries out one token taken alone, see [`command`].
    pub fn execute_command<L: Fn(&str) -> N, B: Fn(Operator, N, N) -> N, Z: Fn(N) -> bool>(
        &mut self,
        token: Token,
        arithmetic: &Arithmetic<L, B, Z>,
    )
        requires
            arithmetic.well_formed(),
        ensures
            final(self).machine() == command(
                arithmetic.model(),
                token@,
                old(self).machine(),
                old(self).depth_left(),
            ),
            final(self).contexts() == old(self).contexts(),
            final(self).debug() == old(self).debug(),
        decreases old(self).depth_left(), 1nat,
    {
        match token {
            Token::Exec => {
                self.execute_coroutine(arithmetic);
            },
            _ => {
                self.step(&token, arithmetic);
            },
        }
    }

    /// Carries out `exec`: takes a coroutine off the stack and executes
    /// its tokens in a scope of their own, see [`command`].
    fn execute_coroutine<L: Fn(&str) -> N, B: Fn(Operator, N, N) -> N, Z: Fn(N) -> bool>(
        &mut self,
        arithmetic: &Arithmetic<L, B, Z>,
    )
        requires
            arithmetic.well_formed(),
        ensures
            final(self).machine() == command(
                arithmetic.model(),
                TokenView::Exec,
                old(self).machine(),
                old(self).depth_left(),
            ),
            final(self).contexts() == old(self).contexts(),
            final(self).debug() == old(self).debug(),
        decreases old(self).depth_left(), 0nat,
    {
        match self.stack.pop() {
            None => {
                self.report(ExecError::StackUnderflow);
            },
            Some(Value::Number(n)) => {
                self.stack.push(n);
                assert(self.machine().stack =~= old(self).machine().stack);
                self.report(ExecError::ExecOnNonBlock);
            },
            Some(Value::Coroutine(body)) => {
                if self.context_stack.len() >= MAX_DEPTH {
                    self.stack.push_coroutine(body);
                    assert(self.machine().stack =~= old(self).machine().stack);
                    self.report(ExecError::RecursionLimit);
                } else {
                    self.push_context();
                    self.execute_tokens(&body, arithmetic);
                    self.pop_context();
                    assert(self.contexts() =~= old(self).contexts());
                }
            },
        }
    }

    /// Executes a token sequence, left to right, see [`run`].
    pub fn execute_tokens<L: Fn(&str) -> N, B: Fn(Operator, N, N) -> N, Z: Fn(N) -> bool>(
        &mut self,
        tokens: &Vec<Token>,
        arithmetic: &Arithmetic<L, B, Z>,
    )
        requires
            arithmetic.well_formed(),
        ensures
            final(self).machine() == run(
                arithmetic.model(),
                tokens.deep_view(),
                old(self).machine(),
                old(self).depth_left(),
            ),
            final(self).contexts() == old(self).contexts(),
            final(self).debug() == old(self).debug(),
        decreases old(self).depth_left(), tokens.len() + 2,
    {
        let ghost model = arithmetic.model();
        let ghost all = tokens.deep_view();
        let ghost depth = self.depth_left();
        let ghost goal = run(model, all, self.machine(), depth);
        let mut i: usize = 0;
        assert(all.skip(0) =~= all);
        while i < tokens.len()
            invariant
                i <= tokens.len(),
                arithmetic.well_formed(),
                model == arithmetic.model(),
                all == tokens.deep_view(),
                depth == old(self).depth_left(),
                self.contexts() == old(self).contexts(),
                self.debug() == old(self).debug(),
                run(model, all.skip(i as int), self.machine(), depth) == goal,
            decreases tokens.len() - i,
        {
            let ghost rest = all.skip(i as int);
            assert(rest[0] == tokens@[i as int]@);
            match tokens[i] {
                Token::OpenBrace => {
                    match Operations::find_block_end(tokens, i) {
                        Some(end) => {
                            proof {
                                lemma_closing_from_bounds(token_braces(rest), 0, 0);
                            }
                            let body = copy_tokens(tokens, i + 1, end - 1);
                            assert(body.deep_view() =~= rest.subrange(1, end - i - 1));
                            assert(rest.skip(end - i) =~= all.skip(end as int));
                            self.stack.push_coroutine(body);
                            i = end;
                        },
                        None => {
                            self.report(ExecError::UnmatchedBrace);
                            i = tokens.len();
                            assert(all.skip(i as int).len() == 0);
                        },
                    }
                },
                _ => {
                    let token = tokens[i].clone();
                    self.execute_command(token, arithmetic);
                    assert(rest.skip(1) =~= all.skip(i + 1));
                    i += 1;
                },
            }
        }
    }

    /// Tokenizes a line of input and executes it on the session, see
    /// [`tokens_of`] and [`run`].
    pub fn execute<L: Fn(&str) -> N, B: Fn(Operator, N, N) -> N, Z: Fn(N) -> bool>(
        &mut self,
        input: &str,
        arithmetic: &Arithmetic<L, B, Z>,
    )
        requires
            arithmetic.well_formed(),
        ensures
            final(self).machine() == run(
                arithmetic.model(),
                tokens_of(input@),
                old(self).machine(),
                old(self).depth_left(),
            ),
            final(self).contexts() == old(self).contexts(),
            final(self).debug() == old(self).debug(),
    {
        let mut tokenizer = Tokenizer::new(input);
        let tokens = tokenizer.tokenize();
        self.execute_tokens(&tokens, arithmetic);
    }
}

} // verus!
