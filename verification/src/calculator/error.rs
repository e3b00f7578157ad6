//! What the executor reports when a token cannot be carried out.

use vstd::prelude::*;

verus! {

/// A failure of one token. None of them ends the session: the executor
/// records it and goes on with the next token.
#[derive(Debug, Clone, Copy, PartialEq, Eq, Structural)]
pub enum ExecError {
    /// The stack holds fewer values than the token needs.
    StackUnderflow,
    /// An operand of an arithmetic operator is a coroutine.
    TypeMismatch,
    /// The variable has no binding in the current scope.
    UnboundVariable,
    /// A brace has no partner.
    UnmatchedBrace,
    /// The divisor is zero; the quotient is defined as the dividend.
    DivisionByZero,
    /// `exec` found a number on top of the stack.
    ExecOnNonBlock,
    /// `exec` would nest coroutines deeper than the calculator allows.
    RecursionLimit,
}

} // verus!
