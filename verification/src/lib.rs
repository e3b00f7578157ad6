//! A stack calculator for a small reverse-Polish language: number
//! literals, the four arithmetic operators, variables, and coroutines, which
//! are blocks of code in braces that are pushed unexecuted and run by `exec`
//! in a scope of their own.
//!
//! The library is independent of the numeric type. A number token keeps its
//! literal; a number on the stack is a value of any `Copy` type `N`; and
//! the embedding program supplies the arithmetic on `N` as a
//! [`calculator::arithmetic::Arithmetic`]. What execution does is defined
//! once, as mathematical functions on the machine state
//! ([`calculator::semantics`]), and the executor is proved to compute them.
//!
//! Failures are never fatal. The executor records them in the session, in
//! order, and goes on with the next token; the program takes the reports out
//! and shows them. Where a choice was open, the library takes these:
//! a division by zero is reported and yields the dividend; `exec` on a
//! number is reported and leaves the number on the stack; an opening brace
//! without a partner is reported and ends the line; a closing brace without
//! a partner is reported and skipped; and `exec` nests coroutines no deeper
//! than [`calculator::MAX_DEPTH`].

pub mod calc;
pub mod calculator;
pub mod chars;
pub mod parser;
pub mod repl;
pub mod round_trip;
pub mod tokenizer;
