//! The values that the stack and the variables hold.

use crate::tokenizer::{Token, TokenView};
use vstd::prelude::*;

verus! {

/// A value: a number, or a coroutine, which is a captured and not yet
/// executed sequence of tokens.
#[derive(Debug, PartialEq)]
pub enum Value<N> {
    Number(N),
    Coroutine(Vec<Token>),
}

/// The mathematical model of a [`Value`].
pub enum ValueView<N> {
    Number(N),
    Coroutine(Seq<TokenView>),
}

impl<N> View for Value<N> {
    type V = ValueView<N>;

    open spec fn view(&self) -> ValueView<N> {
        match self {
            Value::Number(n) => ValueView::Number(*n),
            Value::Coroutine(tokens) => ValueView::Coroutine(tokens.deep_view()),
        }
    }
}

impl<N> DeepView for Value<N> {
    type V = ValueView<N>;

    open spec fn deep_view(&self) -> ValueView<N> {
        self@
    }
}

impl<N: Copy> Clone for Value<N> {
    /// A copy of the value; a coroutine is copied token by token.
    fn clone(&self) -> (copy: Self)
        ensures
            copy@ == self@,
    {
        match self {
            Value::Number(n) => Value::Number(*n),
            Value::Coroutine(tokens) => {
                let copy = tokens.clone();
                assert(copy.deep_view() =~= tokens.deep_view());
                Value::Coroutine(copy)
            },
        }
    }
}

impl<N: Copy> Value<N> {
    /// The number, if the value is one.
    pub fn as_number(&self) -> (number: Option<N>)
        ensures
            number == match self@ {
                ValueView::Number(n) => Some(n),
                ValueView::Coroutine(_) => None,
            },
    {
        match self {
            Value::Number(n) => Some(*n),
            _ => None,
        }
    }

    /// The tokens of the coroutine, if the value is one.
    pub fn as_coroutine(&self) -> (tokens: Option<&Vec<Token>>)
        ensures
            tokens.deep_view() == match self@ {
                ValueView::Number(_) => None,
                ValueView::Coroutine(body) => Some(body),
            },
    {
        match self {
            Value::Coroutine(c) => Some(c),
            _ => None,
        }
    }
}

} // verus!
