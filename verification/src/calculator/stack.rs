//! The value stack. It grows and shrinks at one end, the top.

use crate::calculator::error::ExecError;
use crate::calculator::value::{Value, ValueView};
use crate::tokenizer::Token;
use vstd::prelude::*;

verus! {

/// An ordered sequence of values; the last one is the top.
pub struct Stack<N> {
    values: Vec<Value<N>>,
}

impl<N> View for Stack<N> {
    type V = Seq<ValueView<N>>;

    /// The values from the bottom to the top.
    closed spec fn view(&self) -> Seq<ValueView<N>> {
        self.values.deep_view()
    }
}

/// The two operands of a binary operator on the stack `s`, the left one
/// first, or the reason why it has none.
pub open spec fn operands<N>(s: Seq<ValueView<N>>) -> Result<(N, N), ExecError> {
    if s.len() < 2 {
        Err(ExecError::StackUnderflow)
    } else {
        match (s[s.len() - 2], s[s.len() - 1]) {
            (ValueView::Number(a), ValueView::Number(b)) => Ok((a, b)),
            _ => Err(ExecError::TypeMismatch),
        }
    }
}

impl<N: Copy> Stack<N> {
    /// The empty stack.
    pub fn new() -> (stack: Self)
        ensures
            stack@ == Seq::<ValueView<N>>::empty(),
    {
        let stack = Stack { values: Vec::new() };
        assert(stack@ =~= Seq::<ValueView<N>>::empty());
        stack
    }

    /// Pushes a number.
    pub fn push(&mut self, value: N)
        ensures
            final(self)@ == old(self)@.push(ValueView::Number(value)),
    {
        self.push_value(Value::Number(value));
    }

    /// Pushes a coroutine made of `tokens`.
    pub fn push_coroutine(&mut self, tokens: Vec<Token>)
        ensures
            final(self)@ == old(self)@.push(ValueView::Coroutine(tokens.deep_view())),
    {
        self.push_value(Value::Coroutine(tokens));
    }

    /// Pushes a value.
    pub fn push_value(&mut self, value: Value<N>)
        ensures
            final(self)@ == old(self)@.push(value@),
    {
        self.values.push(value);
        assert(self@ =~= old(self)@.push(value@));
    }

    /// Takes the top value off, if there is one.
    pub fn pop(&mut self) -> (value: Option<Value<N>>)
        ensures
            old(self)@.len() == 0 ==> value.is_none() && final(self)@ == old(self)@,
            old(self)@.len() > 0 ==> value.deep_view() == Some(old(self)@.last()) && final(self)@
                == old(self)@.drop_last(),
    {
        let value = self.values.pop();
        assert(old(self)@.len() > 0 ==> self@ =~= old(self)@.drop_last());
        value
    }

    /// The number of values.
    pub fn len(&self) -> (n: usize)
        ensures
            n == self@.len(),
    {
        self.values.len()
    }

    /// The values from the bottom to the top.
    pub fn values(&self) -> (values: &Vec<Value<N>>)
        ensures
            values.deep_view() == self@,
    {
        &self.values
    }

    /// An iterator over the values, from the bottom to the top.
    pub fn iter(&self) -> (iter: core::slice::Iter<'_, Value<N>>)
        ensures
            vstd::std_specs::slice::into_iter_elts(iter).map_values(|value: Value<N>| value@)
                == self@,
    {
        broadcast use vstd::std_specs::slice::axiom_spec_slice_iter;

        let iter = self.values.as_slice().iter();
        assert(vstd::std_specs::slice::into_iter_elts(iter).map_values(|value: Value<N>| value@)
            =~= self@);
        iter
    }

    /// The value at `index`, counted from the bottom.
    pub fn get(&self, index: usize) -> (value: Option<&Value<N>>)
        ensures
            value.deep_view() == if index < self@.len() {
                Some(self@[index as int])
            } else {
                None
            },
    {
        if index < self.values.len() {
            Some(&self.values[index])
        } else {
            None
        }
    }

    /// The top value, if there is one.
    pub fn top(&self) -> (value: Option<&Value<N>>)
        ensures
            value.deep_view() == if self@.len() > 0 {
                Some(self@.last())
            } else {
                None
            },
    {
        let n = self.values.len();
        if n > 0 {
            Some(&self.values[n - 1])
        } else {
            None
        }
    }

    /// The operands that a binary operator would take, see [`operands`].
    /// The stack is left as it is.
    pub fn peek_operands(&self) -> (pair: Result<(N, N), ExecError>)
        ensures
            pair == operands(self@),
    {
        let n = self.values.len();
        if n < 2 {
            return Err(ExecError::StackUnderflow);
        }
        match (&self.values[n - 2], &self.values[n - 1]) {
            (Value::Number(a), Value::Number(b)) => Ok((*a, *b)),
            _ => Err(ExecError::TypeMismatch),
        }
    }

    /// Replaces the two top values, which are numbers, by the result of
    /// `op` on them; the second from the top is the left operand. Where the
    /// stack holds no two numbers on top, it is left as it is.
    pub fn binary_op<F: Fn(N, N) -> N>(&mut self, op: F) -> (done: Result<(), ExecError>)
        requires
            forall|a: N, b: N| call_requires(op, (a, b)),
        ensures
            match operands(old(self)@) {
                Ok((a, b)) => done.is_ok() && exists|r: N|
                    #![trigger call_ensures(op, (a, b), r)]
                    call_ensures(op, (a, b), r) && final(self)@ == old(self)@.take(
                        old(self)@.len() - 2,
                    ).push(ValueView::Number(r)),
                Err(e) => done == Err::<(), ExecError>(e) && final(self)@ == old(self)@,
            },
    {
        match self.peek_operands() {
            Ok((a, b)) => {
                let r = op(a, b);
                self.values.pop();
                self.values.pop();
                self.values.push(Value::Number(r));
                assert(self@ =~= old(self)@.take(old(self)@.len() - 2).push(ValueView::Number(r)));
                Ok(())
            },
            Err(e) => Err(e),
        }
    }

    /// Pushes a copy of the top value; an empty stack is left as it is.
    pub fn dup(&mut self)
        ensures
            final(self)@ == if old(self)@.len() > 0 {
                old(self)@.push(old(self)@.last())
            } else {
                old(self)@
            },
    {
        let n = self.values.len();
        if n > 0 {
            let copy = self.values[n - 1].clone();
            self.push_value(copy);
        }
    }
}

} // verus!
