//! The arithmetic of the embedding program. The calculator is independent
//! of the numeric type; it reads literals, combines numbers and tests for
//! zero through three functions that the program supplies.

use vstd::prelude::*;

verus! {

/// One of the four arithmetic operators.
#[derive(Debug, Clone, Copy, PartialEq, Eq, Structural)]
pub enum Operator {
    Plus,
    Minus,
    Multiply,
    Divide,
}

/// The mathematical model of an arithmetic: what a literal denotes, what an
/// operator yields of a left and a right operand, and which numbers are zero.
#[verifier::reject_recursive_types(N)]
pub struct ArithmeticModel<N> {
    pub literal: spec_fn(Seq<char>) -> N,
    pub binary: spec_fn(Operator, N, N) -> N,
    pub is_zero: spec_fn(N) -> bool,
}

/// The three functions of an arithmetic on numbers of type `N`.
pub struct Arithmetic<L, B, Z> {
    /// The number that a literal denotes.
    pub literal: L,
    /// The result of an operator on a left and a right operand.
    pub binary: B,
    /// Whether a number is zero.
    pub is_zero: Z,
}

impl<N, L: Fn(&str) -> N, B: Fn(Operator, N, N) -> N, Z: Fn(N) -> bool> Arithmetic<L, B, Z> {
    /// Whether `literal` may yield `n` for the text `text`.
    pub open spec fn literal_yields(&self, text: Seq<char>, n: N) -> bool {
        exists|s: &str| s@ == text && #[trigger] call_ensures(self.literal, (s,), n)
    }

    /// The model that the three functions compute, provided that the
    /// arithmetic is [`well_formed`](Self::well_formed).
    pub open spec fn model(&self) -> ArithmeticModel<N> {
        ArithmeticModel {
            literal: |text: Seq<char>| choose|n: N| self.literal_yields(text, n),
            binary: |op: Operator, a: N, b: N| choose|n: N| call_ensures(self.binary, (op, a, b), n),
            is_zero: |a: N| choose|z: bool| call_ensures(self.is_zero, (a,), z),
        }
    }

    /// The three functions accept every argument, and each of them is a
    /// function: it yields one result for one argument, and `literal` one
    /// result for one text.
    pub open spec fn well_formed(&self) -> bool {
        &&& forall|s: &str| call_requires(self.literal, (s,))
        &&& forall|op: Operator, a: N, b: N| call_requires(self.binary, (op, a, b))
        &&& forall|a: N| call_requires(self.is_zero, (a,))
        &&& forall|s: &str, t: &str, m: N, n: N|
            s@ == t@ && #[trigger] call_ensures(self.literal, (s,), m) && #[trigger] call_ensures(
                self.literal,
                (t,),
                n,
            ) ==> m == n
        &&& forall|op: Operator, a: N, b: N, m: N, n: N|
            #[trigger] call_ensures(self.binary, (op, a, b), m) && #[trigger] call_ensures(
                self.binary,
                (op, a, b),
                n,
            ) ==> m == n
        &&& forall|a: N, y: bool, z: bool|
            #[trigger] call_ensures(self.is_zero, (a,), y) && #[trigger] call_ensures(
                self.is_zero,
                (a,),
                z,
            ) ==> y == z
    }

    /// The number that the literal `text` denotes.
    pub fn number(&self, text: &str) -> (n: N)
        requires
            self.well_formed(),
        ensures
            n == (self.model().literal)(text@),
    {
        let n = (self.literal)(text);
        proof {
            assert(self.literal_yields(text@, n));
            let chosen = (self.model().literal)(text@);
            assert(self.literal_yields(text@, chosen));
            let witness = choose|s: &str|
                s@ == text@ && #[trigger] call_ensures(self.literal, (s,), chosen);
            assert(call_ensures(self.literal, (witness,), chosen));
        }
        n
    }

    /// The result of `op` on the left operand `a` and the right operand `b`.
    pub fn apply(&self, op: Operator, a: N, b: N) -> (n: N)
        requires
            self.well_formed(),
        ensures
            n == (self.model().binary)(op, a, b),
    {
        (self.binary)(op, a, b)
    }

    /// Whether `a` is zero.
    pub fn zero(&self, a: N) -> (z: bool)
        requires
            self.well_formed(),
        ensures
            z == (self.model().is_zero)(a),
    {
        (self.is_zero)(a)
    }
}

} // verus!
