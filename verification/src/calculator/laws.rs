//! Laws of execution, proved of the semantics for every arithmetic.

use crate::calculator::arithmetic::{ArithmeticModel, Operator};
use crate::calculator::error::ExecError;
use crate::calculator::operations::{
    balanced, closing_brace, law_match_encloses_balanced, lemma_closing_from_bounds,
    lemma_match_is_stable, token_braces,
};
use crate::calculator::semantics::{command, operate, operator_of, run, step, Machine};
use crate::calculator::value::ValueView;
use crate::tokenizer::{tokens_of, TokenView};
use vstd::prelude::*;

verus! {

/// The number tokens of the literals `texts`.
pub open spec fn number_tokens(texts: Seq<Seq<char>>) -> Seq<TokenView> {
    texts.map_values(|text: Seq<char>| TokenView::Number(text))
}

/// The numbers that the literals `texts` denote, as values.
pub open spec fn number_values<N>(model: ArithmeticModel<N>, texts: Seq<Seq<char>>) -> Seq<
    ValueView<N>,
> {
    texts.map_values(|text: Seq<char>| ValueView::Number((model.literal)(text)))
}

/// Executing nothing changes nothing.
pub proof fn law_empty_is_no_op<N>(model: ArithmeticModel<N>, m: Machine<N>, depth: nat)
    ensures
        run(model, Seq::empty(), m, depth) == m,
        run(model, tokens_of(Seq::empty()), m, depth) == m,
{
}

/// Executing the first token of a sequence that starts with no opening
/// brace, and then the rest, is executing the sequence.
pub proof fn law_run_unfolds<N>(
    model: ArithmeticModel<N>,
    tokens: Seq<TokenView>,
    m: Machine<N>,
    depth: nat,
)
    requires
        tokens.len() > 0,
        !(tokens[0] is OpenBrace),
    ensures
        run(model, tokens, m, depth) == run(
            model,
            tokens.skip(1),
            command(model, tokens[0], m, depth),
            depth,
        ),
{
}

/// Numbers are pushed in the order in which they are written: after a
/// sequence of number tokens the stack holds, above what it held, their
/// values, the last one on top. Nothing else changes.
pub proof fn law_numbers_push_in_order<N>(
    model: ArithmeticModel<N>,
    texts: Seq<Seq<char>>,
    m: Machine<N>,
    depth: nat,
)
    ensures
        run(model, number_tokens(texts), m, depth) == (Machine {
            stack: m.stack + number_values(model, texts),
            ..m
        }),
    decreases texts.len(),
{
    let tokens = number_tokens(texts);
    if texts.len() == 0 {
        assert(m.stack + number_values(model, texts) =~= m.stack);
    } else {
        let next = m.push(ValueView::Number((model.literal)(texts[0])));
        assert(command(model, tokens[0], m, depth) == next);
        assert(tokens.skip(1) =~= number_tokens(texts.skip(1)));
        law_numbers_push_in_order(model, texts.skip(1), next, depth);
        assert(next.stack + number_values(model, texts.skip(1)) =~= m.stack + number_values(
            model,
            texts,
        ));
    }
}

/// Two numbers and an operator leave the result of the operator on top:
/// the first number is the left operand. Nothing is reported. For a
/// division this holds where the divisor is not zero.
pub proof fn law_operator_leaves_result<N>(
    model: ArithmeticModel<N>,
    left: Seq<char>,
    right: Seq<char>,
    token: TokenView,
    m: Machine<N>,
    depth: nat,
)
    requires
        operator_of(token) matches Some(op) && !(op == Operator::Divide && (model.is_zero)(
            (model.literal)(right),
        )),
    ensures
        run(model, seq![TokenView::Number(left), TokenView::Number(right), token], m, depth) == m.push(
            ValueView::Number(
                (model.binary)(
                    operator_of(token).unwrap(),
                    (model.literal)(left),
                    (model.literal)(right),
                ),
            ),
        ),
{
    let tokens = seq![TokenView::Number(left), TokenView::Number(right), token];
    let a = (model.literal)(left);
    let b = (model.literal)(right);
    let op = operator_of(token).unwrap();
    let m1 = m.push(ValueView::Number(a));
    let m2 = m1.push(ValueView::Number(b));
    let m3 = m.push(ValueView::Number((model.binary)(op, a, b)));
    assert(tokens.skip(1) =~= seq![TokenView::Number(right), token]);
    assert(tokens.skip(1).skip(1) =~= seq![token]);
    assert(tokens.skip(1).skip(1).skip(1) =~= Seq::<TokenView>::empty());
    assert(command(model, tokens[0], m, depth) == m1);
    assert(command(model, tokens[1], m1, depth) == m2);
    assert(m2.stack.take(m2.stack.len() - 2) =~= m.stack);
    assert(command(model, token, m2, depth) == operate(model, op, m2));
    assert(operate(model, op, m2) == m3);
    law_run_unfolds(model, tokens, m, depth);
    law_run_unfolds(model, tokens.skip(1), m1, depth);
    law_run_unfolds(model, tokens.skip(1).skip(1), m2, depth);
}

/// A division by zero is reported, and the quotient is the dividend: after
/// a number, a zero and `/`, the number is on top and one report was added.
pub proof fn law_division_by_zero<N>(
    model: ArithmeticModel<N>,
    left: Seq<char>,
    right: Seq<char>,
    m: Machine<N>,
    depth: nat,
)
    requires
        (model.is_zero)((model.literal)(right)),
    ensures
        run(
            model,
            seq![TokenView::Number(left), TokenView::Number(right), TokenView::Divide],
            m,
            depth,
        ) == m.push(ValueView::Number((model.literal)(left))).report(ExecError::DivisionByZero),
{
    let tokens = seq![TokenView::Number(left), TokenView::Number(right), TokenView::Divide];
    let a = (model.literal)(left);
    let b = (model.literal)(right);
    let m1 = m.push(ValueView::Number(a));
    let m2 = m1.push(ValueView::Number(b));
    assert(tokens.skip(1) =~= seq![TokenView::Number(right), TokenView::Divide]);
    assert(tokens.skip(1).skip(1) =~= seq![TokenView::Divide]);
    assert(tokens.skip(1).skip(1).skip(1) =~= Seq::<TokenView>::empty());
    assert(command(model, tokens[0], m, depth) == m1);
    assert(command(model, tokens[1], m1, depth) == m2);
    assert(m2.stack.take(m2.stack.len() - 2) =~= m.stack);
    assert(command(model, TokenView::Divide, m2, depth) == m1.report(ExecError::DivisionByZero));
    law_run_unfolds(model, tokens, m, depth);
    law_run_unfolds(model, tokens.skip(1), m1, depth);
    law_run_unfolds(model, tokens.skip(1).skip(1), m2, depth);
}

/// A token that fails leaves the stack and the variables as they were and
/// adds one report. Only a division by zero reports and still succeeds.
pub proof fn law_failure_changes_nothing<N>(
    model: ArithmeticModel<N>,
    token: TokenView,
    m: Machine<N>,
    depth: nat,
)
    requires
        command(model, token, m, depth).reports != m.reports,
        !(token is Exec),
    ensures
        command(model, token, m, depth).reports.len() == m.reports.len() + 1,
        command(model, token, m, depth).reports.last() != ExecError::DivisionByZero ==> command(
            model,
            token,
            m,
            depth,
        ) == m.report(command(model, token, m, depth).reports.last()),
{
    let after = command(model, token, m, depth);
    assert(after == step(model, token, m));
    if after.reports.len() == m.reports.len() {
        assert(after.reports =~= m.reports);
    }
}

/// `exec` that cannot run changes nothing but the reports: on an empty
/// stack, on a number, and where no scope may be entered, the stack and the
/// variables stay and one report is added.
pub proof fn law_exec_failure_changes_nothing<N>(
    model: ArithmeticModel<N>,
    m: Machine<N>,
    depth: nat,
)
    requires
        m.stack.len() == 0 || m.stack.last() is Number || depth == 0,
    ensures
        command(model, TokenView::Exec, m, depth) == m.report(
            if m.stack.len() == 0 {
                ExecError::StackUnderflow
            } else if m.stack.last() is Number {
                ExecError::ExecOnNonBlock
            } else {
                ExecError::RecursionLimit
            },
        ),
{
}

/// Scopes are isolated. `exec` leaves the variables of the caller as they
/// were, whatever the coroutine binds; and the coroutine sees none of them:
/// with other variables around it, it has the same effect on the stack and
/// reports the same.
pub proof fn law_exec_isolates_scope<N>(
    model: ArithmeticModel<N>,
    m: Machine<N>,
    other: Map<Seq<char>, ValueView<N>>,
    depth: nat,
)
    ensures
        command(model, TokenView::Exec, m, depth).variables == m.variables,
        command(model, TokenView::Exec, Machine { variables: other, ..m }, depth) == (Machine {
            variables: other,
            ..command(model, TokenView::Exec, m, depth)
        }),
{
}

/// A block is captured whole and unexecuted. Where an opening brace has a
/// partner, the tokens between the two are pushed as one coroutine, nested
/// blocks included, and these tokens are balanced; nothing is reported, and
/// execution goes on behind the partner.
pub proof fn law_block_is_captured_balanced<N>(
    model: ArithmeticModel<N>,
    tokens: Seq<TokenView>,
    m: Machine<N>,
    depth: nat,
)
    requires
        tokens.len() > 0,
        tokens[0] is OpenBrace,
        closing_brace(token_braces(tokens)) is Some,
    ensures
        ({
            let end = closing_brace(token_braces(tokens)).unwrap();
            let body = tokens.subrange(1, end - 1);
            &&& 2 <= end <= tokens.len()
            &&& tokens[end - 1] is CloseBrace
            &&& balanced(token_braces(body))
            &&& run(model, tokens, m, depth) == run(
                model,
                tokens.skip(end),
                m.push(ValueView::Coroutine(body)),
                depth,
            )
        }),
{
    let braces = token_braces(tokens);
    let end = closing_brace(braces).unwrap();
    law_match_encloses_balanced(braces);
    assert(token_braces(tokens.subrange(1, end - 1)) =~= braces.subrange(1, end - 1));
}

/// An opening brace without a partner is reported; nothing is pushed and
/// the rest of the sequence is not executed.
pub proof fn law_unmatched_brace_pushes_nothing<N>(
    model: ArithmeticModel<N>,
    tokens: Seq<TokenView>,
    m: Machine<N>,
    depth: nat,
)
    requires
        tokens.len() > 0,
        tokens[0] is OpenBrace,
        closing_brace(token_braces(tokens)) is None,
    ensures
        run(model, tokens, m, depth) == m.report(ExecError::UnmatchedBrace),
{
}

/// Every block that starts in the sequence, outside other blocks, ends in
/// it.
pub open spec fn blocks_closed(tokens: Seq<TokenView>) -> bool
    decreases tokens.len(),
{
    if tokens.len() == 0 {
        true
    } else if tokens[0] is OpenBrace {
        match closing_brace(token_braces(tokens)) {
            Some(end) => {
                proof {
                    lemma_closing_from_bounds(token_braces(tokens), 0, 0);
                }
                blocks_closed(tokens.skip(end))
            },
            None => false,
        }
    } else {
        blocks_closed(tokens.skip(1))
    }
}

/// Lines compose: executing a sequence whose blocks are closed and then a
/// second sequence is executing the two as one.
pub proof fn law_lines_compose<N>(
    model: ArithmeticModel<N>,
    first: Seq<TokenView>,
    second: Seq<TokenView>,
    m: Machine<N>,
    depth: nat,
)
    requires
        blocks_closed(first),
    ensures
        run(model, first + second, m, depth) == run(
            model,
            second,
            run(model, first, m, depth),
            depth,
        ),
    decreases first.len(),
{
    let both = first + second;
    if first.len() == 0 {
        assert(both =~= second);
    } else if first[0] is OpenBrace {
        let end = closing_brace(token_braces(first)).unwrap();
        lemma_closing_from_bounds(token_braces(first), 0, 0);
        assert(token_braces(both) =~= token_braces(first) + token_braces(second));
        lemma_match_is_stable(token_braces(first), token_braces(second), 0, 0);
        assert(both[0] == first[0]);
        assert(both.subrange(1, end - 1) =~= first.subrange(1, end - 1));
        assert(both.skip(end) =~= first.skip(end) + second);
        law_lines_compose(
            model,
            first.skip(end),
            second,
            m.push(ValueView::Coroutine(first.subrange(1, end - 1))),
            depth,
        );
    } else {
        assert(both[0] == first[0]);
        assert(both.skip(1) =~= first.skip(1) + second);
        law_lines_compose(
            model,
            first.skip(1),
            second,
            command(model, first[0], m, depth),
            depth,
        );
    }
}

} // verus!
