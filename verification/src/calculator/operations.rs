//! Operations on the stack and on token sequences that the executor is
//! made of: binary arithmetic and brace matching.

use crate::calculator::error::ExecError;
use crate::calculator::stack::{operands, Stack};
use crate::calculator::value::ValueView;
use crate::tokenizer::{Token, TokenView};
use vstd::prelude::*;

verus! {

/// What a token is to brace matching.
pub enum Brace {
    Open,
    Close,
    Other,
}

/// The brace that a textual token is.
pub open spec fn brace_of_text(text: Seq<char>) -> Brace {
    if text == seq!['{'] {
        Brace::Open
    } else if text == seq!['}'] {
        Brace::Close
    } else {
        Brace::Other
    }
}

/// The brace that a token is.
pub open spec fn brace_of_token(token: TokenView) -> Brace {
    match token {
        TokenView::OpenBrace => Brace::Open,
        TokenView::CloseBrace => Brace::Close,
        _ => Brace::Other,
    }
}

/// The braces of a sequence of textual tokens.
pub open spec fn text_braces(tokens: Seq<String>) -> Seq<Brace> {
    tokens.map_values(|t: String| brace_of_text(t@))
}

/// The braces of a token sequence.
pub open spec fn token_braces(tokens: Seq<TokenView>) -> Seq<Brace> {
    tokens.map_values(|t: TokenView| brace_of_token(t))
}

/// Brace matching from index `i` on, where `depth` braces are open: the
/// index behind the closing brace that brings the depth back to zero. A
/// closing brace at depth zero has no partner, and neither has an opening
/// brace that the sequence does not close: both give `None`.
pub open spec fn closing_from(braces: Seq<Brace>, i: int, depth: nat) -> Option<int>
    decreases braces.len() - i,
{
    if i < 0 || i >= braces.len() {
        None
    } else {
        match braces[i] {
            Brace::Open => closing_from(braces, i + 1, depth + 1),
            Brace::Close => if depth == 0 {
                None
            } else if depth == 1 {
                Some(i + 1)
            } else {
                closing_from(braces, i + 1, (depth - 1) as nat)
            },
            Brace::Other => closing_from(braces, i + 1, depth),
        }
    }
}

/// The index behind the first closing brace that matches, see
/// [`closing_from`].
pub open spec fn closing_brace(braces: Seq<Brace>) -> Option<int> {
    closing_from(braces, 0, 0)
}

/// The end of a match lies in the sequence, behind a closing brace.
pub proof fn lemma_closing_from_bounds(braces: Seq<Brace>, i: int, depth: nat)
    requires
        0 <= i,
    ensures
        closing_from(braces, i, depth) matches Some(end) ==> i < end <= braces.len() && braces[end
            - 1] is Close,
    decreases braces.len() - i,
{
    if i < braces.len() {
        match braces[i] {
            Brace::Open => lemma_closing_from_bounds(braces, i + 1, depth + 1),
            Brace::Close => if depth > 1 {
                lemma_closing_from_bounds(braces, i + 1, (depth - 1) as nat)
            },
            Brace::Other => lemma_closing_from_bounds(braces, i + 1, depth),
        }
    }
}

/// A match that a sequence holds is the match in every sequence that
/// starts with it.
pub proof fn lemma_match_is_stable(braces: Seq<Brace>, more: Seq<Brace>, i: int, depth: nat)
    requires
        0 <= i,
        closing_from(braces, i, depth) is Some,
    ensures
        closing_from(braces + more, i, depth) == closing_from(braces, i, depth),
    decreases braces.len() - i,
{
    if i < braces.len() {
        assert((braces + more)[i] == braces[i]);
        match braces[i] {
            Brace::Open => lemma_match_is_stable(braces, more, i + 1, depth + 1),
            Brace::Close => if depth > 1 {
                lemma_match_is_stable(braces, more, i + 1, (depth - 1) as nat)
            },
            Brace::Other => lemma_match_is_stable(braces, more, i + 1, depth),
        }
    }
}

/// The number of braces that a sequence leaves open: the opening braces
/// less the closing ones.
pub open spec fn open_depth(braces: Seq<Brace>) -> int
    decreases braces.len(),
{
    if braces.len() == 0 {
        0
    } else {
        open_depth(braces.drop_last()) + match braces.last() {
            Brace::Open => 1int,
            Brace::Close => -1int,
            Brace::Other => 0int,
        }
    }
}

/// A sequence is balanced where it closes every brace that it opens and
/// none that it has not opened.
pub open spec fn balanced(braces: Seq<Brace>) -> bool {
    &&& open_depth(braces) == 0
    &&& forall|k: int| 0 <= k <= braces.len() ==> open_depth(#[trigger] braces.take(k)) >= 0
}

/// From `start` on, the braces before the end of a match stay open, and
/// the match closes the last of them.
proof fn lemma_match_depths(braces: Seq<Brace>, start: int, i: int, depth: nat)
    requires
        0 <= start < i <= braces.len(),
        depth == open_depth(braces.subrange(start, i)),
        forall|k: int| start < k <= i ==> open_depth(#[trigger] braces.subrange(start, k)) >= 1,
        closing_from(braces, i, depth) is Some,
    ensures
        forall|k: int|
            start < k < closing_from(braces, i, depth).unwrap() ==> open_depth(
                #[trigger] braces.subrange(start, k),
            ) >= 1,
        open_depth(braces.subrange(start, closing_from(braces, i, depth).unwrap())) == 0,
    decreases braces.len() - i,
{
    assert(depth >= 1);
    if i < braces.len() {
        let next = braces.subrange(start, i + 1);
        assert(next.drop_last() =~= braces.subrange(start, i));
        assert(next.last() == braces[i]);
        match braces[i] {
            Brace::Open => {
                lemma_match_depths(braces, start, i + 1, depth + 1);
            },
            Brace::Close => {
                if depth > 1 {
                    lemma_match_depths(braces, start, i + 1, (depth - 1) as nat);
                }
            },
            Brace::Other => {
                lemma_match_depths(braces, start, i + 1, depth);
            },
        }
    }
}

/// Behind an opening brace, a sequence leaves one brace less open.
proof fn lemma_depth_behind_open(braces: Seq<Brace>, k: int)
    requires
        1 <= k <= braces.len(),
        braces[0] is Open,
    ensures
        open_depth(braces.subrange(0, k)) == 1 + open_depth(braces.subrange(1, k)),
    decreases k,
{
    let whole = braces.subrange(0, k);
    let inner = braces.subrange(1, k);
    if k == 1 {
        assert(whole.drop_last() =~= Seq::<Brace>::empty());
        assert(open_depth(whole.drop_last()) == 0);
    } else {
        lemma_depth_behind_open(braces, k - 1);
        assert(whole.drop_last() =~= braces.subrange(0, k - 1));
        assert(inner.drop_last() =~= braces.subrange(1, k - 1));
        assert(whole.last() == inner.last());
    }
}

/// What stands between an opening brace and its partner is balanced.
pub proof fn law_match_encloses_balanced(braces: Seq<Brace>)
    requires
        braces.len() > 0,
        braces[0] is Open,
        closing_brace(braces) is Some,
    ensures
        2 <= closing_brace(braces).unwrap() <= braces.len(),
        braces[closing_brace(braces).unwrap() - 1] is Close,
        balanced(braces.subrange(1, closing_brace(braces).unwrap() - 1)),
{
    let end = closing_brace(braces).unwrap();
    lemma_closing_from_bounds(braces, 0, 0);
    let first = braces.subrange(0, 1);
    assert(first.drop_last() =~= Seq::<Brace>::empty());
    assert(open_depth(first.drop_last()) == 0);
    assert(open_depth(first) == 1);
    assert forall|k: int| 0 < k <= 1 implies open_depth(#[trigger] braces.subrange(0, k))
        >= 1 by {
        assert(braces.subrange(0, k) == first);
    }
    lemma_match_depths(braces, 0, 1, 1);
    let inner = braces.subrange(1, end - 1);
    let upto = braces.subrange(0, end);
    assert(upto.drop_last() =~= braces.subrange(0, end - 1));
    assert(upto.last() == braces[end - 1]);
    assert(open_depth(braces.subrange(0, end - 1)) == 1);
    lemma_depth_behind_open(braces, end - 1);
    assert forall|k: int| 0 <= k <= inner.len() implies open_depth(#[trigger] inner.take(k))
        >= 0 by {
        assert(inner.take(k) =~= braces.subrange(1, 1 + k));
        lemma_depth_behind_open(braces, 1 + k);
    }
}

/// The stateless operations of the calculator.
pub struct Operations;

impl Operations {
    /// Replaces the two top values of `stack` by the result of `op` on
    /// them, see [`Stack::binary_op`].
    pub fn binary_op<N: Copy, F: Fn(N, N) -> N>(stack: &mut Stack<N>, op: F) -> (done: Result<
        (),
        ExecError,
    >)
        requires
            forall|a: N, b: N| call_requires(op, (a, b)),
        ensures
            match operands(old(stack)@) {
                Ok((a, b)) => done.is_ok() && exists|r: N|
                    #![trigger call_ensures(op, (a, b), r)]
                    call_ensures(op, (a, b), r) && final(stack)@ == old(stack)@.take(
                        old(stack)@.len() - 2,
                    ).push(ValueView::Number(r)),
                Err(e) => done == Err::<(), ExecError>(e) && final(stack)@ == old(stack)@,
            },
    {
        stack.binary_op(op)
    }

    /// Brace matching on textual tokens, see [`closing_brace`].
    pub fn find_closing_brace(tokens: &[String]) -> (end: Option<usize>)
        ensures
            match end {
                Some(e) => closing_brace(text_braces(tokens@)) == Some(e as int),
                None => closing_brace(text_braces(tokens@)) is None,
            },
    {
        let ghost braces = text_braces(tokens@);
        let mut open = String::new();
        open.push('{');
        let mut close = String::new();
        close.push('}');
        assert(open@ =~= seq!['{']);
        assert(close@ =~= seq!['}']);
        let mut depth: usize = 0;
        let mut i: usize = 0;
        while i < tokens.len()
            invariant
                i <= tokens.len(),
                depth <= i,
                braces == text_braces(tokens@),
                open@ == seq!['{'],
                close@ == seq!['}'],
                closing_from(braces, i as int, depth as nat) == closing_brace(braces),
            decreases tokens.len() - i,
        {
            assert(braces[i as int] == brace_of_text(tokens@[i as int]@));
            if tokens[i] == open {
                depth += 1;
            } else if tokens[i] == close {
                if depth == 0 {
                    return None;
                }
                depth -= 1;
                if depth == 0 {
                    return Some(i + 1);
                }
            }
            i += 1;
        }
        None
    }

    /// Brace matching on the tokens from `start` on, see [`closing_brace`].
    /// After an opening brace at `start`, the result is the index behind
    /// the closing brace that matches it. Behind the last token there is
    /// nothing to match.
    pub fn find_block_end(tokens: &Vec<Token>, start: usize) -> (end: Option<usize>)
        ensures
            start > tokens.len() ==> end is None,
            start <= tokens.len() ==> match end {
                Some(e) => start < e <= tokens.len() && closing_brace(
                    token_braces(tokens.deep_view().skip(start as int)),
                ) == Some(e - start),
                None => closing_brace(token_braces(tokens.deep_view().skip(start as int))) is None,
            },
    {
        if start > tokens.len() {
            return None;
        }
        let ghost braces = token_braces(tokens.deep_view().skip(start as int));
        let mut depth: usize = 0;
        let mut i: usize = start;
        while i < tokens.len()
            invariant
                start <= i <= tokens.len(),
                depth <= i - start,
                braces == token_braces(tokens.deep_view().skip(start as int)),
                closing_from(braces, i - start, depth as nat) == closing_brace(braces),
            decreases tokens.len() - i,
        {
            assert(braces[i - start] == brace_of_token(tokens@[i as int]@));
            match tokens[i] {
                Token::OpenBrace => {
                    depth += 1;
                },
                Token::CloseBrace => {
                    if depth == 0 {
                        return None;
                    }
                    depth -= 1;
                    if depth == 0 {
                        return Some(i + 1);
                    }
                },
                _ => {},
            }
            i += 1;
        }
        None
    }
}

} // verus!
