//! Rendering and tokenizing are inverse to each other on the tokens that
//! the tokenizer produces.

use crate::chars::{is_digit, is_name_char, is_space};
use crate::tokenizer::{
    digits_end, exec_word, lemma_digits_end_bounds, lemma_name_end_bounds, lex_from, name_end,
    number_end, render_token, render_tokens, tokens_of, word, TokenView,
};
use crate::calculator::arithmetic::ArithmeticModel;
use crate::calculator::semantics::{run, Machine};
use vstd::prelude::*;

verus! {

/// A number literal: an optional `-`, a digit, and then digits with at most
/// one decimal point among them.
pub open spec fn is_number_literal(text: Seq<char>) -> bool {
    &&& text.len() > 0
    &&& is_digit(text[0]) || (text[0] == '-' && text.len() > 1 && is_digit(text[1]))
    &&& number_end(text, 0) == text.len()
}

/// A name: one or more letters, numbers or `_`.
pub open spec fn is_name(name: Seq<char>) -> bool {
    &&& name.len() > 0
    &&& forall|k: int| 0 <= k < name.len() ==> is_name_char(#[trigger] name[k])
}

/// The name of a variable: a name other than `exec` that starts with no
/// digit and no white space.
pub open spec fn is_variable_name(name: Seq<char>) -> bool {
    &&& is_name(name)
    &&& !is_digit(name[0])
    &&& !is_space(name[0])
    &&& name != exec_word()
}

/// A token as the tokenizer produces it.
pub open spec fn well_formed(token: TokenView) -> bool {
    match token {
        TokenView::Number(text) => is_number_literal(text),
        TokenView::Variable(name) => is_variable_name(name),
        TokenView::Assign(name) => is_name(name),
        _ => true,
    }
}

/// Every token of the sequence is [`well_formed`].
pub open spec fn all_well_formed(tokens: Seq<TokenView>) -> bool {
    forall|k: int| 0 <= k < tokens.len() ==> well_formed(#[trigger] tokens[k])
}

/// Where `run` stands in `s` at `i`: whether it ends `s` or a space follows.
pub open spec fn stands_at(s: Seq<char>, i: int, run: Seq<char>) -> bool {
    &&& 0 <= i
    &&& i + run.len() <= s.len()
    &&& s.subrange(i, i + run.len()) == run
    &&& i + run.len() < s.len() ==> s[i + run.len()] == ' '
}

/// A run of name characters that stands in `s` is read to its end.
proof fn lemma_name_read_whole(s: Seq<char>, i: int, name: Seq<char>, k: int)
    requires
        stands_at(s, i, name),
        0 <= k <= name.len(),
        forall|j: int| 0 <= j < name.len() ==> is_name_char(#[trigger] name[j]),
    ensures
        name_end(s, i + k) == i + name.len(),
    decreases name.len() - k,
{
    if k < name.len() {
        assert(s[i + k] == name[k]) by {
            assert(s.subrange(i, i + name.len())[k] == s[i + k]);
        }
        lemma_name_read_whole(s, i, name, k + 1);
    }
}

/// A run of digits that reaches its own end and stands in `s` is read to
/// its end.
proof fn lemma_digits_read_whole(s: Seq<char>, i: int, text: Seq<char>, k: int, dot_seen: bool)
    requires
        stands_at(s, i, text),
        0 <= k <= text.len(),
        digits_end(text, k, dot_seen) == text.len(),
    ensures
        digits_end(s, i + k, dot_seen) == i + text.len(),
    decreases text.len() - k,
{
    if k < text.len() {
        assert(s[i + k] == text[k]) by {
            assert(s.subrange(i, i + text.len())[k] == s[i + k]);
        }
        if is_digit(text[k]) {
            lemma_digits_read_whole(s, i, text, k + 1, dot_seen);
        } else {
            lemma_digits_read_whole(s, i, text, k + 1, true);
        }
    }
}

/// A well-formed token whose text stands in `s` at `i` is the first token
/// of `s[i..]`.
proof fn lemma_token_read_back(s: Seq<char>, i: int, token: TokenView)
    requires
        well_formed(token),
        stands_at(s, i, render_token(token)),
    ensures
        lex_from(s, i) == seq![token] + lex_from(s, i + render_token(token).len()),
{
    let text = render_token(token);
    assert(text.len() > 0);
    assert(s[i] == text[0]) by {
        assert(s.subrange(i, i + text.len())[0] == s[i]);
    }
    match token {
        TokenView::Number(literal) => {
            if literal[0] == '-' {
                assert(s[i + 1] == literal[1]) by {
                    assert(s.subrange(i, i + text.len())[1] == s[i + 1]);
                }
                lemma_digits_read_whole(s, i, literal, 1, false);
            } else {
                lemma_digits_read_whole(s, i, literal, 0, false);
            }
            assert(number_end(s, i) == i + literal.len());
        },
        TokenView::Variable(name) => {
            lemma_name_read_whole(s, i, name, 0);
            assert(is_name_char(name[0]));
        },
        TokenView::Assign(name) => {
            assert(s.subrange(i + 1, i + 1 + name.len()) =~= name) by {
                assert(s.subrange(i, i + text.len()).skip(1) =~= s.subrange(
                    i + 1,
                    i + 1 + name.len(),
                ));
                assert(text.skip(1) =~= name);
            }
            lemma_name_read_whole(s, i + 1, name, 0);
        },
        TokenView::Exec => {
            let name = exec_word();
            assert(is_name_char(name[0]) && is_name_char(name[1]) && is_name_char(name[2])
                && is_name_char(name[3]));
            lemma_name_read_whole(s, i, name, 0);
        },
        _ => {},
    }
}

/// The tokens of `s[i..]` are `tokens`, where `s[i..]` is their text.
proof fn lemma_text_read_back(s: Seq<char>, i: int, tokens: Seq<TokenView>)
    requires
        all_well_formed(tokens),
        0 <= i <= s.len(),
        s.skip(i) == render_tokens(tokens),
    ensures
        lex_from(s, i) == tokens,
    decreases tokens.len(),
{
    if tokens.len() == 0 {
        assert(s.skip(i).len() == 0);
        assert(lex_from(s, i) =~= tokens);
    } else {
        let first = tokens[0];
        let text = render_token(first);
        let rest = tokens.skip(1);
        let behind = i + text.len();
        assert(well_formed(first));
        assert(all_well_formed(rest)) by {
            assert forall|k: int| 0 <= k < rest.len() implies well_formed(#[trigger] rest[k]) by {
                assert(rest[k] == tokens[k + 1]);
            }
        }
        if tokens.len() == 1 {
            assert(s.skip(i) == text);
            assert(s.subrange(i, behind) =~= s.skip(i));
            lemma_token_read_back(s, i, first);
            assert(lex_from(s, behind) =~= Seq::<TokenView>::empty());
            assert(seq![first] + Seq::<TokenView>::empty() =~= tokens);
        } else {
            let tail = render_tokens(rest);
            assert(s.skip(i) == text + seq![' '] + tail);
            assert(s.subrange(i, behind) =~= text) by {
                assert(s.skip(i).take(text.len() as int) =~= s.subrange(i, behind));
                assert((text + seq![' '] + tail).take(text.len() as int) =~= text);
            }
            assert(s[behind] == ' ') by {
                assert(s.skip(i)[text.len() as int] == s[behind]);
            }
            lemma_token_read_back(s, i, first);
            assert(is_space(s[behind]));
            assert(lex_from(s, behind) == lex_from(s, behind + 1));
            assert(s.skip(behind + 1) =~= tail) by {
                assert(s.skip(i).skip(text.len() as int + 1) =~= s.skip(behind + 1));
                assert((text + seq![' '] + tail).skip(text.len() as int + 1) =~= tail);
            }
            lemma_text_read_back(s, behind + 1, rest);
            assert(seq![first] + rest =~= tokens);
        }
    }
}

/// Tokenizing the text of well-formed tokens gives the tokens back.
pub proof fn law_render_then_tokenize(tokens: Seq<TokenView>)
    requires
        all_well_formed(tokens),
    ensures
        tokens_of(render_tokens(tokens)) == tokens,
{
    let s = render_tokens(tokens);
    assert(s.skip(0) =~= s);
    lemma_text_read_back(s, 0, tokens);
}

/// A run of digits that was read from `s`, taken out of `s`, reaches its own
/// end.
proof fn lemma_digits_taken_out(s: Seq<char>, i: int, end: int, k: int, dot_seen: bool)
    requires
        0 <= i <= k <= end <= s.len(),
        end == digits_end(s, k, dot_seen),
    ensures
        digits_end(s.subrange(i, end), k - i, dot_seen) == end - i,
    decreases end - k,
{
    let text = s.subrange(i, end);
    if k < end {
        assert(text[k - i] == s[k]);
        if is_digit(s[k]) {
            lemma_digits_taken_out(s, i, end, k + 1, dot_seen);
        } else {
            lemma_digits_taken_out(s, i, end, k + 1, true);
        }
    }
}

/// The tokens of a text are well-formed.
pub proof fn law_tokens_well_formed(s: Seq<char>, i: int)
    requires
        0 <= i,
    ensures
        all_well_formed(lex_from(s, i)),
    decreases s.len() - i,
{
    if i < s.len() {
        let c = s[i];
        let tokens = lex_from(s, i);
        lemma_digits_end_bounds(s, i, false);
        lemma_digits_end_bounds(s, i + 1, false);
        lemma_name_end_bounds(s, i);
        lemma_name_end_bounds(s, i + 1);
        let single = c == '{' || c == '}' || c == '+' || c == '*' || c == '/' || (c == '-' && !(i
            + 1 < s.len() && is_digit(s[i + 1])));
        if single {
            law_tokens_well_formed(s, i + 1);
            assert forall|k: int| 0 <= k < tokens.len() implies well_formed(
                #[trigger] tokens[k],
            ) by {
                if k > 0 {
                    assert(tokens[k] == lex_from(s, i + 1)[k - 1]);
                }
            }
        } else if c == '-' || is_digit(c) {
            let end = number_end(s, i);
            let text = s.subrange(i, end);
            if c == '-' {
                lemma_digits_taken_out(s, i, end, i + 1, false);
                assert(text[1] == s[i + 1]);
            } else {
                lemma_digits_taken_out(s, i, end, i, false);
            }
            assert(text[0] == c);
            assert(is_number_literal(text));
            law_tokens_well_formed(s, end);
            assert forall|k: int| 0 <= k < tokens.len() implies well_formed(
                #[trigger] tokens[k],
            ) by {
                if k > 0 {
                    assert(tokens[k] == lex_from(s, end)[k - 1]);
                }
            }
        } else if c == '\'' {
            let end = name_end(s, i + 1);
            if end > i + 1 {
                let name = s.subrange(i + 1, end);
                assert(is_name(name)) by {
                    assert forall|k: int| 0 <= k < name.len() implies is_name_char(
                        #[trigger] name[k],
                    ) by {
                        assert(name[k] == s[i + 1 + k]);
                    }
                }
                law_tokens_well_formed(s, end);
                assert forall|k: int| 0 <= k < tokens.len() implies well_formed(
                    #[trigger] tokens[k],
                ) by {
                    if k > 0 {
                        assert(tokens[k] == lex_from(s, end)[k - 1]);
                    }
                }
            } else {
                law_tokens_well_formed(s, i + 1);
            }
        } else if is_space(c) {
            law_tokens_well_formed(s, i + 1);
        } else {
            let end = name_end(s, i);
            if end > i {
                let name = s.subrange(i, end);
                assert(name[0] == c);
                assert(is_name(name)) by {
                    assert forall|k: int| 0 <= k < name.len() implies is_name_char(
                        #[trigger] name[k],
                    ) by {
                        assert(name[k] == s[i + k]);
                    }
                }
                assert(well_formed(word(name)));
                law_tokens_well_formed(s, end);
                assert forall|k: int| 0 <= k < tokens.len() implies well_formed(
                    #[trigger] tokens[k],
                ) by {
                    if k > 0 {
                        assert(tokens[k] == lex_from(s, end)[k - 1]);
                    }
                }
            } else {
                law_tokens_well_formed(s, i + 1);
            }
        }
    }
}

/// Rendering the tokens of a text and tokenizing the result gives the
/// same tokens.
pub proof fn law_tokenize_render_tokenize(text: Seq<char>)
    ensures
        tokens_of(render_tokens(tokens_of(text))) == tokens_of(text),
{
    law_tokens_well_formed(text, 0);
    law_render_then_tokenize(tokens_of(text));
}

/// A coroutine may be executed from its text: tokenizing the text of
/// well-formed tokens and executing the result has the effect of executing
/// the tokens.
pub proof fn law_execute_rendered<N>(
    model: ArithmeticModel<N>,
    tokens: Seq<TokenView>,
    m: Machine<N>,
    depth: nat,
)
    requires
        all_well_formed(tokens),
    ensures
        run(model, tokens_of(render_tokens(tokens)), m, depth) == run(model, tokens, m, depth),
{
    law_render_then_tokenize(tokens);
}

} // verus!
