//! A word-level reader of input lines: the words between white space, and
//! the variable definitions, coroutines and numbers among them.

use crate::calculator::environment::Environment;
use crate::chars::{chars_of, is_space, text_of};
use vstd::prelude::*;

verus! {

/// The end of the longest run without white space that starts at `i`.
pub open spec fn word_end(s: Seq<char>, i: int) -> int
    decreases s.len() - i,
{
    if 0 <= i < s.len() && !is_space(s[i]) {
        word_end(s, i + 1)
    } else {
        i
    }
}

/// A word ends in the text, and behind its first character.
pub proof fn lemma_word_end_bounds(s: Seq<char>, i: int)
    requires
        0 <= i <= s.len(),
    ensures
        i <= word_end(s, i) <= s.len(),
        0 <= i < s.len() && !is_space(s[i]) ==> i < word_end(s, i),
    decreases s.len() - i,
{
    if i < s.len() && !is_space(s[i]) {
        lemma_word_end_bounds(s, i + 1);
    }
}

/// The words of `s[i..]`: the longest runs without white space, in order.
pub open spec fn words_from(s: Seq<char>, i: int) -> Seq<Seq<char>>
    decreases s.len() - i,
{
    if i < 0 || i >= s.len() {
        Seq::empty()
    } else if is_space(s[i]) {
        words_from(s, i + 1)
    } else {
        let end = word_end(s, i);
        proof {
            lemma_word_end_bounds(s, i);
        }
        seq![s.subrange(i, end)] + words_from(s, end)
    }
}

/// The words of a text.
pub open spec fn words_of(text: Seq<char>) -> Seq<Seq<char>> {
    words_from(text, 0)
}

/// The index of the first `=` in `s[i..]`, or the length of `s` if there is
/// none.
pub open spec fn equals_at(s: Seq<char>, i: int) -> int
    decreases s.len() - i,
{
    if 0 <= i < s.len() && s[i] != '=' {
        equals_at(s, i + 1)
    } else if i < s.len() {
        i
    } else {
        s.len() as int
    }
}

/// The variable definition that a word is: `'`, a name, `=` and a value,
/// with no second `=`. A name or a value may be empty.
pub open spec fn definition_of(word: Seq<char>) -> Option<(Seq<char>, Seq<char>)> {
    if word.len() > 0 && word[0] == '\'' {
        let first = equals_at(word, 1);
        if first < word.len() && equals_at(word, first + 1) == word.len() {
            Some((word.subrange(1, first), word.subrange(first + 1, word.len() as int)))
        } else {
            None
        }
    } else {
        None
    }
}

/// The variables that the words define; of two definitions of one name the
/// later one counts.
pub open spec fn definitions_of(words: Seq<Seq<char>>) -> Map<Seq<char>, Seq<char>>
    decreases words.len(),
{
    if words.len() == 0 {
        Map::empty()
    } else {
        let before = definitions_of(words.drop_last());
        match definition_of(words.last()) {
            Some((name, value)) => before.insert(name, value),
            None => before,
        }
    }
}

/// The state of the search for coroutines: the words collected since the
/// last `{`, whether a coroutine is open, and the coroutines found.
pub struct Collector {
    pub current: Seq<Seq<char>>,
    pub inside: bool,
    pub found: Seq<Seq<Seq<char>>>,
}

/// The state after one more word. `{` opens a coroutine and forgets what
/// was collected; `}` closes it and records what was collected; any other
/// word is collected while a coroutine is open.
pub open spec fn collect(state: Collector, word: Seq<char>) -> Collector {
    if word == seq!['{'] {
        Collector { current: Seq::empty(), inside: true, found: state.found }
    } else if word == seq!['}'] {
        Collector { current: state.current, inside: false, found: state.found.push(state.current) }
    } else if state.inside {
        Collector { current: state.current.push(word), ..state }
    } else {
        state
    }
}

/// The state after all the words.
pub open spec fn collected(words: Seq<Seq<char>>) -> Collector
    decreases words.len(),
{
    if words.len() == 0 {
        Collector { current: Seq::empty(), inside: false, found: Seq::empty() }
    } else {
        collect(collected(words.drop_last()), words.last())
    }
}

/// The coroutines among the words: for each `}`, the words since the last
/// `{`. Braces do not nest here.
pub open spec fn coroutines_of(words: Seq<Seq<char>>) -> Seq<Seq<Seq<char>>> {
    collected(words).found
}

/// Whether `parse` may make `outcome` of the text `text`.
pub open spec fn parse_yields<N, P: Fn(&String) -> Option<N>>(
    parse: P,
    text: Seq<char>,
    outcome: Option<N>,
) -> bool {
    exists|s: String| s@ == text && #[trigger] call_ensures(parse, (&s,), outcome)
}

/// What `parse` makes of the text `text`, provided that `parse` is a
/// function, see [`is_parse_function`].
pub open spec fn parsed<N, P: Fn(&String) -> Option<N>>(parse: P, text: Seq<char>) -> Option<N> {
    choose|outcome: Option<N>| parse_yields(parse, text, outcome)
}

/// `parse` accepts every word and is a function of its text: it makes one
/// thing of one text.
pub open spec fn is_parse_function<N, P: Fn(&String) -> Option<N>>(parse: P) -> bool {
    &&& forall|s: &String| call_requires(parse, (s,))
    &&& forall|s: &String, t: &String, a: Option<N>, b: Option<N>|
        s@ == t@ && #[trigger] call_ensures(parse, (s,), a) && #[trigger] call_ensures(
            parse,
            (t,),
            b,
        ) ==> a == b
}

/// The numbers among the words, in order: what `parse` makes of each word,
/// where it makes a number of it.
pub open spec fn numbers_among<N, P: Fn(&String) -> Option<N>>(
    parse: P,
    words: Seq<Seq<char>>,
) -> Seq<N>
    decreases words.len(),
{
    if words.len() == 0 {
        Seq::empty()
    } else {
        match parsed(parse, words.last()) {
            Some(n) => numbers_among(parse, words.drop_last()).push(n),
            None => numbers_among(parse, words.drop_last()),
        }
    }
}

/// The words of one input line.
pub struct Parser {
    pub tokens: Vec<String>,
}

impl Parser {
    /// Splits `input` at white space, see [`words_of`].
    pub fn new(input: &str) -> (parser: Self)
        ensures
            parser.tokens.deep_view() == words_of(input@),
    {
        let chars = chars_of(input);
        let ghost text = chars@;
        let mut tokens: Vec<String> = Vec::new();
        let mut i: usize = 0;
        assert(tokens.deep_view() =~= Seq::<Seq<char>>::empty());
        while i < chars.len()
            invariant
                i <= chars.len(),
                text == chars@,
                tokens.deep_view() + words_from(text, i as int) == words_of(text),
            decreases chars.len() - i,
        {
            let ghost done = tokens.deep_view();
            if chars[i].is_whitespace() {
                i += 1;
            } else {
                let start = i;
                while i < chars.len() && !chars[i].is_whitespace()
                    invariant
                        start <= i <= chars.len(),
                        text == chars@,
                        word_end(text, i as int) == word_end(text, start as int),
                    decreases chars.len() - i,
                {
                    i += 1;
                }
                let word = text_of(&chars, start, i);
                let ghost rest = words_from(text, i as int);
                tokens.push(word);
                assert(tokens.deep_view() =~= done.push(word@));
                assert(done.push(word@) + rest =~= done + (seq![word@] + rest));
            }
        }
        assert(tokens.deep_view() + Seq::<Seq<char>>::empty() =~= tokens.deep_view());
        Parser { tokens }
    }

    /// The variables that the words define, see [`definitions_of`].
    pub fn parse_variables(&self) -> (variables: Environment<String>)
        ensures
            variables@ == definitions_of(self.tokens.deep_view()),
    {
        let ghost words = self.tokens.deep_view();
        let mut variables: Environment<String> = Environment::new();
        let mut i: usize = 0;
        assert(words.take(0) =~= Seq::<Seq<char>>::empty());
        while i < self.tokens.len()
            invariant
                i <= self.tokens.len(),
                words == self.tokens.deep_view(),
                variables@ == definitions_of(words.take(i as int)),
            decreases self.tokens.len() - i,
        {
            let chars = chars_of(self.tokens[i].as_str());
            assert(words.take(i + 1).drop_last() =~= words.take(i as int));
            assert(words.take(i + 1).last() == chars@);
            match definition(&chars) {
                Some((name, value)) => {
                    variables.set(name, value);
                },
                None => {},
            }
            i += 1;
        }
        assert(words.take(i as int) =~= words);
        variables
    }

    /// The coroutines among the words, see [`coroutines_of`].
    pub fn parse_coroutines(&self) -> (coroutines: Vec<Vec<String>>)
        ensures
            coroutines.deep_view() == coroutines_of(self.tokens.deep_view()),
    {
        let ghost words = self.tokens.deep_view();
        let mut open = String::new();
        open.push('{');
        let mut close = String::new();
        close.push('}');
        assert(open@ =~= seq!['{']);
        assert(close@ =~= seq!['}']);
        let mut coroutines: Vec<Vec<String>> = Vec::new();
        let mut current: Vec<String> = Vec::new();
        let mut in_coroutine = false;
        let mut i: usize = 0;
        assert(words.take(0) =~= Seq::<Seq<char>>::empty());
        assert(coroutines.deep_view() =~= Seq::<Seq<Seq<char>>>::empty());
        assert(current.deep_view() =~= Seq::<Seq<char>>::empty());
        while i < self.tokens.len()
            invariant
                i <= self.tokens.len(),
                words == self.tokens.deep_view(),
                open@ == seq!['{'],
                close@ == seq!['}'],
                collected(words.take(i as int)) == (Collector {
                    current: current.deep_view(),
                    inside: in_coroutine,
                    found: coroutines.deep_view(),
                }),
            decreases self.tokens.len() - i,
        {
            let token = &self.tokens[i];
            let ghost state = collected(words.take(i as int));
            assert(words.take(i + 1).drop_last() =~= words.take(i as int));
            assert(words.take(i + 1).last() == token@);
            if *token == open {
                in_coroutine = true;
                current.clear();
                assert(current.deep_view() =~= Seq::<Seq<char>>::empty());
            } else if *token == close {
                in_coroutine = false;
                let copy = current.clone();
                assert(copy.deep_view() =~= current.deep_view());
                coroutines.push(copy);
                assert(coroutines.deep_view() =~= state.found.push(state.current));
            } else if in_coroutine {
                current.push(token.clone());
                assert(current.deep_view() =~= state.current.push(token@));
            }
            i += 1;
        }
        assert(words.take(i as int) =~= words);
        coroutines
    }

    /// The numbers among the words, in order: what `parse` makes of each
    /// word, where it makes a number of it.
    pub fn parse_numbers<N, P: Fn(&String) -> Option<N>>(&self, parse: &P) -> (numbers: Vec<N>)
        requires
            is_parse_function(*parse),
        ensures
            numbers@ == numbers_among(*parse, self.tokens.deep_view()),
    {
        let ghost words = self.tokens.deep_view();
        let mut numbers: Vec<N> = Vec::new();
        let mut i: usize = 0;
        assert(words.take(0) =~= Seq::<Seq<char>>::empty());
        while i < self.tokens.len()
            invariant
                i <= self.tokens.len(),
                is_parse_function(*parse),
                words == self.tokens.deep_view(),
                numbers@ == numbers_among(*parse, words.take(i as int)),
            decreases self.tokens.len() - i,
        {
            let outcome = read(parse, &self.tokens[i]);
            assert(words.take(i + 1).drop_last() =~= words.take(i as int));
            assert(words.take(i + 1).last() == self.tokens[i as int]@);
            match outcome {
                Some(n) => {
                    numbers.push(n);
                },
                None => {},
            }
            i += 1;
        }
        assert(words.take(i as int) =~= words);
        numbers
    }
}

/// What `parse` makes of `word`, see [`parsed`].
pub fn read<N, P: Fn(&String) -> Option<N>>(parse: &P, word: &String) -> (outcome: Option<N>)
    requires
        is_parse_function(*parse),
    ensures
        outcome == parsed(*parse, word@),
{
    let outcome = parse(word);
    proof {
        assert(parse_yields(*parse, word@, outcome));
        let chosen = parsed(*parse, word@);
        assert(parse_yields(*parse, word@, chosen));
        let witness = choose|s: String|
            s@ == word@ && #[trigger] call_ensures(*parse, (&s,), chosen);
        assert(call_ensures(*parse, (&witness,), chosen));
    }
    outcome
}

/// The variable definition that a word is, see [`definition_of`].
fn definition(word: &Vec<char>) -> (pair: Option<(String, String)>)
    ensures
        pair.deep_view() == definition_of(word@),
{
    if word.len() == 0 || word[0] != '\'' {
        return None;
    }
    let first = find_equals(word, 1);
    if first >= word.len() {
        return None;
    }
    let second = find_equals(word, first + 1);
    if second < word.len() {
        return None;
    }
    Some((text_of(word, 1, first), text_of(word, first + 1, word.len())))
}

/// The index of the first `=` in `word[from..]`, see [`equals_at`].
fn find_equals(word: &Vec<char>, from: usize) -> (at: usize)
    requires
        from <= word.len(),
    ensures
        at == equals_at(word@, from as int),
        from <= at <= word.len(),
{
    let mut i: usize = from;
    while i < word.len() && word[i] != '='
        invariant
            from <= i <= word.len(),
            equals_at(word@, i as int) == equals_at(word@, from as int),
        decreases word.len() - i,
    {
        i += 1;
    }
    i
}

} // verus!
