//! The lexical layer: tokens, the grammar that turns text into tokens, and
//! the tokenizer that implements it.

use crate::chars::{chars_of, digit, is_digit, is_name_char, is_space, name_char, text_of};
use vstd::prelude::*;

verus! {

/// A lexical token. A number keeps the literal as it was written; the
/// arithmetic of the embedding program gives it a value when it is executed.
#[derive(Debug, PartialEq)]
pub enum Token {
    Number(String),
    Plus,
    Minus,
    Multiply,
    Divide,
    OpenBrace,
    CloseBrace,
    Variable(String),
    Assign(String),
    Exec,
}

/// The mathematical model of a [`Token`]: texts are character sequences.
pub enum TokenView {
    Number(Seq<char>),
    Plus,
    Minus,
    Multiply,
    Divide,
    OpenBrace,
    CloseBrace,
    Variable(Seq<char>),
    Assign(Seq<char>),
    Exec,
}

impl View for Token {
    type V = TokenView;

    open spec fn view(&self) -> TokenView {
        match self {
            Token::Number(text) => TokenView::Number(text@),
            Token::Plus => TokenView::Plus,
            Token::Minus => TokenView::Minus,
            Token::Multiply => TokenView::Multiply,
            Token::Divide => TokenView::Divide,
            Token::OpenBrace => TokenView::OpenBrace,
            Token::CloseBrace => TokenView::CloseBrace,
            Token::Variable(name) => TokenView::Variable(name@),
            Token::Assign(name) => TokenView::Assign(name@),
            Token::Exec => TokenView::Exec,
        }
    }
}

impl Clone for Token {
    /// A copy of the token.
    fn clone(&self) -> (copy: Self)
        ensures
            copy == *self,
    {
        match self {
            Token::Number(text) => Token::Number(text.clone()),
            Token::Plus => Token::Plus,
            Token::Minus => Token::Minus,
            Token::Multiply => Token::Multiply,
            Token::Divide => Token::Divide,
            Token::OpenBrace => Token::OpenBrace,
            Token::CloseBrace => Token::CloseBrace,
            Token::Variable(name) => Token::Variable(name.clone()),
            Token::Assign(name) => Token::Assign(name.clone()),
            Token::Exec => Token::Exec,
        }
    }
}

impl DeepView for Token {
    type V = TokenView;

    open spec fn deep_view(&self) -> TokenView {
        self@
    }
}

/// The text of one token: a number as it was written, an operator or a
/// brace as its sign, a variable as its name, an assignment as `'` and the
/// name, and the word `exec`.
pub open spec fn render_token(token: TokenView) -> Seq<char> {
    match token {
        TokenView::Number(text) => text,
        TokenView::Plus => seq!['+'],
        TokenView::Minus => seq!['-'],
        TokenView::Multiply => seq!['*'],
        TokenView::Divide => seq!['/'],
        TokenView::OpenBrace => seq!['{'],
        TokenView::CloseBrace => seq!['}'],
        TokenView::Variable(name) => name,
        TokenView::Assign(name) => seq!['\''] + name,
        TokenView::Exec => exec_word(),
    }
}

/// The text of a token sequence: the tokens' texts, one space between two.
pub open spec fn render_tokens(tokens: Seq<TokenView>) -> Seq<char>
    decreases tokens.len(),
{
    if tokens.len() == 0 {
        Seq::empty()
    } else if tokens.len() == 1 {
        render_token(tokens[0])
    } else {
        render_token(tokens[0]) + seq![' '] + render_tokens(tokens.skip(1))
    }
}

impl Token {
    /// The text of the token, see [`render_token`].
    pub fn to_string(&self) -> (text: String)
        ensures
            text@ == render_token(self@),
    {
        let mut text = String::new();
        match self {
            Token::Number(literal) => {
                text.append(literal.as_str());
            },
            Token::Plus => {
                text.push('+');
            },
            Token::Minus => {
                text.push('-');
            },
            Token::Multiply => {
                text.push('*');
            },
            Token::Divide => {
                text.push('/');
            },
            Token::OpenBrace => {
                text.push('{');
            },
            Token::CloseBrace => {
                text.push('}');
            },
            Token::Variable(name) => {
                text.append(name.as_str());
            },
            Token::Assign(name) => {
                text.push('\'');
                text.append(name.as_str());
            },
            Token::Exec => {
                text.push('e');
                text.push('x');
                text.push('e');
                text.push('c');
            },
        }
        assert(text@ =~= render_token(self@));
        text
    }
}

/// The text of a token sequence, see [`render_tokens`].
pub fn join_tokens(tokens: &Vec<Token>) -> (text: String)
    ensures
        text@ == render_tokens(tokens.deep_view()),
{
    let ghost all = tokens.deep_view();
    let mut text = String::new();
    let mut i: usize = 0;
    while i < tokens.len()
        invariant
            i <= tokens.len(),
            all == tokens.deep_view(),
            i == 0 ==> text@ == Seq::<char>::empty(),
            0 < i < tokens.len() ==> render_tokens(all) == text@ + seq![' '] + render_tokens(
                all.skip(i as int),
            ),
            0 < i == tokens.len() ==> render_tokens(all) == text@,
        decreases tokens.len() - i,
    {
        let ghost before = text@;
        let ghost rest = all.skip(i as int);
        if i > 0 {
            text.push(' ');
        }
        let piece = tokens[i].to_string();
        text.append(piece.as_str());
        proof {
            assert(rest[0] == tokens@[i as int]@);
            assert(rest.skip(1) =~= all.skip(i + 1));
            if i == 0 {
                assert(rest =~= all);
                assert(text@ =~= piece@);
            } else {
                assert(text@ =~= before + seq![' '] + piece@);
            }
            if i + 1 < tokens.len() {
                assert(render_tokens(rest) == piece@ + seq![' '] + render_tokens(rest.skip(1)));
                assert(render_tokens(all) =~= text@ + seq![' '] + render_tokens(rest.skip(1)));
            } else {
                assert(render_tokens(rest) == piece@);
                assert(render_tokens(all) =~= text@);
            }
        }
        i += 1;
    }
    text
}

/// The reserved word that executes a block.
pub open spec fn exec_word() -> Seq<char> {
    seq!['e', 'x', 'e', 'c']
}

/// The token that a bare name stands for.
pub open spec fn word(name: Seq<char>) -> TokenView {
    if name == exec_word() {
        TokenView::Exec
    } else {
        TokenView::Variable(name)
    }
}

/// The end of the longest run of name characters that starts at `i`.
pub open spec fn name_end(s: Seq<char>, i: int) -> int
    decreases s.len() - i,
{
    if 0 <= i < s.len() && is_name_char(s[i]) {
        name_end(s, i + 1)
    } else {
        i
    }
}

/// The end of the longest run of digits that starts at `i`, in which one
/// decimal point may stand unless `dot_seen`.
pub open spec fn digits_end(s: Seq<char>, i: int, dot_seen: bool) -> int
    decreases s.len() - i,
{
    if 0 <= i < s.len() && is_digit(s[i]) {
        digits_end(s, i + 1, dot_seen)
    } else if 0 <= i < s.len() && s[i] == '.' && !dot_seen {
        digits_end(s, i + 1, true)
    } else {
        i
    }
}

/// The end of the number literal that starts at `i`: an optional `-`, then
/// digits with at most one decimal point.
pub open spec fn number_end(s: Seq<char>, i: int) -> int {
    if 0 <= i < s.len() && s[i] == '-' {
        digits_end(s, i + 1, false)
    } else {
        digits_end(s, i, false)
    }
}

/// Whether a digit stands in `s[from..to]`.
pub open spec fn has_digit(s: Seq<char>, from: int, to: int) -> bool {
    exists|k: int| from <= k < to && 0 <= k < s.len() && is_digit(#[trigger] s[k])
}

/// A run of name characters ends in the text, holds name characters only,
/// and no name character follows it.
pub proof fn lemma_name_end_bounds(s: Seq<char>, i: int)
    requires
        0 <= i <= s.len(),
    ensures
        i <= name_end(s, i) <= s.len(),
        forall|k: int| i <= k < name_end(s, i) ==> is_name_char(#[trigger] s[k]),
        name_end(s, i) < s.len() ==> !is_name_char(s[name_end(s, i)]),
    decreases s.len() - i,
{
    if i < s.len() && is_name_char(s[i]) {
        lemma_name_end_bounds(s, i + 1);
    }
}

/// A run of digits ends in the text, and behind its first digit.
pub proof fn lemma_digits_end_bounds(s: Seq<char>, i: int, dot_seen: bool)
    requires
        0 <= i <= s.len(),
    ensures
        i <= digits_end(s, i, dot_seen) <= s.len(),
        0 <= i < s.len() && is_digit(s[i]) ==> i < digits_end(s, i, dot_seen),
    decreases s.len() - i,
{
    if i < s.len() && is_digit(s[i]) {
        lemma_digits_end_bounds(s, i + 1, dot_seen);
    } else if i < s.len() && s[i] == '.' && !dot_seen {
        lemma_digits_end_bounds(s, i + 1, true);
    }
}

/// The tokens of `s[i..]`, left to right. White space separates and is
/// never a token; a character that starts no token is skipped.
pub open spec fn lex_from(s: Seq<char>, i: int) -> Seq<TokenView>
    decreases s.len() - i,
{
    if i < 0 || i >= s.len() {
        Seq::empty()
    } else {
        let c = s[i];
        if c == '{' {
            seq![TokenView::OpenBrace] + lex_from(s, i + 1)
        } else if c == '}' {
            seq![TokenView::CloseBrace] + lex_from(s, i + 1)
        } else if c == '+' {
            seq![TokenView::Plus] + lex_from(s, i + 1)
        } else if c == '*' {
            seq![TokenView::Multiply] + lex_from(s, i + 1)
        } else if c == '/' {
            seq![TokenView::Divide] + lex_from(s, i + 1)
        } else if c == '-' && !(i + 1 < s.len() && is_digit(s[i + 1])) {
            seq![TokenView::Minus] + lex_from(s, i + 1)
        } else if c == '-' || is_digit(c) {
            let end = number_end(s, i);
            proof {
                lemma_digits_end_bounds(s, i + 1, false);
                lemma_digits_end_bounds(s, i, false);
            }
            seq![TokenView::Number(s.subrange(i, end))] + lex_from(s, end)
        } else if c == '\'' {
            let end = name_end(s, i + 1);
            proof {
                lemma_name_end_bounds(s, i + 1);
            }
            if end > i + 1 {
                seq![TokenView::Assign(s.subrange(i + 1, end))] + lex_from(s, end)
            } else {
                lex_from(s, i + 1)
            }
        } else if is_space(c) {
            lex_from(s, i + 1)
        } else {
            let end = name_end(s, i);
            proof {
                lemma_name_end_bounds(s, i);
            }
            if end > i {
                seq![word(s.subrange(i, end))] + lex_from(s, end)
            } else {
                lex_from(s, i + 1)
            }
        }
    }
}

/// The tokens of a text.
pub open spec fn tokens_of(text: Seq<char>) -> Seq<TokenView> {
    lex_from(text, 0)
}

/// White space between `i` and `j` yields no token.
pub proof fn lemma_lex_skips_space(s: Seq<char>, i: int, j: int)
    requires
        0 <= i <= j <= s.len(),
        forall|k: int| i <= k < j ==> is_space(#[trigger] s[k]),
    ensures
        lex_from(s, i) == lex_from(s, j),
    decreases j - i,
{
    if i < j {
        assert(is_space(s[i]));
        lemma_lex_skips_space(s, i + 1, j);
    }
}

/// A cursor over the characters of one input text.
pub struct Tokenizer {
    input: Vec<char>,
    position: usize,
}

impl Tokenizer {
    #[verifier::type_invariant]
    spec fn cursor_in_text(&self) -> bool {
        self.position <= self.input.len()
    }

    /// The text that is being read.
    pub closed spec fn text(&self) -> Seq<char> {
        self.input@
    }

    /// The index of the next character to read.
    pub closed spec fn cursor(&self) -> int {
        self.position as int
    }

    /// A tokenizer at the start of `input`.
    pub fn new(input: &str) -> (tokenizer: Self)
        ensures
            tokenizer.text() == input@,
            tokenizer.cursor() == 0,
    {
        Tokenizer { input: chars_of(input), position: 0 }
    }

    /// The character under the cursor, if any.
    fn peek(&self) -> (c: Option<char>)
        ensures
            0 <= self.cursor() <= self.text().len(),
            c == if self.cursor() < self.text().len() {
                Some(self.text()[self.cursor()])
            } else {
                None
            },
    {
        proof {
            use_type_invariant(self);
        }
        if self.position < self.input.len() {
            Some(self.input[self.position])
        } else {
            None
        }
    }

    /// Steps over the character under the cursor and returns it.
    fn advance(&mut self) -> (c: Option<char>)
        ensures
            final(self).text() == old(self).text(),
            0 <= old(self).cursor() <= old(self).text().len(),
            old(self).cursor() < old(self).text().len() ==> c == Some(
                old(self).text()[old(self).cursor()],
            ) && final(self).cursor() == old(self).cursor() + 1,
            old(self).cursor() >= old(self).text().len() ==> c.is_none() && final(self).cursor()
                == old(self).cursor(),
    {
        proof {
            use_type_invariant(&*self);
        }
        if self.position < self.input.len() {
            let ch = self.input[self.position];
            self.position += 1;
            Some(ch)
        } else {
            None
        }
    }

    /// Steps over the white space under the cursor.
    fn skip_whitespace(&mut self)
        ensures
            final(self).text() == old(self).text(),
            old(self).cursor() <= final(self).cursor() <= final(self).text().len(),
            forall|k: int|
                old(self).cursor() <= k < final(self).cursor() ==> is_space(
                    #[trigger] final(self).text()[k],
                ),
            final(self).cursor() < final(self).text().len() ==> !is_space(
                final(self).text()[final(self).cursor()],
            ),
    {
        proof {
            use_type_invariant(&*self);
        }
        loop
            invariant
                self.text() == old(self).text(),
                old(self).cursor() <= self.cursor() <= self.text().len(),
                forall|k: int|
                    old(self).cursor() <= k < self.cursor() ==> is_space(#[trigger] self.text()[k]),
            ensures
                self.cursor() < self.text().len() ==> !is_space(self.text()[self.cursor()]),
            decreases self.text().len() - self.cursor(),
        {
            match self.peek() {
                Some(ch) => {
                    if !ch.is_whitespace() {
                        break ;
                    }
                    self.advance();
                },
                None => {
                    break ;
                },
            }
        }
    }

    /// Reads a number literal at the cursor: an optional `-`, then digits
    /// with at most one decimal point. The cursor stops behind the literal;
    /// a literal without a digit is no number.
    fn read_number(&mut self) -> (token: Option<Token>)
        ensures
            final(self).text() == old(self).text(),
            final(self).cursor() == number_end(old(self).text(), old(self).cursor()),
            old(self).cursor() <= final(self).cursor() <= final(self).text().len(),
            token.deep_view() == if has_digit(
                old(self).text(),
                old(self).cursor(),
                final(self).cursor(),
            ) {
                Some(
                    TokenView::Number(
                        old(self).text().subrange(old(self).cursor(), final(self).cursor()),
                    ),
                )
            } else {
                None
            },
    {
        proof {
            use_type_invariant(&*self);
        }
        let start = self.position;
        let mut has_decimal = false;
        let mut seen_digit = false;
        if let Some('-') = self.peek() {
            self.advance();
        }
        let ghost first = self.cursor();
        loop
            invariant
                self.text() == old(self).text(),
                start == old(self).cursor(),
                start <= first <= self.cursor() <= self.text().len(),
                digits_end(self.text(), self.cursor(), has_decimal) == number_end(
                    self.text(),
                    start as int,
                ),
                seen_digit <==> has_digit(self.text(), first, self.cursor()),
            ensures
                digits_end(self.text(), self.cursor(), has_decimal) == self.cursor(),
            decreases self.text().len() - self.cursor(),
        {
            match self.peek() {
                Some(ch) => {
                    if digit(ch) {
                        self.advance();
                        seen_digit = true;
                    } else if ch == '.' && !has_decimal {
                        has_decimal = true;
                        self.advance();
                    } else {
                        break ;
                    }
                },
                None => {
                    break ;
                },
            }
        }
        if seen_digit {
            proof {
                use_type_invariant(&*self);
            }
            Some(Token::Number(text_of(&self.input, start, self.position)))
        } else {
            None
        }
    }

    /// Reads a name at the cursor: the longest run of letters, numbers and
    /// `_`. The cursor stops behind it; an empty run is no name.
    fn read_name(&mut self) -> (name: Option<String>)
        ensures
            final(self).text() == old(self).text(),
            final(self).cursor() == name_end(old(self).text(), old(self).cursor()),
            old(self).cursor() <= final(self).cursor() <= final(self).text().len(),
            name.deep_view() == if final(self).cursor() > old(self).cursor() {
                Some(old(self).text().subrange(old(self).cursor(), final(self).cursor()))
            } else {
                None
            },
    {
        proof {
            use_type_invariant(&*self);
        }
        let start = self.position;
        loop
            invariant
                self.text() == old(self).text(),
                start == old(self).cursor(),
                start <= self.cursor() <= self.text().len(),
                name_end(self.text(), self.cursor()) == name_end(self.text(), start as int),
            ensures
                name_end(self.text(), self.cursor()) == self.cursor(),
            decreases self.text().len() - self.cursor(),
        {
            match self.peek() {
                Some(ch) => {
                    if name_char(ch) {
                        self.advance();
                    } else {
                        break ;
                    }
                },
                None => {
                    break ;
                },
            }
        }
        proof {
            use_type_invariant(&*self);
        }
        if self.position == start {
            None
        } else {
            Some(text_of(&self.input, start, self.position))
        }
    }

    /// Reads a bare name at the cursor: the reserved word `exec`, or a
    /// variable. An empty run is no token.
    fn read_identifier(&mut self) -> (token: Option<Token>)
        ensures
            final(self).text() == old(self).text(),
            final(self).cursor() == name_end(old(self).text(), old(self).cursor()),
            old(self).cursor() <= final(self).cursor() <= final(self).text().len(),
            token.deep_view() == if final(self).cursor() > old(self).cursor() {
                Some(word(old(self).text().subrange(old(self).cursor(), final(self).cursor())))
            } else {
                None
            },
    {
        proof {
            use_type_invariant(&*self);
        }
        let start = self.position;
        match self.read_name() {
            None => None,
            Some(name) => {
                proof {
                    use_type_invariant(&*self);
                }
                if is_exec_word(&self.input, start, self.position) {
                    Some(Token::Exec)
                } else {
                    Some(Token::Variable(name))
                }
            },
        }
    }

    /// Reads the rest of the text into tokens. The cursor ends behind the
    /// text.
    pub fn tokenize(&mut self) -> (tokens: Vec<Token>)
        ensures
            final(self).text() == old(self).text(),
            final(self).cursor() == final(self).text().len(),
            tokens.deep_view() == lex_from(old(self).text(), old(self).cursor()),
    {
        proof {
            use_type_invariant(&*self);
        }
        let mut tokens: Vec<Token> = Vec::new();
        let ghost text = self.text();
        let ghost goal = lex_from(self.text(), self.cursor());
        assert(tokens.deep_view() =~= Seq::<TokenView>::empty());
        loop
            invariant
                self.text() == text,
                0 <= self.cursor() <= text.len(),
                tokens.deep_view() + lex_from(text, self.cursor()) == goal,
            ensures
                self.cursor() == text.len(),
                tokens.deep_view() == goal,
            decreases text.len() - self.cursor(),
        {
            let ghost before = self.cursor();
            let ghost done = tokens.deep_view();
            self.skip_whitespace();
            let ghost at = self.cursor();
            proof {
                lemma_lex_skips_space(text, before, at);
                lemma_digits_end_bounds(text, at, false);
                lemma_name_end_bounds(text, at);
                if at < text.len() {
                    lemma_digits_end_bounds(text, at + 1, false);
                    lemma_name_end_bounds(text, at + 1);
                }
            }
            let token = match self.peek() {
                None => {
                    assert(done + Seq::<TokenView>::empty() =~= done);
                    break ;
                },
                Some(ch) => {
                    if ch == '{' {
                        self.advance();
                        Some(Token::OpenBrace)
                    } else if ch == '}' {
                        self.advance();
                        Some(Token::CloseBrace)
                    } else if ch == '+' {
                        self.advance();
                        Some(Token::Plus)
                    } else if ch == '*' {
                        self.advance();
                        Some(Token::Multiply)
                    } else if ch == '/' {
                        self.advance();
                        Some(Token::Divide)
                    } else if ch == '-' && !self.digit_follows() {
                        self.advance();
                        Some(Token::Minus)
                    } else if ch == '-' || digit(ch) {
                        assert(has_digit(text, at, number_end(text, at))) by {
                            if ch == '-' {
                                assert(is_digit(text[at + 1]));
                            } else {
                                assert(is_digit(text[at]));
                            }
                        }
                        self.read_number()
                    } else if ch == '\'' {
                        self.advance();
                        match self.read_name() {
                            Some(name) => Some(Token::Assign(name)),
                            None => None,
                        }
                    } else if !ch.is_whitespace() {
                        let token = self.read_identifier();
                        if token.is_none() {
                            self.advance();
                        }
                        token
                    } else {
                        self.advance();
                        None
                    }
                },
            };
            let ghost rest = lex_from(text, self.cursor());
            match token {
                Some(t) => {
                    assert(lex_from(text, at) == seq![t@] + rest);
                    tokens.push(t);
                    assert(tokens.deep_view() =~= done.push(t@));
                    assert(done.push(t@) + rest =~= done + (seq![t@] + rest));
                },
                None => {
                    assert(lex_from(text, at) == rest);
                },
            }
        }
        tokens
    }

    /// Whether a digit stands right behind the character under the cursor.
    fn digit_follows(&self) -> (b: bool)
        ensures
            b == (self.cursor() + 1 < self.text().len() && is_digit(
                self.text()[self.cursor() + 1],
            )),
    {
        proof {
            use_type_invariant(self);
        }
        self.input.len() > 0 && self.position < self.input.len() - 1 && digit(
            self.input[self.position + 1],
        )
    }
}

/// Whether `chars[from..to]` spells the reserved word `exec`.
fn is_exec_word(chars: &Vec<char>, from: usize, to: usize) -> (b: bool)
    requires
        from <= to <= chars.len(),
    ensures
        b == (chars@.subrange(from as int, to as int) == exec_word()),
{
    let ghost run = chars@.subrange(from as int, to as int);
    if to - from == 4 {
        let b = chars[from] == 'e' && chars[from + 1] == 'x' && chars[from + 2] == 'e' && chars[from
            + 3] == 'c';
        proof {
            assert(run[0] == chars@[from as int]);
            assert(run[1] == chars@[from + 1]);
            assert(run[2] == chars@[from + 2]);
            assert(run[3] == chars@[from + 3]);
            if b {
                assert(run =~= exec_word());
            }
        }
        b
    } else {
        assert(run.len() != exec_word().len());
        false
    }
}

} // verus!
