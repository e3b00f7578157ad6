use stack_calculator::tokenizer::{join_tokens, Token, Tokenizer};

fn tokens(input: &str) -> Vec<Token> {
    Tokenizer::new(input).tokenize()
}

fn number(text: &str) -> Token {
    Token::Number(text.to_string())
}

fn variable(name: &str) -> Token {
    Token::Variable(name.to_string())
}

fn assign(name: &str) -> Token {
    Token::Assign(name.to_string())
}

#[test]
fn tokenizes_numbers_and_operators() {
    assert_eq!(
        tokens("1 2.5 + - * /"),
        vec![
            number("1"),
            number("2.5"),
            Token::Plus,
            Token::Minus,
            Token::Multiply,
            Token::Divide,
        ]
    );
}

#[test]
fn empty_and_blank_input_have_no_tokens() {
    assert_eq!(tokens(""), vec![]);
    assert_eq!(tokens("   \t\r\n  "), vec![]);
}

#[test]
fn minus_before_a_digit_starts_a_number() {
    assert_eq!(tokens("-5"), vec![number("-5")]);
    assert_eq!(tokens("-5.25"), vec![number("-5.25")]);
    assert_eq!(tokens("3 -4 -"), vec![number("3"), number("-4"), Token::Minus]);
    assert_eq!(tokens("5-3"), vec![number("5"), number("-3")]);
}

#[test]
fn lone_minus_is_the_operator() {
    assert_eq!(tokens("-"), vec![Token::Minus]);
    assert_eq!(tokens("- 5"), vec![Token::Minus, number("5")]);
    assert_eq!(tokens("-x"), vec![Token::Minus, variable("x")]);
    assert_eq!(tokens("-.5"), vec![Token::Minus, number("5")]);
    assert_eq!(tokens("--1"), vec![Token::Minus, number("-1")]);
}

#[test]
fn a_number_has_at_most_one_decimal_point() {
    assert_eq!(tokens("1.2.3"), vec![number("1.2"), number("3")]);
    assert_eq!(tokens("7."), vec![number("7.")]);
    assert_eq!(tokens("1..2"), vec![number("1."), number("2")]);
    assert_eq!(tokens("007"), vec![number("007")]);
}

#[test]
fn braces_are_tokens_of_their_own() {
    assert_eq!(
        tokens("{1 2 +}"),
        vec![Token::OpenBrace, number("1"), number("2"), Token::Plus, Token::CloseBrace]
    );
    assert_eq!(
        tokens("{ { } }"),
        vec![Token::OpenBrace, Token::OpenBrace, Token::CloseBrace, Token::CloseBrace]
    );
    assert_eq!(tokens("}{"), vec![Token::CloseBrace, Token::OpenBrace]);
}

#[test]
fn names_are_variables_and_exec_is_reserved() {
    assert_eq!(tokens("x"), vec![variable("x")]);
    assert_eq!(tokens("foo_bar2 _y"), vec![variable("foo_bar2"), variable("_y")]);
    assert_eq!(tokens("exec"), vec![Token::Exec]);
    assert_eq!(tokens("execute exec2 Exec"), vec![
        variable("execute"),
        variable("exec2"),
        variable("Exec"),
    ]);
    assert_eq!(tokens("1x"), vec![number("1"), variable("x")]);
}

#[test]
fn quote_and_name_is_an_assignment() {
    assert_eq!(tokens("'x"), vec![assign("x")]);
    assert_eq!(tokens("1 'total total"), vec![number("1"), assign("total"), variable("total")]);
    assert_eq!(tokens("'9lives"), vec![assign("9lives")]);
    assert_eq!(tokens("'exec"), vec![assign("exec")]);
    assert_eq!(tokens("'x'y"), vec![assign("x"), assign("y")]);
}

#[test]
fn quote_without_a_name_is_skipped() {
    assert_eq!(tokens("'"), vec![]);
    assert_eq!(tokens("' x"), vec![variable("x")]);
    assert_eq!(tokens("'+"), vec![Token::Plus]);
    assert_eq!(tokens("''x"), vec![assign("x")]);
}

#[test]
fn unrecognized_characters_are_skipped() {
    assert_eq!(tokens("1 @ 2 # $"), vec![number("1"), number("2")]);
    assert_eq!(tokens("a=b"), vec![variable("a"), variable("b")]);
    assert_eq!(tokens("(1,2)"), vec![number("1"), number("2")]);
    assert_eq!(tokens(".5"), vec![number("5")]);
    assert_eq!(tokens("x.y"), vec![variable("x"), variable("y")]);
}

#[test]
fn unicode_white_space_separates() {
    assert_eq!(tokens("1\u{2003}2"), vec![number("1"), number("2")]);
    assert_eq!(tokens("a\u{00A0}b"), vec![variable("a"), variable("b")]);
    assert_eq!(tokens("\u{3000}+\u{0085}"), vec![Token::Plus]);
}

#[test]
fn unicode_letters_and_numbers_stand_in_names() {
    assert_eq!(tokens("añb"), vec![variable("añb")]);
    assert_eq!(tokens("'größe größe"), vec![assign("größe"), variable("größe")]);
    assert_eq!(tokens("x\u{0663}"), vec![variable("x\u{0663}")]);
    assert_eq!(tokens("\u{0663}"), vec![variable("\u{0663}")]);
    assert_eq!(tokens("a\u{2014}b"), vec![variable("a"), variable("b")]);
}

#[test]
fn tokenize_continues_from_the_cursor() {
    let mut tokenizer = Tokenizer::new("1 2");
    assert_eq!(tokenizer.tokenize(), vec![number("1"), number("2")]);
    assert_eq!(tokenizer.tokenize(), vec![]);
}

#[test]
fn token_text() {
    assert_eq!(number("1.50").to_string(), "1.50");
    assert_eq!(number("-3").to_string(), "-3");
    assert_eq!(Token::Plus.to_string(), "+");
    assert_eq!(Token::Minus.to_string(), "-");
    assert_eq!(Token::Multiply.to_string(), "*");
    assert_eq!(Token::Divide.to_string(), "/");
    assert_eq!(Token::OpenBrace.to_string(), "{");
    assert_eq!(Token::CloseBrace.to_string(), "}");
    assert_eq!(variable("abc").to_string(), "abc");
    assert_eq!(assign("abc").to_string(), "'abc");
    assert_eq!(Token::Exec.to_string(), "exec");
}

#[test]
fn joined_text_has_one_space_between_tokens() {
    assert_eq!(join_tokens(&vec![]), "");
    assert_eq!(join_tokens(&vec![Token::Exec]), "exec");
    assert_eq!(
        join_tokens(&vec![number("1"), Token::OpenBrace, assign("x"), Token::CloseBrace]),
        "1 { 'x }"
    );
}

#[test]
fn text_of_tokens_is_tokenized_back() {
    let inputs = [
        "1 2 +",
        "{1 -2.5 { x 'y } exec}   - -",
        "3-4 'a a.b exec_ exec",
        "  -7. * / } {",
        "'größe\u{2003}größe @ 12",
    ];
    for input in inputs {
        let first = tokens(input);
        let text = join_tokens(&first);
        assert_eq!(tokens(&text), first);
        assert_eq!(join_tokens(&tokens(&text)), text);
    }
}

#[test]
fn token_copies_are_equal() {
    let all = tokens("1 + - * / { } x 'y exec");
    assert_eq!(all.len(), 10);
    for token in &all {
        assert_eq!(&token.clone(), token);
    }
}
