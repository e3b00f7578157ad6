use stack_calculator::calculator::arithmetic::{Arithmetic, Operator};
use colored::{Color, Styles};
use stack_calculator::calculator::display::{Display, Ink, Line};
use stack_calculator::calculator::Calculator;

fn literal(text: &str) -> f64 {
    text.parse::<f64>().unwrap_or(f64::NAN)
}

fn binary(op: Operator, a: f64, b: f64) -> f64 {
    match op {
        Operator::Plus => a + b,
        Operator::Minus => a - b,
        Operator::Multiply => a * b,
        Operator::Divide => a / b,
    }
}

fn is_zero(a: f64) -> bool {
    a == 0.0
}

fn run(input: &str) -> Calculator<f64> {
    let arithmetic = Arithmetic { literal, binary, is_zero };
    let mut calculator = Calculator::new(false);
    calculator.execute(input, &arithmetic);
    calculator
}

#[test]
fn empty_session_shows_an_empty_stack() {
    let calculator = run("");
    assert_eq!(
        Display::new(false).display_stacks(&calculator),
        vec![Line::StackTitle, Line::Empty]
    );
}

#[test]
fn stack_is_shown_from_the_bottom_to_the_top() {
    let calculator = run("1 2 + { 4 'x { } } 2.5");
    assert_eq!(
        Display::new(false).display_stacks(&calculator),
        vec![
            Line::StackTitle,
            Line::Number { index: 0, value: 3.0 },
            Line::Coroutine { index: 1, text: "{ 4 'x { } }".to_string() },
            Line::Number { index: 2, value: 2.5 },
        ]
    );
}

#[test]
fn empty_coroutine_is_shown_as_braces() {
    let calculator = run("{}");
    assert_eq!(
        Display::new(false).display_stacks(&calculator),
        vec![Line::StackTitle, Line::Coroutine { index: 0, text: "{  }".to_string() }]
    );
}

#[test]
fn debug_display_shows_the_saved_scopes() {
    let calculator = run("7");
    assert_eq!(
        Display::new(true).display_stacks(&calculator),
        vec![
            Line::StackTitle,
            Line::Number { index: 0, value: 7.0 },
            Line::ContextTitle,
            Line::Empty,
        ]
    );
    assert_eq!(
        Display::new(true).display_stacks(&run("")),
        vec![Line::StackTitle, Line::Empty, Line::ContextTitle, Line::Empty]
    );
}

#[test]
fn each_line_has_its_ink() {
    assert_eq!(Display::ink(&Line::<f64>::StackTitle), Ink::BoldBlue);
    assert_eq!(Display::ink(&Line::<f64>::ContextTitle), Ink::BoldPurple);
    assert_eq!(Display::ink(&Line::<f64>::Empty), Ink::Dimmed);
    assert_eq!(Display::ink(&Line::Number { index: 0, value: 1.0 }), Ink::Green);
    assert_eq!(
        Display::ink(&Line::<f64>::Coroutine { index: 1, text: "{ 1 }".to_string() }),
        Ink::Yellow
    );
    assert_eq!(Display::ink(&Line::<f64>::Context { index: 2 }), Ink::Dimmed);
}

#[test]
fn paint_keeps_the_text_and_sets_color_and_style() {
    let painted = Display::paint(Ink::BoldBlue, "Data Stack:");
    assert_eq!(painted.input, "Data Stack:");
    assert_eq!(painted.fgcolor, Some(Color::Blue));
    assert!(painted.style.contains(Styles::Bold));

    let painted = Display::paint(Ink::BoldPurple, "Context Stack:");
    assert_eq!(painted.input, "Context Stack:");
    assert_eq!(painted.fgcolor, Some(Color::Magenta));
    assert!(painted.style.contains(Styles::Bold));

    let painted = Display::paint(Ink::Dimmed, "[empty]");
    assert_eq!(painted.input, "[empty]");
    assert_eq!(painted.fgcolor, None);
    assert!(painted.style.contains(Styles::Dimmed));
    assert!(!painted.style.contains(Styles::Bold));

    let painted = Display::paint(Ink::Green, "3.00");
    assert_eq!(painted.input, "3.00");
    assert_eq!(painted.fgcolor, Some(Color::Green));
    assert!(!painted.style.contains(Styles::Bold));

    let painted = Display::paint(Ink::Yellow, "{ 1 2 + }");
    assert_eq!(painted.input, "{ 1 2 + }");
    assert_eq!(painted.fgcolor, Some(Color::Yellow));
    assert_eq!(painted.bgcolor, None);
}

#[test]
fn painted_text_is_shown_plain_without_colors() {
    colored::control::set_override(false);
    assert_eq!(Display::paint(Ink::Green, "3.00").to_string(), "3.00");
    assert_eq!(Display::paint(Ink::BoldBlue, "Data Stack:").to_string(), "Data Stack:");
}

#[test]
fn greeting_and_farewell_are_bright() {
    let painted = Display::paint(Ink::BrightGreen, "hello");
    assert_eq!(painted.input, "hello");
    assert_eq!(painted.fgcolor, Some(Color::BrightGreen));
    let painted = Display::paint(Ink::BrightRed, "bye");
    assert_eq!(painted.input, "bye");
    assert_eq!(painted.fgcolor, Some(Color::BrightRed));
}
