//! What a session shows: the lines of the display as values, and the
//! colors in which they are printed, which come from the `colored` crate.
//! Printing is the program's.
//!
//! The stack is shown from the bottom to the top, each value under its
//! index; a debugging session shows the saved scopes below it, the
//! outermost first.

use crate::calculator::value::{Value, ValueView};
use crate::calculator::Calculator;
use crate::tokenizer::{join_tokens, render_tokens, TokenView};
use colored::{ColoredString, Colorize};
use vstd::prelude::*;

verus! {

/// A text with its color and style, of the `colored` crate. The library
/// makes such values and hands them out to be printed; it reads nothing in
/// them.
#[verifier::external_type_specification]
#[verifier::external_body]
pub struct ExColoredString(ColoredString);

/// What `Colorize::bold` of `colored` makes of a text.
pub uninterp spec fn bold_of(text: Seq<char>) -> ColoredString;

/// What `Colorize::dimmed` of `colored` makes of a text.
pub uninterp spec fn dimmed_of(text: Seq<char>) -> ColoredString;

/// What `Colorize::green` of `colored` makes of a text.
pub uninterp spec fn green_of(text: Seq<char>) -> ColoredString;

/// What `Colorize::yellow` of `colored` makes of a text.
pub uninterp spec fn yellow_of(text: Seq<char>) -> ColoredString;

/// What `Colorize::bright_green` of `colored` makes of a text.
pub uninterp spec fn bright_green_of(text: Seq<char>) -> ColoredString;

/// What `Colorize::bright_red` of `colored` makes of a text.
pub uninterp spec fn bright_red_of(text: Seq<char>) -> ColoredString;

/// What `Colorize::blue` of `colored` makes of a colored text.
pub uninterp spec fn blue_of(text: ColoredString) -> ColoredString;

/// What `Colorize::purple` of `colored` makes of a colored text.
pub uninterp spec fn purple_of(text: ColoredString) -> ColoredString;

/// `Colorize::bold` of `colored` on a text: the text in bold, without a
/// color. The result holds the text and the style and depends on nothing
/// but the text; it is named, not described.
#[verifier::external_body]
fn bold(text: &str) -> (painted: ColoredString)
    ensures
        painted == bold_of(text@),
{
    text.bold()
}

/// `Colorize::dimmed` of `colored` on a text: the text dimmed, without a
/// color. The result depends on nothing but the text; it is named, not
/// described.
#[verifier::external_body]
fn dimmed(text: &str) -> (painted: ColoredString)
    ensures
        painted == dimmed_of(text@),
{
    text.dimmed()
}

/// `Colorize::green` of `colored` on a text: the text in green. The result
/// depends on nothing but the text; it is named, not described.
#[verifier::external_body]
fn green(text: &str) -> (painted: ColoredString)
    ensures
        painted == green_of(text@),
{
    text.green()
}

/// `Colorize::yellow` of `colored` on a text: the text in yellow. The
/// result depends on nothing but the text; it is named, not described.
#[verifier::external_body]
fn yellow(text: &str) -> (painted: ColoredString)
    ensures
        painted == yellow_of(text@),
{
    text.yellow()
}

/// `Colorize::bright_green` of `colored` on a text: the text in bright
/// green. The result depends on nothing but the text; it is named, not
/// described.
#[verifier::external_body]
fn bright_green(text: &str) -> (painted: ColoredString)
    ensures
        painted == bright_green_of(text@),
{
    text.bright_green()
}

/// `Colorize::bright_red` of `colored` on a text: the text in bright red.
/// The result depends on nothing but the text; it is named, not described.
#[verifier::external_body]
fn bright_red(text: &str) -> (painted: ColoredString)
    ensures
        painted == bright_red_of(text@),
{
    text.bright_red()
}

/// `Colorize::blue` of `colored` on a colored text: the same text in blue,
/// its style kept. The result depends on nothing but the argument; it is
/// named, not described.
#[verifier::external_body]
fn blue(text: ColoredString) -> (painted: ColoredString)
    ensures
        painted == blue_of(text),
{
    text.blue()
}

/// `Colorize::purple` of `colored` on a colored text: the same text in
/// purple, its style kept. The result depends on nothing but the argument;
/// it is named, not described.
#[verifier::external_body]
fn purple(text: ColoredString) -> (painted: ColoredString)
    ensures
        painted == purple_of(text),
{
    text.purple()
}

/// The colors and styles of the display. The lines of a session take the
/// first five, see [`ink_of`]; the prompt is yellow, the greeting bright
/// green and the farewell bright red.
#[derive(Debug, Clone, Copy, PartialEq, Eq, Structural)]
pub enum Ink {
    BoldBlue,
    BoldPurple,
    Dimmed,
    Green,
    Yellow,
    BrightGreen,
    BrightRed,
}

/// One line of the display.
#[derive(Debug, PartialEq)]
pub enum Line<N> {
    /// The heading of the stack.
    StackTitle,
    /// The heading of the saved scopes.
    ContextTitle,
    /// The mark of an empty section.
    Empty,
    /// A number on the stack at `index`.
    Number { index: usize, value: N },
    /// A coroutine on the stack at `index`: its tokens in braces.
    Coroutine { index: usize, text: String },
    /// The saved scope at `index`.
    Context { index: usize },
}

/// The mathematical model of a [`Line`].
pub enum LineView<N> {
    StackTitle,
    ContextTitle,
    Empty,
    Number { index: nat, value: N },
    Coroutine { index: nat, text: Seq<char> },
    Context { index: nat },
}

impl<N> View for Line<N> {
    type V = LineView<N>;

    open spec fn view(&self) -> LineView<N> {
        match self {
            Line::StackTitle => LineView::StackTitle,
            Line::ContextTitle => LineView::ContextTitle,
            Line::Empty => LineView::Empty,
            Line::Number { index, value } => LineView::Number {
                index: *index as nat,
                value: *value,
            },
            Line::Coroutine { index, text } => LineView::Coroutine {
                index: *index as nat,
                text: text@,
            },
            Line::Context { index } => LineView::Context { index: *index as nat },
        }
    }
}

impl<N> DeepView for Line<N> {
    type V = LineView<N>;

    open spec fn deep_view(&self) -> LineView<N> {
        self@
    }
}

/// The text of a coroutine: its tokens between `{ ` and ` }`.
pub open spec fn coroutine_text(body: Seq<TokenView>) -> Seq<char> {
    seq!['{', ' '] + render_tokens(body) + seq![' ', '}']
}

/// The line of the value at `index` of the stack.
pub open spec fn value_line<N>(index: nat, value: ValueView<N>) -> LineView<N> {
    match value {
        ValueView::Number(n) => LineView::Number { index, value: n },
        ValueView::Coroutine(body) => LineView::Coroutine { index, text: coroutine_text(body) },
    }
}

/// The lines of the stack: one for each value, the bottom first, or the
/// mark of an empty section.
pub open spec fn stack_lines<N>(stack: Seq<ValueView<N>>) -> Seq<LineView<N>> {
    if stack.len() == 0 {
        seq![LineView::Empty]
    } else {
        Seq::new(stack.len(), |i: int| value_line(i as nat, stack[i]))
    }
}

/// The lines of `count` saved scopes: one for each, the outermost first, or
/// the mark of an empty section.
pub open spec fn context_lines<N>(count: nat) -> Seq<LineView<N>> {
    if count == 0 {
        seq![LineView::Empty]
    } else {
        Seq::new(count, |i: int| LineView::Context { index: i as nat })
    }
}

/// The whole display: the stack under its heading and, in a debugging
/// session, the saved scopes under theirs.
pub open spec fn screen<N>(debug: bool, stack: Seq<ValueView<N>>, contexts: nat) -> Seq<
    LineView<N>,
> {
    let top = seq![LineView::StackTitle] + stack_lines(stack);
    if debug {
        top + seq![LineView::ContextTitle] + context_lines(contexts)
    } else {
        top
    }
}

/// The ink of a line: the heading of the stack is bold blue and that of
/// the saved scopes bold purple; a number is green and a coroutine yellow;
/// the mark of an empty section and a saved scope are dimmed.
pub open spec fn ink_of<N>(line: LineView<N>) -> Ink {
    match line {
        LineView::StackTitle => Ink::BoldBlue,
        LineView::ContextTitle => Ink::BoldPurple,
        LineView::Empty => Ink::Dimmed,
        LineView::Number { .. } => Ink::Green,
        LineView::Coroutine { .. } => Ink::Yellow,
        LineView::Context { .. } => Ink::Dimmed,
    }
}

/// The text in an ink, as the `colored` crate makes it: a heading is made
/// bold and then given its color; every other ink is one color or one
/// style on the plain text.
pub open spec fn painted(ink: Ink, text: Seq<char>) -> ColoredString {
    match ink {
        Ink::BoldBlue => blue_of(bold_of(text)),
        Ink::BoldPurple => purple_of(bold_of(text)),
        Ink::Dimmed => dimmed_of(text),
        Ink::Green => green_of(text),
        Ink::Yellow => yellow_of(text),
        Ink::BrightGreen => bright_green_of(text),
        Ink::BrightRed => bright_red_of(text),
    }
}

/// The display of a session.
pub struct Display {
    debug_mode: bool,
}

impl Display {
    /// Whether the saved scopes are shown.
    pub closed spec fn debug(&self) -> bool {
        self.debug_mode
    }

    /// A display; in debug mode it shows the saved scopes.
    pub fn new(debug_mode: bool) -> (display: Self)
        ensures
            display.debug() == debug_mode,
    {
        Display { debug_mode }
    }

    /// The ink in which a line is shown, see [`ink_of`].
    pub fn ink<N>(line: &Line<N>) -> (ink: Ink)
        ensures
            ink == ink_of(line@),
    {
        match line {
            Line::StackTitle => Ink::BoldBlue,
            Line::ContextTitle => Ink::BoldPurple,
            Line::Empty => Ink::Dimmed,
            Line::Number { .. } => Ink::Green,
            Line::Coroutine { .. } => Ink::Yellow,
            Line::Context { .. } => Ink::Dimmed,
        }
    }

    /// The text in an ink, ready to be printed, see [`painted`]. Whether
    /// the colors show depends on the terminal.
    pub fn paint(ink: Ink, text: &str) -> (colored: ColoredString)
        ensures
            colored == painted(ink, text@),
    {
        match ink {
            Ink::BoldBlue => blue(bold(text)),
            Ink::BoldPurple => purple(bold(text)),
            Ink::Dimmed => dimmed(text),
            Ink::Green => green(text),
            Ink::Yellow => yellow(text),
            Ink::BrightGreen => bright_green(text),
            Ink::BrightRed => bright_red(text),
        }
    }

    /// The lines that show the session, see [`screen`].
    pub fn display_stacks<N: Copy>(&self, calculator: &Calculator<N>) -> (lines: Vec<Line<N>>)
        ensures
            lines.deep_view() == screen(
                self.debug(),
                calculator.machine().stack,
                calculator.contexts().len(),
            ),
    {
        let stack = calculator.stack().values();
        let ghost shown = calculator.machine().stack;
        let mut lines: Vec<Line<N>> = Vec::new();
        lines.push(Line::StackTitle);
        let ghost title = lines.deep_view();
        assert(title =~= seq![LineView::StackTitle]);
        if stack.len() == 0 {
            lines.push(Line::Empty);
            assert(lines.deep_view() =~= title + stack_lines(shown));
        } else {
            let mut i: usize = 0;
            while i < stack.len()
                invariant
                    i <= stack.len(),
                    shown == stack.deep_view(),
                    lines.deep_view() =~= title + Seq::new(
                        i as nat,
                        |k: int| value_line(k as nat, shown[k]),
                    ),
                decreases stack.len() - i,
            {
                let ghost before = lines.deep_view();
                let line = match &stack[i] {
                    Value::Number(n) => Line::Number { index: i, value: *n },
                    Value::Coroutine(body) => {
                        let mut text = String::new();
                        text.push('{');
                        text.push(' ');
                        let inner = join_tokens(body);
                        text.append(inner.as_str());
                        text.push(' ');
                        text.push('}');
                        assert(text@ =~= coroutine_text(body.deep_view()));
                        Line::Coroutine { index: i, text }
                    },
                };
                assert(line@ == value_line(i as nat, shown[i as int]));
                lines.push(line);
                assert(lines.deep_view() =~= before.push(line@));
                i += 1;
            }
        }
        assert(lines.deep_view() =~= title + stack_lines(shown));
        if self.debug_mode {
            let ghost top = lines.deep_view();
            let count = calculator.context_stack().len();
            lines.push(Line::ContextTitle);
            let ghost heading = lines.deep_view();
            assert(heading =~= top + seq![LineView::ContextTitle]);
            if count == 0 {
                lines.push(Line::Empty);
                assert(lines.deep_view() =~= heading + context_lines(count as nat));
            } else {
                let mut i: usize = 0;
                while i < count
                    invariant
                        i <= count,
                        lines.deep_view() =~= heading + Seq::new(
                            i as nat,
                            |k: int| LineView::<N>::Context { index: k as nat },
                        ),
                    decreases count - i,
                {
                    let ghost before = lines.deep_view();
                    lines.push(Line::Context { index: i });
                    assert(lines.deep_view() =~= before.push(
                        LineView::<N>::Context { index: i as nat },
                    ));
                    i += 1;
                }
            }
            assert(lines.deep_view() =~= heading + context_lines(count as nat));
        }
        lines
    }
}

} // verus!
