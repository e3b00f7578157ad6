//! Start-up and line handling of an interactive session.

use crate::calculator::semantics::Machine;
use crate::calculator::value::ValueView;
use crate::calculator::Calculator;
use crate::chars::{chars_of, is_space};
use vstd::prelude::*;

verus! {

/// The command-line flag that asks for a debugging session.
pub open spec fn debug_flag() -> Seq<char> {
    seq!['-', '-', 'd', 'e', 'b', 'u', 'g']
}

/// Whether one of the arguments is the debug flag.
pub open spec fn asks_for_debug(args: Seq<String>) -> bool {
    exists|k: int| 0 <= k < args.len() && (#[trigger] args[k])@ == debug_flag()
}

/// The index of the first character at or behind `i` that is no white
/// space, or the length of `s`.
pub open spec fn trim_start(s: Seq<char>, i: int) -> int
    decreases s.len() - i,
{
    if 0 <= i < s.len() && is_space(s[i]) {
        trim_start(s, i + 1)
    } else if i < s.len() {
        i
    } else {
        s.len() as int
    }
}

/// The index behind the last character before `j` that is no white space,
/// but no less than `from`.
pub open spec fn trim_end(s: Seq<char>, from: int, j: int) -> int
    decreases j,
{
    if 0 <= from < j <= s.len() && is_space(s[j - 1]) {
        trim_end(s, from, j - 1)
    } else if from < j {
        j
    } else {
        from
    }
}

/// The line without the white space around it.
pub open spec fn trimmed(line: Seq<char>) -> Seq<char> {
    let start = trim_start(line, 0);
    line.subrange(start, trim_end(line, start, line.len() as int))
}

/// Whether `c` is the letter `lower`, in either case. `lower` is a
/// lower-case ASCII letter.
pub open spec fn is_letter(c: char, lower: char) -> bool {
    c == lower || c as u32 + 32 == lower as u32
}

/// Whether the line is the command that ends the session: the word `exit`
/// in any case, with nothing but white space around it.
pub open spec fn is_exit_line(line: Seq<char>) -> bool {
    let word = trimmed(line);
    &&& word.len() == 4
    &&& is_letter(word[0], 'e')
    &&& is_letter(word[1], 'x')
    &&& is_letter(word[2], 'i')
    &&& is_letter(word[3], 't')
}

/// The decisions of an interactive session.
pub struct Framework;

impl Framework {
    /// A fresh session; it is a debugging session where the arguments hold
    /// the flag `--debug`.
    pub fn create_calculator<N: Copy>(args: &[String]) -> (calculator: Calculator<N>)
        ensures
            calculator.debug() == asks_for_debug(args@),
            calculator.machine() == (Machine::<N> {
                stack: Seq::empty(),
                variables: Map::empty(),
                reports: Seq::empty(),
            }),
            calculator.contexts() == Seq::<Map<Seq<char>, ValueView<N>>>::empty(),
    {
        let mut flag = String::new();
        flag.push('-');
        flag.push('-');
        flag.push('d');
        flag.push('e');
        flag.push('b');
        flag.push('u');
        flag.push('g');
        assert(flag@ =~= debug_flag());
        let mut debug_mode = false;
        let mut i: usize = 0;
        while i < args.len()
            invariant
                i <= args.len(),
                flag@ == debug_flag(),
                debug_mode <==> exists|k: int| 0 <= k < i && (#[trigger] args[k])@ == debug_flag(),
            decreases args.len() - i,
        {
            if args[i] == flag {
                debug_mode = true;
            }
            i += 1;
        }
        Calculator::new(debug_mode)
    }

    /// Whether the line ends the session, see [`is_exit_line`].
    pub fn is_exit(line: &str) -> (exit: bool)
        ensures
            exit == is_exit_line(line@),
    {
        let chars = chars_of(line);
        let mut start: usize = 0;
        while start < chars.len() && chars[start].is_whitespace()
            invariant
                start <= chars.len(),
                trim_start(chars@, start as int) == trim_start(chars@, 0),
            decreases chars.len() - start,
        {
            start += 1;
        }
        let mut end: usize = chars.len();
        while end > start && chars[end - 1].is_whitespace()
            invariant
                start <= end <= chars.len(),
                trim_end(chars@, start as int, end as int) == trim_end(
                    chars@,
                    start as int,
                    chars.len() as int,
                ),
            decreases end,
        {
            end -= 1;
        }
        let ghost word = trimmed(chars@);
        assert(word == chars@.subrange(start as int, end as int));
        if end - start != 4 {
            return false;
        }
        assert(word[0] == chars@[start as int]);
        assert(word[1] == chars@[start + 1]);
        assert(word[2] == chars@[start + 2]);
        assert(word[3] == chars@[start + 3]);
        letter(chars[start], 'e', 'E') && letter(chars[start + 1], 'x', 'X') && letter(
            chars[start + 2],
            'i',
            'I',
        ) && letter(chars[start + 3], 't', 'T')
    }
}

/// Whether `c` is one of the two cases of a letter.
fn letter(c: char, lower: char, upper: char) -> (b: bool)
    requires
        'a' <= lower <= 'z',
        upper as u32 + 32 == lower as u32,
    ensures
        b == is_letter(c, lower),
{
    c == lower || c == upper
}

} // verus!
