//! Character classes and conversions between text and character vectors.

use vstd::prelude::*;

verus! {

/// Whether a character beyond the ASCII range has the Unicode `White_Space`
/// property.
pub uninterp spec fn unicode_whitespace(c: char) -> bool;

/// Whether a character beyond the ASCII range is alphabetic or numeric in
/// Unicode.
pub uninterp spec fn unicode_alphanumeric(c: char) -> bool;

/// White space: the space, the ASCII controls from tab to carriage return,
/// and the Unicode white space beyond ASCII.
pub open spec fn is_space(c: char) -> bool {
    c == ' ' || ('\t' <= c && c <= '\r') || (c > '\x7f' && unicode_whitespace(c))
}

/// A decimal digit, `0` to `9`.
pub open spec fn is_digit(c: char) -> bool {
    '0' <= c && c <= '9'
}

/// A letter or a number: the ASCII letters and digits, and the Unicode
/// alphabetic and numeric characters beyond ASCII.
pub open spec fn is_alphanumeric(c: char) -> bool {
    ('a' <= c && c <= 'z') || ('A' <= c && c <= 'Z') || is_digit(c) || (c > '\x7f'
        && unicode_alphanumeric(c))
}

/// A character that may stand in a name: a letter, a number or `_`.
pub open spec fn is_name_char(c: char) -> bool {
    is_alphanumeric(c) || c == '_'
}

/// `char::is_whitespace` of std. It is true of the space and of the ASCII
/// controls U+0009 to U+000D; beyond ASCII it follows the Unicode
/// `White_Space` property, which is left as a name here.
pub assume_specification[ char::is_whitespace ](c: char) -> (b: bool)
    ensures
        b == is_space(c),
        c > '\x7f' ==> b == unicode_whitespace(c),
;

/// `char::is_alphanumeric` of std. It is true of the ASCII letters and
/// digits; beyond ASCII it follows the Unicode `Alphabetic` property and the
/// number categories, which are left as a name here.
pub assume_specification[ char::is_alphanumeric ](c: char) -> (b: bool)
    ensures
        b == is_alphanumeric(c),
        c > '\x7f' ==> b == unicode_alphanumeric(c),
;

/// `String::push` of std: appends one character to the end of the string.
pub assume_specification[ String::push ](s: &mut String, ch: char)
    ensures
        final(s)@ == old(s)@.push(ch),
;

/// Decides [`is_digit`].
pub fn digit(c: char) -> (b: bool)
    ensures
        b == is_digit(c),
{
    '0' <= c && c <= '9'
}

/// Decides [`is_name_char`].
pub fn name_char(c: char) -> (b: bool)
    ensures
        b == is_name_char(c),
{
    c.is_alphanumeric() || c == '_'
}

/// The characters of a text, in order.
pub fn chars_of(text: &str) -> (out: Vec<char>)
    ensures
        out@ == text@,
{
    let mut out: Vec<char> = Vec::new();
    for c in it: text.chars()
        invariant
            out@ == it.seq().take(it.index() as int),
    {
        out.push(c);
    }
    out
}

/// The text made of the characters `chars[from..to]`.
pub(crate) fn text_of(chars: &Vec<char>, from: usize, to: usize) -> (out: String)
    requires
        from <= to <= chars.len(),
    ensures
        out@ == chars@.subrange(from as int, to as int),
{
    let mut out = String::new();
    let mut i: usize = from;
    while i < to
        invariant
            from <= i <= to <= chars.len(),
            out@ == chars@.subrange(from as int, i as int),
        decreases to - i,
    {
        out.push(chars[i]);
        i += 1;
    }
    out
}

} // verus!
