use unicode_width::UnicodeWidthChar;
use unicode_width::UnicodeWidthStr;
use vstd::prelude::*;

verus! {

/// What `UnicodeWidthChar::width` returns for a character: its width in
/// terminal columns, or `None` for a control character.
pub uninterp spec fn char_width_of(c: char) -> Option<usize>;

/// What `UnicodeWidthStr::width` returns for a string.
pub uninterp spec fn str_width_of(s: Seq<char>) -> usize;

/// The number of display columns a character occupies in the document:
/// control characters (the newline among them) take none.
pub open spec fn cw(c: char) -> nat {
    match char_width_of(c) {
        Some(w) => w as nat,
        None => 0,
    }
}

/// The display width of `t[from..to]`, as the sum of its characters' widths.
pub open spec fn width_between(t: Seq<char>, from: int, to: int) -> nat
    decreases to - from,
{
    if to <= from {
        0
    } else {
        width_between(t, from, to - 1) + cw(t[to - 1])
    }
}

/// Relies on `UnicodeWidthChar::width` of unicode-width: the result is a
/// function of the character; printable ASCII is one column wide, the C0 and
/// C1 control characters have no width, and no character is wider than three
/// columns (every branch of its table lookup yields at most three).
#[verifier::external_body]
fn width_of_char(c: char) -> (r: Option<usize>)
    ensures
        r == char_width_of(c),
        r matches Some(w) ==> w <= 3,
        ('\u{20}' <= c && c < '\u{7F}') ==> r == Some(1usize),
        (c < '\u{20}' || ('\u{7F}' <= c && c < '\u{A0}')) ==> r is None,
{
    c.width()
}

/// The display width of one character, control characters counting as zero.
pub fn char_width(c: char) -> (r: usize)
    ensures
        r as nat == cw(c),
        r <= 3,
        ('\u{20}' <= c && c < '\u{7F}') ==> r == 1,
        c == '\n' ==> r == 0,
{
    match width_of_char(c) {
        Some(w) => w,
        None => 0,
    }
}

/// Relies on `UnicodeWidthStr::width` of unicode-width: the result is a
/// function of the string's characters; the empty string has width zero.
#[verifier::external_body]
pub(crate) fn text_width(s: &str) -> (r: usize)
    ensures
        r == str_width_of(s@),
        s@.len() == 0 ==> r == 0,
{
    s.width()
}

} // verus!
