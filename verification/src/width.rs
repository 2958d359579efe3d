//! Display widths of characters and strings, in terminal columns, as the
//! `unicode-width` crate measures them.

use unicode_width::UnicodeWidthChar;
use unicode_width::UnicodeWidthStr;
use vstd::prelude::*;

verus! {

/// The number of terminal columns `UnicodeWidthChar::width` reports for
/// `c`, or `None` for a control character.
pub uninterp spec fn char_display_width(c: char) -> Option<usize>;

/// The number of terminal columns `UnicodeWidthStr::width` reports for the
/// string whose characters are `text`.
pub uninterp spec fn str_display_width(text: Seq<char>) -> usize;

/// The width of `c` in columns, through `UnicodeWidthChar::width`.
///
/// The contract names the result and states what the crate's lookup
/// shows outright: printable ASCII (`' '` up to `'~'`) is one column, the
/// other characters below U+00A0 are control characters with no width,
/// and every other width comes from a table of `u8` entries. Of those
/// tables it states one entry, the one the text fitting relies on: the
/// ellipsis `'…'` (U+2026, ambiguous width, counted narrow) is one
/// column. The tables themselves are not restated.
#[verifier::external_body]
pub(crate) fn char_width(c: char) -> (result: Option<usize>)
    ensures
        result == char_display_width(c),
        (' ' <= c && c <= '~') ==> result == Some(1usize),
        c == '\u{2026}' ==> result == Some(1usize),
        (c < ' ' || ('\u{7F}' <= c && c < '\u{A0}')) ==> result is None,
        result matches Some(w) ==> w <= 255,
{
    c.width()
}

/// The width of `text` in columns, through `UnicodeWidthStr::width`.
///
/// That width is not always the sum of the characters' widths (emoji
/// sequences, `"\r\n"` and some ligatures are measured as a whole), so
/// the contract only names it.
#[verifier::external_body]
pub(crate) fn str_width(text: &str) -> (result: usize)
    ensures
        result == str_display_width(text@),
{
    text.width()
}

} // verus!
