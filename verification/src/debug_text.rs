//! Rust's `Debug` rendering of text, which diagnostics use to quote what
//! the author wrote.

use vstd::prelude::*;

verus! {

/// The text that Rust's `Debug` formatting writes for the string `text`:
/// `text` in double quotes, with quotes, backslashes and characters that
/// do not print escaped.
pub uninterp spec fn debug_str(text: Seq<char>) -> Seq<char>;

/// The text that Rust's `Debug` formatting writes for the character `c`:
/// `c` in single quotes, escaped as [`debug_str`] escapes.
pub uninterp spec fn debug_char(c: char) -> Seq<char>;

/// `text` as `format!("{:?}", text)` writes it, through std's `Debug`
/// implementation for `str`; nothing is proved of it beyond that it is
/// [`debug_str`] of the text.
#[verifier::external_body]
pub(crate) fn debug_quoted(text: &str) -> (result: String)
    ensures
        result@ == debug_str(text@),
{
    format!("{:?}", text)
}

/// `c` as `format!("{:?}", c)` writes it, through std's `Debug`
/// implementation for `char`; nothing is proved of it beyond that it is
/// [`debug_char`] of the character.
#[verifier::external_body]
pub(crate) fn debug_quoted_char(c: char) -> (result: String)
    ensures
        result@ == debug_char(c),
{
    format!("{:?}", c)
}

} // verus!
