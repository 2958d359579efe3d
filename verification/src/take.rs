//! Prefix parsers shared by the text parsers.

use crate::text::{
    chars_of, non_ws, prefix_len, skip_non_whitespace, skip_whitespace, string_of, ws,
};
use vstd::prelude::*;

verus! {

/// Splits the leading whitespace off `input`: the run, and the rest.
pub fn take_leading_whitespace(input: &str) -> (result: (String, String))
    ensures
        result.0@ == input@.take(prefix_len(input@, ws()) as int),
        result.1@ == input@.skip(prefix_len(input@, ws()) as int),
{
    let chars = chars_of(input);
    let end = skip_whitespace(&chars, 0);
    proof {
        assert(chars@.skip(0) =~= chars@);
    }
    split_chars(&chars, end)
}

/// Splits the leading run of non-whitespace characters off `input`: the
/// run, and the rest.
pub fn take_non_whitespace(input: &str) -> (result: (String, String))
    ensures
        result.0@ == input@.take(prefix_len(input@, non_ws()) as int),
        result.1@ == input@.skip(prefix_len(input@, non_ws()) as int),
{
    let chars = chars_of(input);
    let end = skip_non_whitespace(&chars, 0);
    proof {
        assert(chars@.skip(0) =~= chars@);
    }
    split_chars(&chars, end)
}

/// `chars` split at `cursor`.
fn split_chars(chars: &Vec<char>, cursor: usize) -> (result: (String, String))
    requires
        cursor <= chars@.len(),
    ensures
        result.0@ == chars@.take(cursor as int),
        result.1@ == chars@.skip(cursor as int),
{
    let head = string_of(chars, 0, cursor);
    let tail = string_of(chars, cursor, chars.len());
    proof {
        assert(chars@.subrange(0, cursor as int) =~= chars@.take(cursor as int));
        assert(chars@.subrange(cursor as int, chars@.len() as int) =~= chars@.skip(cursor as int));
    }
    (head, tail)
}

} // verus!
