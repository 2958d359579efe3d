//! The tags of the `<additive>` region, read the way the lyrics parser
//! reads them: a known name made of lowercase ASCII letters, digits and
//! `-`, flush between `<` (or `</`) and `>`.

use crate::parse_model::{additive_name, is_closing_tag_line, is_opening_tag_line, tag_name_char};
use crate::text::all_ws;
use crate::text::{chars_of, prefix_len, same_text, span_while, string_of};
use vstd::prelude::*;

verus! {

/// A tag name the format knows.
#[derive(Clone, Copy, Debug, PartialEq, Eq, Structural)]
pub enum TagName {
    /// Opens a region whose cues accumulate.
    Additive,
}

/// What follows the tag name `s` opens with, if it opens with one: the
/// run of name characters must spell a known name.
pub open spec fn take_tag_name(s: Seq<char>) -> Option<Seq<char>> {
    let m = prefix_len(s, tag_name_char()) as int;
    if s.take(m) == additive_name() {
        Some(s.skip(m))
    } else {
        None
    }
}

/// What follows the opening tag `s` opens with, if it opens with one.
pub open spec fn take_opening_tag(s: Seq<char>) -> Option<Seq<char>> {
    if s.len() >= 1 && s[0] == '<' {
        match take_tag_name(s.skip(1)) {
            Some(after) => if after.len() > 0 && after[0] == '>' {
                Some(after.skip(1))
            } else {
                None
            },
            None => None,
        }
    } else {
        None
    }
}

/// What follows the closing tag `s` opens with, if it opens with one.
pub open spec fn take_closing_tag(s: Seq<char>) -> Option<Seq<char>> {
    if s.len() >= 2 && s[0] == '<' && s[1] == '/' {
        match take_tag_name(s.skip(2)) {
            Some(after) => if after.len() > 0 && after[0] == '>' {
                Some(after.skip(1))
            } else {
                None
            },
            None => None,
        }
    } else {
        None
    }
}

fn is_name_char(c: char) -> (result: bool)
    ensures
        result == crate::parse_model::is_tag_name_char(c),
{
    ('a' <= c && c <= 'z') || ('0' <= c && c <= '9') || c == '-'
}

/// The end of the tag name that `chars[start..]` opens with, if it opens
/// with a known one.
fn tag_name_end(chars: &Vec<char>, start: usize) -> (result: Option<usize>)
    requires
        start <= chars@.len(),
    ensures
        match take_tag_name(chars@.skip(start as int)) {
            Some(after) => result matches Some(end) && start <= end <= chars@.len() && after
                == chars@.skip(end as int),
            None => result is None,
        },
{
    let end = span_while(chars, start, is_name_char, Ghost(tag_name_char()));
    let name = string_of(chars, start, end);
    proof {
        reveal_strlit("additive");
        assert("additive"@ =~= additive_name());
        let s = chars@.skip(start as int);
        assert(s.take(end - start) =~= chars@.subrange(start as int, end as int));
        assert(s.skip(end - start) =~= chars@.skip(end as int));
    }
    if same_text(name.as_str(), "additive") {
        Some(end)
    } else {
        None
    }
}

impl TagName {
    /// Splits a leading known tag name off `source`: the name and the
    /// rest.
    pub fn take(source: &str) -> (result: Option<(TagName, String)>)
        ensures
            match take_tag_name(source@) {
                Some(after) => result matches Some((name, tail)) && name == TagName::Additive
                    && tail@ == after,
                None => result is None,
            },
    {
        let chars = chars_of(source);
        proof {
            assert(chars@.skip(0) =~= chars@);
        }
        match tag_name_end(&chars, 0) {
            Some(end) => {
                proof {
                    assert(chars@.subrange(end as int, chars@.len() as int) =~= chars@.skip(end as int));
                }
                Some((TagName::Additive, string_of(&chars, end, chars.len())))
            },
            None => None,
        }
    }

    /// The name as it is written.
    pub fn as_str(self) -> (result: &'static str)
        ensures
            result@ == additive_name(),
    {
        proof {
            reveal_strlit("additive");
        }
        "additive"
    }
}

/// An opening tag, `<name>`.
#[derive(Clone, Copy, Debug, PartialEq, Eq, Structural)]
pub struct OpeningTag(pub TagName);

/// A closing tag, `</name>`.
#[derive(Clone, Copy, Debug, PartialEq, Eq, Structural)]
pub struct ClosingTag(pub TagName);

/// The tag whose name ends at `name_end` in `chars`, if a `>` follows
/// the name: the rest after the `>`.
fn after_close(chars: &Vec<char>, name_end: usize) -> (result: Option<String>)
    requires
        name_end <= chars@.len(),
    ensures
        match result {
            Some(tail) => chars@.skip(name_end as int).len() > 0 && chars@.skip(name_end as int)[0]
                == '>' && tail@ == chars@.skip(name_end as int).skip(1),
            None => !(chars@.skip(name_end as int).len() > 0 && chars@.skip(name_end as int)[0]
                == '>'),
        },
{
    if name_end < chars.len() && chars[name_end] == '>' {
        proof {
            assert(chars@.skip(name_end as int).skip(1) =~= chars@.subrange(
                name_end + 1,
                chars@.len() as int,
            ));
        }
        Some(string_of(chars, name_end + 1, chars.len()))
    } else {
        None
    }
}

impl OpeningTag {
    /// Splits a leading `<name>` off `source`: the tag and the rest.
    pub fn take(source: &str) -> (result: Option<(OpeningTag, String)>)
        ensures
            match take_opening_tag(source@) {
                Some(after) => result matches Some((tag, tail)) && tag == OpeningTag(
                    TagName::Additive,
                ) && tail@ == after,
                None => result is None,
            },
    {
        let chars = chars_of(source);
        if chars.len() < 1 || chars[0] != '<' {
            return None;
        }
        match tag_name_end(&chars, 1) {
            None => None,
            Some(end) => match after_close(&chars, end) {
                Some(tail) => Some((OpeningTag(TagName::Additive), tail)),
                None => None,
            },
        }
    }

    /// The name between the delimiters.
    pub fn name(self) -> (result: TagName)
        ensures
            result == self.0,
    {
        self.0
    }
}

impl ClosingTag {
    /// Splits a leading `</name>` off `source`: the tag and the rest.
    pub fn take(source: &str) -> (result: Option<(ClosingTag, String)>)
        ensures
            match take_closing_tag(source@) {
                Some(after) => result matches Some((tag, tail)) && tag == ClosingTag(
                    TagName::Additive,
                ) && tail@ == after,
                None => result is None,
            },
    {
        let chars = chars_of(source);
        if chars.len() < 2 || chars[0] != '<' || chars[1] != '/' {
            return None;
        }
        match tag_name_end(&chars, 2) {
            None => None,
            Some(end) => match after_close(&chars, end) {
                Some(tail) => Some((ClosingTag(TagName::Additive), tail)),
                None => None,
            },
        }
    }

    /// The name between the delimiters.
    pub fn name(self) -> (result: TagName)
        ensures
            result == self.0,
    {
        self.0
    }
}

/// A tag line of the lyrics parser is exactly a tag followed by nothing
/// but whitespace.
pub proof fn lemma_tag_lines(body: Seq<char>)
    ensures
        is_opening_tag_line(body) <==> (take_opening_tag(body) matches Some(tail) && all_ws(tail)),
        is_closing_tag_line(body) <==> (take_closing_tag(body) matches Some(tail) && all_ws(tail)),
{
    if body.len() >= 1 {
        let s = body.skip(1);
        let m = prefix_len(s, tag_name_char()) as int;
        crate::text::lemma_prefix_len(s, tag_name_char());
        assert(body.subrange(1, 1 + m) =~= s.take(m));
        if m < s.len() {
            assert(s.skip(m).skip(1) =~= body.skip(1 + m + 1));
            assert(s.skip(m)[0] == body[1 + m]);
        }
    }
    if body.len() >= 2 {
        let s = body.skip(2);
        let m = prefix_len(s, tag_name_char()) as int;
        crate::text::lemma_prefix_len(s, tag_name_char());
        assert(body.subrange(2, 2 + m) =~= s.take(m));
        if m < s.len() {
            assert(s.skip(m).skip(1) =~= body.skip(2 + m + 1));
            assert(s.skip(m)[0] == body[2 + m]);
        }
    }
}

} // verus!
