//! The tag lines that delimit a region of a lyrics file.
//!
//! A tag line reads `<name>` (an opening tag) or `</name>` (a closing
//! tag). [`Tag::take`] recognizes the shape and reports whatever name it
//! finds, verbatim, leaving it to the caller to decide which names it
//! knows.

use crate::text::{chars_of, find_char, find_char_from, push_char, push_str, string_of};
use vstd::prelude::*;

verus! {

/// Which side of a region a tag names.
#[derive(Clone, Copy, Debug, PartialEq, Eq, Structural)]
pub enum TagKind {
    /// An opening tag, `<name>`.
    Opening,
    /// A closing tag, `</name>`.
    Closing,
}

/// A tag, such as `<additive>` or `</additive>`.
#[derive(Debug, PartialEq, Eq)]
pub struct Tag {
    /// Whether the tag opens or closes a region.
    pub kind: TagKind,
    /// The text between the delimiters, as written.
    pub name: String,
}

/// Why a text does not open with a tag.
#[derive(Clone, Copy, Debug, PartialEq, Eq, Structural)]
#[non_exhaustive]
pub enum TakeTagError {
    /// The text does not begin with `<`.
    ShapeMismatch,
    /// No `>` ends the tag.
    Unterminated,
    /// The tag encloses no name.
    EmptyName,
}

/// What [`Tag::take`] finds at the start of `s`: the kind, the name and
/// the rest of the text, or why there is no tag.
pub open spec fn take_tag(s: Seq<char>) -> Result<(TagKind, Seq<char>, Seq<char>), TakeTagError> {
    if s.len() == 0 || s[0] != '<' {
        Err(TakeTagError::ShapeMismatch)
    } else {
        let closing = s.len() > 1 && s[1] == '/';
        let kind = if closing {
            TagKind::Closing
        } else {
            TagKind::Opening
        };
        let after = s.skip(if closing {
            2int
        } else {
            1int
        });
        let j = find_char(after, '>');
        if j >= after.len() {
            Err(TakeTagError::Unterminated)
        } else if j == 0 {
            Err(TakeTagError::EmptyName)
        } else {
            Ok((kind, after.take(j as int), after.skip(j + 1 as int)))
        }
    }
}

/// The text of a tag, as it is written.
pub open spec fn tag_text(kind: TagKind, name: Seq<char>) -> Seq<char> {
    seq!['<'] + (if kind == TagKind::Closing {
        seq!['/']
    } else {
        Seq::empty()
    }) + name + seq!['>']
}

impl Tag {
    /// Splits a leading `<name>` or `</name>` off `source`: the tag and
    /// the rest of the text.
    pub fn take(source: &str) -> (result: Result<(Tag, String), TakeTagError>)
        ensures
            match take_tag(source@) {
                Ok((kind, name, rest)) => result matches Ok((tag, tail)) && tag.kind == kind
                    && tag.name@ == name && tail@ == rest,
                Err(error) => result == Err::<(Tag, String), TakeTagError>(error),
            },
    {
        let chars = chars_of(source);
        if chars.len() == 0 || chars[0] != '<' {
            return Err(TakeTagError::ShapeMismatch);
        }
        let closing = chars.len() > 1 && chars[1] == '/';
        let kind = if closing {
            TagKind::Closing
        } else {
            TagKind::Opening
        };
        let name_start: usize = if closing {
            2
        } else {
            1
        };
        let end = find_char_from(&chars, name_start, '>');
        if end >= chars.len() {
            return Err(TakeTagError::Unterminated);
        }
        if end == name_start {
            return Err(TakeTagError::EmptyName);
        }
        let name = string_of(&chars, name_start, end);
        let tail = string_of(&chars, end + 1, chars.len());
        proof {
            let after = chars@.skip(name_start as int);
            assert(after.take(end - name_start) =~= chars@.subrange(name_start as int, end as int));
            assert(after.skip(end - name_start + 1) =~= chars@.subrange(
                end + 1,
                chars@.len() as int,
            ));
        }
        Ok((Tag { kind, name }, tail))
    }

    /// The tag as it is written: `<name>` or `</name>`.
    pub fn to_string(&self) -> (result: String)
        ensures
            result@ == tag_text(self.kind, self.name@),
    {
        let mut output = String::new();
        push_char(&mut output, '<');
        match self.kind {
            TagKind::Closing => push_char(&mut output, '/'),
            TagKind::Opening => {},
        }
        push_str(&mut output, self.name.as_str());
        push_char(&mut output, '>');
        proof {
            assert(output@ =~= tag_text(self.kind, self.name@));
        }
        output
    }
}

impl TakeTagError {
    /// What the error says.
    pub fn to_string(&self) -> (result: &'static str)
        ensures
            result@ == match *self {
                TakeTagError::ShapeMismatch => "the text does not begin with `<`"@,
                TakeTagError::Unterminated => "the tag is not terminated by `>`"@,
                TakeTagError::EmptyName => "the tag encloses no name"@,
            },
    {
        match self {
            TakeTagError::ShapeMismatch => "the text does not begin with `<`",
            TakeTagError::Unterminated => "the tag is not terminated by `>`",
            TakeTagError::EmptyName => "the tag encloses no name",
        }
    }
}

/// Reading a tag back from its written text gives the tag again, for any
/// name that holds no `>`.
pub proof fn lemma_tag_text_round_trip(kind: TagKind, name: Seq<char>, rest: Seq<char>)
    requires
        name.len() > 0,
        forall|i: int| 0 <= i < name.len() ==> name[i] != '>',
        kind == TagKind::Opening ==> name[0] != '/',
    ensures
        take_tag(tag_text(kind, name) + rest) == Ok::<
            (TagKind, Seq<char>, Seq<char>),
            TakeTagError,
        >((kind, name, rest)),
{
    let s = tag_text(kind, name) + rest;
    let k: int = if kind == TagKind::Closing {
        2
    } else {
        1
    };
    let after = s.skip(k);
    assert(after =~= name + seq!['>'] + rest);
    assert forall|i: int| 0 <= i < name.len() implies crate::text::not_char('>')(
        #[trigger] after[i],
    ) by {
        assert(after[i] == name[i]);
    }
    assert(after[name.len() as int] == '>');
    crate::text::lemma_prefix_len_is(after, crate::text::not_char('>'), name.len() as int);
    assert(after.take(name.len() as int) =~= name);
    assert(after.skip(name.len() + 1 as int) =~= rest);
}

} // verus!
