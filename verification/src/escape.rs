//! Text-to-tag-body helpers shared by the SubRip and WebVTT renderers.
//!
//! [`Escaped`] writes text with `<`, `>` and `&` replaced by the entity
//! references `&lt;`, `&gt;` and `&amp;`, so that source text placed in a
//! tag body can neither close the tag nor open an entity reference.
//! [`append_separator_for_output`] writes a colon-free separator taken
//! from a credit line: a run of ASCII spaces and tabs as it stands, any
//! other shape as one space.

use crate::text::{chars_of, push_char, push_str};
use vstd::prelude::*;

verus! {

/// What one character of text becomes in a tag body.
pub open spec fn escape_char(c: char) -> Seq<char> {
    if c == '<' {
        seq!['&', 'l', 't', ';']
    } else if c == '>' {
        seq!['&', 'g', 't', ';']
    } else if c == '&' {
        seq!['&', 'a', 'm', 'p', ';']
    } else {
        seq![c]
    }
}

/// The escaped form of `s`, character by character.
pub open spec fn escape_html(s: Seq<char>) -> Seq<char>
    decreases s.len(),
{
    if s.len() == 0 {
        Seq::empty()
    } else {
        escape_html(s.drop_last()) + escape_char(s.last())
    }
}

/// Whether `raw` is a non-empty run of ASCII spaces and tabs.
pub open spec fn is_ascii_gutter(raw: Seq<char>) -> bool {
    raw.len() > 0 && forall|i: int| 0 <= i < raw.len() ==> raw[i] == ' ' || raw[i] == '\t'
}

/// What a colon-free separator becomes in the output.
pub open spec fn separator_output(raw: Seq<char>) -> Seq<char> {
    if is_ascii_gutter(raw) {
        raw
    } else {
        seq![' ']
    }
}

/// Text to be written in its escaped form.
pub struct Escaped<'a>(pub &'a str);

impl<'a> Escaped<'a> {
    /// Appends the escaped text to `output`.
    pub fn write_to(&self, output: &mut String)
        ensures
            final(output)@ == old(output)@ + escape_html(self.0@),
    {
        let chars = chars_of(self.0);
        let mut i: usize = 0;
        while i < chars.len()
            invariant
                i <= chars@.len(),
                chars@ == self.0@,
                output@ == old(output)@ + escape_html(chars@.take(i as int)),
            decreases chars@.len() - i,
        {
            let ghost before = output@;
            let c = chars[i];
            if c == '<' {
                push_str(output, "&lt;");
                proof {
                    reveal_strlit("&lt;");
                }
            } else if c == '>' {
                push_str(output, "&gt;");
                proof {
                    reveal_strlit("&gt;");
                }
            } else if c == '&' {
                push_str(output, "&amp;");
                proof {
                    reveal_strlit("&amp;");
                }
            } else {
                push_char(output, c);
            }
            proof {
                let t = chars@.take(i + 1);
                assert(t.drop_last() =~= chars@.take(i as int));
                assert(t.last() == c);
                assert(output@ =~= before + escape_char(c));
            }
            i = i + 1;
        }
        proof {
            assert(chars@.take(chars@.len() as int) =~= chars@);
        }
    }

    /// The escaped text.
    pub fn to_string(&self) -> (result: String)
        ensures
            result@ == escape_html(self.0@),
    {
        let mut output = String::new();
        self.write_to(&mut output);
        proof {
            assert(Seq::<char>::empty() + escape_html(self.0@) =~= escape_html(self.0@));
        }
        output
    }
}

/// Appends a colon-free credit separator to `output`: a non-empty run of
/// ASCII spaces and tabs as it stands, anything else as one space.
pub fn append_separator_for_output(output: &mut String, raw: &str)
    ensures
        final(output)@ == old(output)@ + separator_output(raw@),
{
    let chars = chars_of(raw);
    let mut gutter = chars.len() > 0;
    let mut i: usize = 0;
    while i < chars.len()
        invariant
            i <= chars@.len(),
            chars@ == raw@,
            gutter == (chars@.len() > 0 && forall|j: int|
                0 <= j < i ==> chars@[j] == ' ' || chars@[j] == '\t'),
        decreases chars@.len() - i,
    {
        if chars[i] != ' ' && chars[i] != '\t' {
            gutter = false;
        }
        i = i + 1;
    }
    if gutter {
        push_str(output, raw);
    } else {
        push_char(output, ' ');
    }
}

/// The escaped form of a text holds no angle bracket, so it cannot end or
/// open a tag.
pub proof fn lemma_escaped_has_no_angle_brackets(s: Seq<char>)
    ensures
        forall|i: int| 0 <= i < escape_html(s).len() ==> escape_html(s)[i] != '<' && escape_html(
            s,
        )[i] != '>',
    decreases s.len(),
{
    if s.len() > 0 {
        lemma_escaped_has_no_angle_brackets(s.drop_last());
        let e = escape_html(s.drop_last());
        let c = escape_char(s.last());
        assert forall|i: int| 0 <= i < escape_html(s).len() implies escape_html(s)[i] != '<'
            && escape_html(s)[i] != '>' by {
            if i >= e.len() {
                assert(escape_html(s)[i] == c[i - e.len()]);
            } else {
                assert(escape_html(s)[i] == e[i]);
            }
        }
    }
}

/// Text with no `<`, `>` or `&` is its own escaped form.
pub proof fn lemma_escape_plain_text(s: Seq<char>)
    requires
        forall|i: int| 0 <= i < s.len() ==> s[i] != '<' && s[i] != '>' && s[i] != '&',
    ensures
        escape_html(s) == s,
    decreases s.len(),
{
    if s.len() > 0 {
        lemma_escape_plain_text(s.drop_last());
        assert(s.drop_last() + seq![s.last()] =~= s);
    }
}

/// Escaping text written in two pieces is escaping each piece.
pub proof fn lemma_escape_append(a: Seq<char>, b: Seq<char>)
    ensures
        escape_html(a + b) == escape_html(a) + escape_html(b),
    decreases b.len(),
{
    if b.len() == 0 {
        assert(a + b =~= a);
        assert(escape_html(a) + escape_html(b) =~= escape_html(a));
    } else {
        assert((a + b).drop_last() =~= a + b.drop_last());
        lemma_escape_append(a, b.drop_last());
        assert(escape_html(a) + escape_html(b.drop_last()) + escape_char(b.last()) =~= escape_html(
            a,
        ) + (escape_html(b.drop_last()) + escape_char(b.last())));
    }
}

} // verus!
