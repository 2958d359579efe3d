//! The presentation palette.
//!
//! Every song shares one palette for its class and voice markers. Both
//! renderers consult a [`StylePalette`] to map a class name or a voice
//! marker to its color and text decoration. A marker that a song declares
//! as a voice or a class but that the palette does not style is a
//! [`MissingStyle`] error rather than a silently plain render.

use crate::debug_text::{debug_char, debug_quoted, debug_quoted_char, debug_str};
use crate::descriptors::{distinct_keys, key_differs, keys_are_distinct, lookup, CssClassName, MarkerName};
use crate::text::{
    chars_of, is_control, is_ctrl, is_whitespace, is_ws, lemma_prefix_len, lemma_prefix_len_is, prefix_len,
    push_str,
};
use vstd::prelude::*;

verus! {

/// Whether `c` may not appear in a color: it would end a CSS declaration
/// or an HTML attribute, or it is a line separator or a control character.
pub open spec fn is_forbidden_color_char(c: char) -> bool {
    c == '<' || c == '>' || c == '"' || c == '\\' || c == '{' || c == '}' || c == ';' || c
        == '\u{2028}' || c == '\u{2029}' || is_ctrl(c)
}

/// The predicate that holds of a character a color may hold.
pub open spec fn allowed_color_char() -> spec_fn(char) -> bool {
    |c: char| !is_forbidden_color_char(c)
}

/// Why a text is not a color.
#[derive(Clone, Copy, Debug, PartialEq, Eq)]
#[non_exhaustive]
pub enum InvalidColor {
    /// The text is empty.
    Empty,
    /// The text opens or ends with whitespace.
    SurroundingWhitespace,
    /// The text holds this reserved character.
    ForbiddenCharacter(char),
}

/// Why `s` is not a color, if it is not one: it is empty, it opens or
/// ends with whitespace, or its first reserved character.
pub open spec fn color_error(s: Seq<char>) -> Option<InvalidColor> {
    if s.len() == 0 {
        Some(InvalidColor::Empty)
    } else if is_ws(s[0]) || is_ws(s.last()) {
        Some(InvalidColor::SurroundingWhitespace)
    } else {
        let k = prefix_len(s, allowed_color_char());
        if k < s.len() {
            Some(InvalidColor::ForbiddenCharacter(s[k as int]))
        } else {
            None
        }
    }
}

fn is_forbidden_color(c: char) -> (result: bool)
    ensures
        result == is_forbidden_color_char(c),
{
    c == '<' || c == '>' || c == '"' || c == '\\' || c == '{' || c == '}' || c == ';' || c
        == '\u{2028}' || c == '\u{2029}' || is_control(c)
}

/// A CSS color value that can stand in a `color: ...;` declaration and in
/// a `<font color="...">` attribute as it is.
#[derive(Debug, PartialEq, Eq)]
pub struct Color(String);

impl Color {
    #[verifier::type_invariant]
    spec fn valid(self) -> bool {
        color_error(self.0@) is None
    }
}

impl View for Color {
    type V = Seq<char>;

    closed spec fn view(&self) -> Seq<char> {
        self.0@
    }
}

impl Color {
    /// Wraps `source` if and only if it is a color.
    pub fn new(source: String) -> (result: Result<Color, InvalidColor>)
        ensures
            match color_error(source@) {
                Some(error) => result == Err::<Color, InvalidColor>(error),
                None => result matches Ok(color) && color@ == source@,
            },
    {
        let chars = chars_of(source.as_str());
        if chars.len() == 0 {
            return Err(InvalidColor::Empty);
        }
        if is_whitespace(chars[0]) || is_whitespace(chars[chars.len() - 1]) {
            return Err(InvalidColor::SurroundingWhitespace);
        }
        assert(chars@.last() == chars@[chars@.len() - 1]);
        let mut i: usize = 0;
        while i < chars.len()
            invariant
                i <= chars@.len(),
                chars@ == source@,
                chars@.len() > 0,
                !is_ws(chars@[0]),
                !is_ws(chars@.last()),
                forall|j: int| 0 <= j < i ==> allowed_color_char()(#[trigger] chars@[j]),
            decreases chars@.len() - i,
        {
            if is_forbidden_color(chars[i]) {
                proof {
                    assert(!allowed_color_char()(chars@[i as int]));
                    lemma_prefix_len_is(chars@, allowed_color_char(), i as int);
                }
                return Err(InvalidColor::ForbiddenCharacter(chars[i]));
            }
            i = i + 1;
        }
        proof {
            lemma_prefix_len_is(chars@, allowed_color_char(), i as int);
        }
        Ok(Color(source))
    }

    /// The color text.
    pub fn as_str(&self) -> (result: &str)
        ensures
            result@ == self@,
            color_error(self@) is None,
    {
        proof {
            use_type_invariant(self);
        }
        self.0.as_str()
    }

    /// A copy of the color.
    pub fn duplicate(&self) -> (result: Color)
        ensures
            result@ == self@,
    {
        proof {
            use_type_invariant(self);
        }
        Color(self.0.clone())
    }
}

/// Presentation attributes applied to a run of cue text.
#[derive(Debug, PartialEq, Eq)]
pub struct Style {
    /// The CSS color, if any.
    pub color: Option<Color>,
    /// Whether the run is set in italics.
    pub italic: bool,
    /// Whether the run is set in bold.
    pub bold: bool,
}

impl Style {
    /// A style with `color` and neither italics nor bold.
    pub fn color_only(color: Color) -> (result: Style)
        ensures
            result.color == Some(color),
            !result.italic,
            !result.bold,
    {
        Style { color: Some(color), italic: false, bold: false }
    }
}

/// The colors of the credit cells. Credit cells carry a color and no
/// decoration.
#[derive(Debug)]
pub struct CreditPalette {
    /// The color of the role cell.
    pub role: Color,
    /// The color of the name cell.
    pub name: Color,
    /// The color of a bracketed highlight.
    pub special: Color,
}

/// A marker declared by a song but missing from the palette.
#[derive(Debug, PartialEq, Eq)]
#[non_exhaustive]
pub enum MissingStyle {
    /// A voice marker the palette does not style.
    Voice(String),
    /// A class the palette does not style.
    Class(String),
}

/// What [`MissingStyle`] says, over its text.
pub enum StyleGap {
    Voice(Seq<char>),
    Class(Seq<char>),
}

impl View for MissingStyle {
    type V = StyleGap;

    open spec fn view(&self) -> StyleGap {
        match self {
            MissingStyle::Voice(marker) => StyleGap::Voice(marker@),
            MissingStyle::Class(class) => StyleGap::Class(class@),
        }
    }
}

/// The value of the first entry of `entries` whose class name is `key`.
pub open spec fn class_lookup<V>(entries: Seq<(CssClassName, V)>, key: Seq<char>) -> Option<V> {
    let k = prefix_len(entries, class_key_differs::<V>(key));
    if k < entries.len() {
        Some(entries[k as int].1)
    } else {
        None
    }
}

/// The predicate that holds of an entry whose class name is not `key`.
pub open spec fn class_key_differs<V>(key: Seq<char>) -> spec_fn((CssClassName, V)) -> bool {
    |entry: (CssClassName, V)| entry.0@ != key
}

/// Whether no two entries of `entries` have class names with the same
/// view, as in a map keyed by class name.
pub open spec fn distinct_classes<V>(entries: Seq<(CssClassName, V)>) -> bool {
    forall|i: int, j: int|
        0 <= i < j < entries.len() ==> #[trigger] entries[i].0@ != #[trigger] entries[j].0@
}

/// Whether no two entries of `entries` have class names with the same
/// text.
pub fn classes_are_distinct<V>(entries: &Vec<(CssClassName, V)>) -> (result: bool)
    ensures
        result == distinct_classes(entries@),
{
    let n = entries.len();
    let mut i: usize = 0;
    while i < n
        invariant
            n == entries@.len(),
            i <= n,
            forall|a: int, b: int|
                0 <= a < b < n && a < i ==> #[trigger] entries@[a].0@ != #[trigger] entries@[b].0@,
        decreases n - i,
    {
        let mut j: usize = i + 1;
        while j < n
            invariant
                n == entries@.len(),
                i < n,
                i + 1 <= j <= n,
                forall|a: int, b: int|
                    0 <= a < b < n && a < i ==> #[trigger] entries@[a].0@ != #[trigger] entries@[b].0@,
                forall|b: int| i < b < j ==> entries@[i as int].0@ != #[trigger] entries@[b].0@,
            decreases n - j,
        {
            if crate::text::same_text(entries[i].0.as_str(), entries[j].0.as_str()) {
                assert(entries@[i as int].0@ == entries@[j as int].0@);
                return false;
            }
            j = j + 1;
        }
        i = i + 1;
    }
    true
}

/// On entries with distinct class names, [`class_lookup`] finds the value
/// of the one entry with the name, as a map lookup does.
pub proof fn lemma_class_lookup_distinct<V>(entries: Seq<(CssClassName, V)>, i: int)
    requires
        distinct_classes(entries),
        0 <= i < entries.len(),
    ensures
        class_lookup(entries, entries[i].0@) == Some(entries[i].1),
{
    let p = class_key_differs::<V>(entries[i].0@);
    lemma_prefix_len(entries, p);
    assert(!p(entries[i]));
    let k = prefix_len(entries, p) as int;
    if k < i {
        assert(!p(entries[k]));
        assert(entries[k].0@ != entries[i].0@);
    }
}

/// The presentation palette: the credit colors, and a style per voice
/// marker and per class name, each key at most once.
#[derive(Debug)]
pub struct StylePalette {
    /// The colors of the credit cells.
    pub credit: CreditPalette,
    /// The style of each voice marker, keyed by the marker.
    pub voices: Vec<(MarkerName, Style)>,
    /// The style of each named class, keyed by the class name.
    pub classes: Vec<(CssClassName, Style)>,
}

impl StylePalette {
    /// Whether each voice marker and each class name is styled at most
    /// once, as in the palette's file.
    pub open spec fn wf(self) -> bool {
        distinct_keys(self.voices@) && distinct_classes(self.classes@)
    }

    /// Whether the palette is well formed: no voice marker and no class
    /// name is styled twice.
    pub fn is_well_formed(&self) -> (result: bool)
        ensures
            result == self.wf(),
    {
        keys_are_distinct(&self.voices) && classes_are_distinct(&self.classes)
    }

    /// The style of the voice marker `marker`; a marker the palette does
    /// not style is an error that names it.
    pub fn voice_style(&self, marker: &str) -> (result: Result<&Style, MissingStyle>)
        ensures
            match lookup(self.voices@, marker@) {
                Some(style) => result == Ok::<&Style, MissingStyle>(&style),
                None => result matches Err(error) && error@ == StyleGap::Voice(marker@),
            },
    {
        let ghost p = key_differs::<Style>(marker@);
        let mut i: usize = 0;
        while i < self.voices.len()
            invariant
                i <= self.voices@.len(),
                p == key_differs::<Style>(marker@),
                forall|j: int| 0 <= j < i ==> p(#[trigger] self.voices@[j]),
            decreases self.voices@.len() - i,
        {
            if crate::text::same_text(self.voices[i].0.as_str(), marker) {
                proof {
                    lemma_prefix_len_is(self.voices@, p, i as int);
                }
                return Ok(&self.voices[i].1);
            }
            i = i + 1;
        }
        proof {
            lemma_prefix_len_is(self.voices@, p, i as int);
        }
        let mut name = String::new();
        push_str(&mut name, marker);
        Err(MissingStyle::Voice(name))
    }

    /// The style of the class `class_name`; a class the palette does not
    /// style is an error that names it.
    pub fn class_style(&self, class_name: &CssClassName) -> (result: Result<&Style, MissingStyle>)
        ensures
            match class_lookup(self.classes@, class_name@) {
                Some(style) => result == Ok::<&Style, MissingStyle>(&style),
                None => result matches Err(error) && error@ == StyleGap::Class(class_name@),
            },
    {
        let ghost p = class_key_differs::<Style>(class_name@);
        let mut i: usize = 0;
        while i < self.classes.len()
            invariant
                i <= self.classes@.len(),
                p == class_key_differs::<Style>(class_name@),
                forall|j: int| 0 <= j < i ==> p(#[trigger] self.classes@[j]),
            decreases self.classes@.len() - i,
        {
            if crate::text::same_text(self.classes[i].0.as_str(), class_name.as_str()) {
                proof {
                    lemma_prefix_len_is(self.classes@, p, i as int);
                }
                return Ok(&self.classes[i].1);
            }
            i = i + 1;
        }
        proof {
            lemma_prefix_len_is(self.classes@, p, i as int);
        }
        let mut name = String::new();
        push_str(&mut name, class_name.as_str());
        Err(MissingStyle::Class(name))
    }
}

/// What a missing-style error says: the marker or class, quoted as
/// written.
pub open spec fn style_gap_message(gap: StyleGap) -> Seq<char> {
    match gap {
        StyleGap::Voice(marker) => "no style is defined for voice marker "@ + debug_str(marker)
            + " in the palette"@,
        StyleGap::Class(class) => "no style is defined for class "@ + debug_str(class)
            + " in the palette"@,
    }
}

impl MissingStyle {
    /// What the error says: the marker or class, quoted as written.
    pub fn to_string(&self) -> (result: String)
        ensures
            result@ == style_gap_message(self@),
    {
        let mut output = String::new();
        match self {
            MissingStyle::Voice(marker) => {
                push_str(&mut output, "no style is defined for voice marker ");
                let quoted = debug_quoted(marker.as_str());
                push_str(&mut output, quoted.as_str());
            },
            MissingStyle::Class(class) => {
                push_str(&mut output, "no style is defined for class ");
                let quoted = debug_quoted(class.as_str());
                push_str(&mut output, quoted.as_str());
            },
        }
        push_str(&mut output, " in the palette");
        output
    }
}

impl InvalidColor {
    /// What the error says.
    pub fn to_string(&self) -> (result: String)
        ensures
            result@ == match *self {
                InvalidColor::Empty => "color must not be empty"@,
                InvalidColor::SurroundingWhitespace => "color must not have leading or trailing whitespace"@,
                InvalidColor::ForbiddenCharacter(c) => "color must not contain the reserved character "@
                    + debug_char(c)
                    + "; CSS and HTML reserve angle brackets, the double quote, the backslash, braces, the semicolon, line separators, and control characters"@,
            },
    {
        let mut output = String::new();
        match self {
            InvalidColor::Empty => push_str(&mut output, "color must not be empty"),
            InvalidColor::SurroundingWhitespace => push_str(
                &mut output,
                "color must not have leading or trailing whitespace",
            ),
            InvalidColor::ForbiddenCharacter(c) => {
                push_str(&mut output, "color must not contain the reserved character ");
                let quoted = debug_quoted_char(*c);
                push_str(&mut output, quoted.as_str());
                push_str(
                    &mut output,
                    "; CSS and HTML reserve angle brackets, the double quote, the backslash, braces, the semicolon, line separators, and control characters",
                );
            },
        }
        output
    }
}

} // verus!
