//! What the diagnostics of the timestamp, descriptor and lyrics parsers
//! say, as the text a user reads.

use crate::debug_text::{debug_char, debug_quoted, debug_quoted_char, debug_str};
use crate::descriptors::{
    reserved_token, InvalidCssClassName, InvalidMarkerName, InvalidVoiceName, ReservedMarker,
};
use crate::parse_error::{AdditiveRegionError, LineNumber, ParseLyricsError, ParseLyricsErrorKind};
use crate::text::{push_char, push_str};
use crate::timestamp::{
    decimal, decimal_padded, push_decimal, render_mm_ss_mmm, ParseTimestampError,
    TakeTimestampError,
};
use vstd::prelude::*;

verus! {

/// Appends the decimal representation of `n`.
fn push_number(output: &mut String, n: u64)
    ensures
        final(output)@ == old(output)@ + decimal(n as nat),
{
    push_decimal(output, n, 0);
    proof {
        assert(decimal_padded(n as nat, 0) == decimal(n as nat));
    }
}

/// Appends `text` quoted as `Debug` quotes it.
fn push_quoted(output: &mut String, text: &str)
    ensures
        final(output)@ == old(output)@ + debug_str(text@),
{
    let quoted = debug_quoted(text);
    push_str(output, quoted.as_str());
}

/// Appends `c` quoted as `Debug` quotes it.
fn push_quoted_char(output: &mut String, c: char)
    ensures
        final(output)@ == old(output)@ + debug_char(c),
{
    let quoted = debug_quoted_char(c);
    push_str(output, quoted.as_str());
}

impl LineNumber {
    /// The number, in decimal.
    pub fn to_string(&self) -> (result: String)
        ensures
            result@ == decimal(self@),
    {
        let mut output = String::new();
        push_number(&mut output, self.get() as u64);
        output
    }
}

/// What a timestamp whose `field` (`minutes` or `seconds`) is out of
/// range says.
pub open spec fn out_of_range_message(raw: Seq<char>, field: Seq<char>, value: u64) -> Seq<char> {
    "invalid timestamp "@ + debug_str(raw) + ": "@ + field + " component "@ + decimal(value as nat)
        + " must be less than 60"@
}

/// What a failed timestamp read says.
pub open spec fn take_timestamp_message(error: TakeTimestampError) -> Seq<char> {
    match error {
        TakeTimestampError::ShapeMismatch => "input does not begin with an MM:SS.mmm timestamp"@,
        TakeTimestampError::MinutesOutOfRange(p) => out_of_range_message(p.raw@, "minutes"@, p.value),
        TakeTimestampError::SecondsOutOfRange(p) => out_of_range_message(p.raw@, "seconds"@, p.value),
    }
}

/// Appends what a timestamp whose `field` is out of range says.
fn push_out_of_range(output: &mut String, raw: &str, field: &str, value: u64)
    ensures
        final(output)@ == old(output)@ + out_of_range_message(raw@, field@, value),
{
    let ghost start = output@;
    push_str(output, "invalid timestamp ");
    push_quoted(output, raw);
    push_str(output, ": ");
    push_str(output, field);
    push_str(output, " component ");
    push_number(output, value);
    push_str(output, " must be less than 60");
    proof {
        assert(output@ =~= start + out_of_range_message(raw@, field@, value));
    }
}

impl TakeTimestampError {
    /// What the error says.
    pub fn to_string(&self) -> (result: String)
        ensures
            result@ == take_timestamp_message(*self),
    {
        let mut output = String::new();
        match self {
            TakeTimestampError::ShapeMismatch => {
                push_str(&mut output, "input does not begin with an MM:SS.mmm timestamp");
            },
            TakeTimestampError::MinutesOutOfRange(p) => {
                push_out_of_range(&mut output, p.raw.as_str(), "minutes", p.value);
            },
            TakeTimestampError::SecondsOutOfRange(p) => {
                push_out_of_range(&mut output, p.raw.as_str(), "seconds", p.value);
            },
        }
        proof {
            assert(output@ =~= take_timestamp_message(*self));
        }
        output
    }
}

impl ParseTimestampError {
    /// What the error says.
    pub fn to_string(&self) -> (result: String)
        ensures
            result@ == match *self {
                ParseTimestampError::ShapeMismatch => "input does not begin with an MM:SS.mmm timestamp"@,
                ParseTimestampError::MinutesOutOfRange(p) => out_of_range_message(
                    p.raw@,
                    "minutes"@,
                    p.value,
                ),
                ParseTimestampError::SecondsOutOfRange(p) => out_of_range_message(
                    p.raw@,
                    "seconds"@,
                    p.value,
                ),
                ParseTimestampError::UnexpectedCharacter(c) => "unexpected character "@ + debug_char(
                    c,
                ) + " after the `MM:SS.mmm` prefix; `FromStr` requires end of input there"@,
            },
    {
        let mut output = String::new();
        match self {
            ParseTimestampError::ShapeMismatch => {
                push_str(&mut output, "input does not begin with an MM:SS.mmm timestamp");
            },
            ParseTimestampError::MinutesOutOfRange(p) => {
                push_out_of_range(&mut output, p.raw.as_str(), "minutes", p.value);
            },
            ParseTimestampError::SecondsOutOfRange(p) => {
                push_out_of_range(&mut output, p.raw.as_str(), "seconds", p.value);
            },
            ParseTimestampError::UnexpectedCharacter(c) => {
                push_str(&mut output, "unexpected character ");
                push_quoted_char(&mut output, *c);
                push_str(
                    &mut output,
                    " after the `MM:SS.mmm` prefix; `FromStr` requires end of input there",
                );
            },
        }
        proof {
            assert(output@ =~= match *self {
                ParseTimestampError::ShapeMismatch => "input does not begin with an MM:SS.mmm timestamp"@,
                ParseTimestampError::MinutesOutOfRange(p) => out_of_range_message(
                    p.raw@,
                    "minutes"@,
                    p.value,
                ),
                ParseTimestampError::SecondsOutOfRange(p) => out_of_range_message(
                    p.raw@,
                    "seconds"@,
                    p.value,
                ),
                ParseTimestampError::UnexpectedCharacter(c) => "unexpected character "@ + debug_char(
                    c,
                ) + " after the `MM:SS.mmm` prefix; `FromStr` requires end of input there"@,
            });
        }
        output
    }
}

impl InvalidMarkerName {
    /// What the error says.
    pub fn to_string(&self) -> (result: String)
        ensures
            match *self {
                InvalidMarkerName::Reserved(marker) => result@ == "marker name `"@ + reserved_token(
                    marker,
                ) + "` is reserved by the parser and must not be declared"@,
            },
    {
        let mut output = String::new();
        match self {
            InvalidMarkerName::Reserved(marker) => {
                push_str(&mut output, "marker name `");
                push_str(&mut output, marker.as_str());
                push_str(&mut output, "` is reserved by the parser and must not be declared");
            },
        }
        output
    }
}

impl InvalidVoiceName {
    /// What the error says.
    pub fn to_string(&self) -> (result: String)
        ensures
            result@ == match *self {
                InvalidVoiceName::Empty => "voice name must not be empty"@,
                InvalidVoiceName::ForbiddenCharacter(c) => "voice name must not contain "@
                    + debug_char(c)
                    + "; `<`, `>`, `\"`, `\\`, line separators, and control characters are reserved by WebVTT and CSS"@,
            },
    {
        let mut output = String::new();
        match self {
            InvalidVoiceName::Empty => push_str(&mut output, "voice name must not be empty"),
            InvalidVoiceName::ForbiddenCharacter(c) => {
                push_str(&mut output, "voice name must not contain ");
                push_quoted_char(&mut output, *c);
                push_str(
                    &mut output,
                    "; `<`, `>`, `\"`, `\\`, line separators, and control characters are reserved by WebVTT and CSS",
                );
            },
        }
        output
    }
}

impl InvalidCssClassName {
    /// What the error says.
    pub fn to_string(&self) -> (result: String)
        ensures
            result@ == match *self {
                InvalidCssClassName::Empty => "class name must not be empty"@,
                InvalidCssClassName::InvalidLeadingCharacter(c) => "class name must begin with an ASCII letter or `_`, got "@
                    + debug_char(c),
                InvalidCssClassName::InvalidCharacter(c) => "class name must contain only ASCII letters, digits, `-`, and `_`, got "@
                    + debug_char(c),
            },
    {
        let mut output = String::new();
        match self {
            InvalidCssClassName::Empty => push_str(&mut output, "class name must not be empty"),
            InvalidCssClassName::InvalidLeadingCharacter(c) => {
                push_str(&mut output, "class name must begin with an ASCII letter or `_`, got ");
                push_quoted_char(&mut output, *c);
            },
            InvalidCssClassName::InvalidCharacter(c) => {
                push_str(
                    &mut output,
                    "class name must contain only ASCII letters, digits, `-`, and `_`, got ",
                );
                push_quoted_char(&mut output, *c);
            },
        }
        output
    }
}

/// What a malformed additive region says.
pub open spec fn region_message(error: AdditiveRegionError) -> Seq<char> {
    match error {
        AdditiveRegionError::Nested(p) => "`<additive>` opens an additive region inside the one opened on line "@
            + decimal(p.opened_at@),
        AdditiveRegionError::Unopened(_) => "stray `</additive>`"@,
        AdditiveRegionError::Unclosed(_) => "unclosed `<additive>`"@,
        AdditiveRegionError::Empty(p) => "the additive region opened on line "@ + decimal(
            p.opened_at@,
        ) + " encloses no cue"@,
        AdditiveRegionError::ControlMarker(p) => "control marker `"@ + reserved_token(p.marker)
            + "` appears inside the additive region opened on line "@ + decimal(p.opened_at@)
            + "; close the region before the marker"@,
    }
}

/// What a diagnostic of the lyrics parser says, after its location.
pub open spec fn kind_message(kind: ParseLyricsErrorKind) -> Seq<char> {
    match kind {
        ParseLyricsErrorKind::TabIndentation(_) => "indentation contains a tab; only ASCII spaces are allowed in leading whitespace"@,
        ParseLyricsErrorKind::MalformedIndentation(p) => "indent of "@ + decimal(p.actual as nat)
            + " space(s) matches no expected width; expected "@ + decimal(p.shorthand_indent as nat)
            + " for a shorthand marker line"@ + match p.continuation_indent {
            Some(width) => " or "@ + decimal(width as nat) + " for a continuation of the current marker"@,
            None => Seq::empty(),
        },
        ParseLyricsErrorKind::MalformedHeader(p) => "header line "@ + debug_str(p.content@)
            + " does not begin with an `MM:SS.mmm` timestamp"@,
        ParseLyricsErrorKind::MalformedTagLine(p) => debug_str(p.content@)
            + " is not a tag line; a tag line reads exactly `<additive>` or `</additive>`"@,
        ParseLyricsErrorKind::AdditiveRegion(e) => region_message(e),
        ParseLyricsErrorKind::InvalidTimestamp(p) => take_timestamp_message(p.cause),
        ParseLyricsErrorKind::MissingSeparatorAfterTimestamp(p) => "timestamp in "@ + debug_str(
            p.content@,
        ) + " is not followed by whitespace"@,
        ParseLyricsErrorKind::ExtraTextAfterControlMarker(p) => "control marker `"@ + reserved_token(
            p.marker,
        ) + "` must stand alone but is followed by "@ + debug_str(p.trailing@),
        ParseLyricsErrorKind::RepeatedTimestamp(p) => "timestamp "@ + render_mm_ss_mmm(p.start@)
            + " repeats the start time of the immediately previous event; use the column-10 shorthand to attach a second marker to the same timestamp"@,
        ParseLyricsErrorKind::OutOfOrder(p) => "events out of order: event at "@ + render_mm_ss_mmm(
            p.previous@,
        ) + " is followed by an earlier event at "@ + render_mm_ss_mmm(p.next@),
        ParseLyricsErrorKind::CueTextReservedCharacter(p) => "cue text contains "@ + debug_char(
            p.character,
        ) + ", which the WebVTT cue-tag grammar reserves for tag delimiters"@,
        ParseLyricsErrorKind::MissingMarker(p) => "cue body "@ + debug_str(p.content@)
            + " carries no marker before the `:` separator"@,
        ParseLyricsErrorKind::ReservedControlMarker(p) => "marker `"@ + reserved_token(p.marker)
            + "` is reserved by the parser and cannot name a cue"@,
        ParseLyricsErrorKind::EmptyCueBody(p) => "cue with marker "@ + debug_str(p.marker@)
            + " has an empty body"@,
        ParseLyricsErrorKind::EmptyAnnotation(_) => "annotation marker `ann` has an empty body"@,
        ParseLyricsErrorKind::OrphanedShorthandMarker(p) => "shorthand marker line "@ + debug_str(
            p.content@,
        ) + " appears before any timestamp opens a cue"@,
        ParseLyricsErrorKind::OrphanedAnnotation(p) => "annotation line "@ + debug_str(p.content@)
            + " appears where no cue is open"@,
        ParseLyricsErrorKind::UnclosedCue(p) => "cue at "@ + render_mm_ss_mmm(p.start@)
            + " has no following cue or `clr`"@,
    }
}

impl AdditiveRegionError {
    /// What the error says.
    pub fn to_string(&self) -> (result: String)
        ensures
            result@ == region_message(*self),
    {
        let mut output = String::new();
        match self {
            AdditiveRegionError::Nested(p) => {
                push_str(
                    &mut output,
                    "`<additive>` opens an additive region inside the one opened on line ",
                );
                push_number(&mut output, p.opened_at.get() as u64);
            },
            AdditiveRegionError::Unopened(_) => push_str(&mut output, "stray `</additive>`"),
            AdditiveRegionError::Unclosed(_) => push_str(&mut output, "unclosed `<additive>`"),
            AdditiveRegionError::Empty(p) => {
                push_str(&mut output, "the additive region opened on line ");
                push_number(&mut output, p.opened_at.get() as u64);
                push_str(&mut output, " encloses no cue");
            },
            AdditiveRegionError::ControlMarker(p) => {
                push_str(&mut output, "control marker `");
                push_str(&mut output, p.marker.as_str());
                push_str(&mut output, "` appears inside the additive region opened on line ");
                push_number(&mut output, p.opened_at.get() as u64);
                push_str(&mut output, "; close the region before the marker");
            },
        }
        proof {
            assert(output@ =~= region_message(*self));
        }
        output
    }
}

/// Appends what a parser diagnostic says, after its location.
fn push_kind_message(output: &mut String, kind: &ParseLyricsErrorKind)
    ensures
        final(output)@ == old(output)@ + kind_message(*kind),
{
    let ghost start = output@;
    match kind {
        ParseLyricsErrorKind::TabIndentation(_) => push_str(
            output,
            "indentation contains a tab; only ASCII spaces are allowed in leading whitespace",
        ),
        ParseLyricsErrorKind::MalformedIndentation(p) => {
            push_str(output, "indent of ");
            push_number(output, p.actual as u64);
            push_str(output, " space(s) matches no expected width; expected ");
            push_number(output, p.shorthand_indent as u64);
            push_str(output, " for a shorthand marker line");
            match p.continuation_indent {
                Some(width) => {
                    push_str(output, " or ");
                    push_number(output, width as u64);
                    push_str(output, " for a continuation of the current marker");
                },
                None => {},
            }
        },
        ParseLyricsErrorKind::MalformedHeader(p) => {
            push_str(output, "header line ");
            push_quoted(output, p.content.as_str());
            push_str(output, " does not begin with an `MM:SS.mmm` timestamp");
        },
        ParseLyricsErrorKind::MalformedTagLine(p) => {
            push_quoted(output, p.content.as_str());
            push_str(
                output,
                " is not a tag line; a tag line reads exactly `<additive>` or `</additive>`",
            );
        },
        ParseLyricsErrorKind::AdditiveRegion(e) => {
            let text = e.to_string();
            push_str(output, text.as_str());
        },
        ParseLyricsErrorKind::InvalidTimestamp(p) => {
            let text = p.cause.to_string();
            push_str(output, text.as_str());
        },
        ParseLyricsErrorKind::MissingSeparatorAfterTimestamp(p) => {
            push_str(output, "timestamp in ");
            push_quoted(output, p.content.as_str());
            push_str(output, " is not followed by whitespace");
        },
        ParseLyricsErrorKind::ExtraTextAfterControlMarker(p) => {
            push_str(output, "control marker `");
            push_str(output, p.marker.as_str());
            push_str(output, "` must stand alone but is followed by ");
            push_quoted(output, p.trailing.as_str());
        },
        ParseLyricsErrorKind::RepeatedTimestamp(p) => {
            push_str(output, "timestamp ");
            let text = p.start.to_string();
            push_str(output, text.as_str());
            push_str(
                output,
                " repeats the start time of the immediately previous event; use the column-10 shorthand to attach a second marker to the same timestamp",
            );
        },
        ParseLyricsErrorKind::OutOfOrder(p) => {
            push_str(output, "events out of order: event at ");
            let previous = p.previous.to_string();
            push_str(output, previous.as_str());
            push_str(output, " is followed by an earlier event at ");
            let next = p.next.to_string();
            push_str(output, next.as_str());
        },
        ParseLyricsErrorKind::CueTextReservedCharacter(p) => {
            push_str(output, "cue text contains ");
            push_quoted_char(output, p.character);
            push_str(output, ", which the WebVTT cue-tag grammar reserves for tag delimiters");
        },
        ParseLyricsErrorKind::MissingMarker(p) => {
            push_str(output, "cue body ");
            push_quoted(output, p.content.as_str());
            push_str(output, " carries no marker before the `:` separator");
        },
        ParseLyricsErrorKind::ReservedControlMarker(p) => {
            push_str(output, "marker `");
            push_str(output, p.marker.as_str());
            push_str(output, "` is reserved by the parser and cannot name a cue");
        },
        ParseLyricsErrorKind::EmptyCueBody(p) => {
            push_str(output, "cue with marker ");
            push_quoted(output, p.marker.as_str());
            push_str(output, " has an empty body");
        },
        ParseLyricsErrorKind::EmptyAnnotation(_) => push_str(
            output,
            "annotation marker `ann` has an empty body",
        ),
        ParseLyricsErrorKind::OrphanedShorthandMarker(p) => {
            push_str(output, "shorthand marker line ");
            push_quoted(output, p.content.as_str());
            push_str(output, " appears before any timestamp opens a cue");
        },
        ParseLyricsErrorKind::OrphanedAnnotation(p) => {
            push_str(output, "annotation line ");
            push_quoted(output, p.content.as_str());
            push_str(output, " appears where no cue is open");
        },
        ParseLyricsErrorKind::UnclosedCue(p) => {
            push_str(output, "cue at ");
            let text = p.start.to_string();
            push_str(output, text.as_str());
            push_str(output, " has no following cue or `clr`");
        },
    }
    proof {
        assert(output@ =~= start + kind_message(*kind));
    }
}

impl ParseLyricsErrorKind {
    /// What the diagnostic says, after its location.
    pub fn to_string(&self) -> (result: String)
        ensures
            result@ == kind_message(*self),
    {
        let mut output = String::new();
        push_kind_message(&mut output, self);
        output
    }
}

impl ParseLyricsError {
    /// What the diagnostic says: `line N: ` and then what its kind says.
    pub fn to_string(&self) -> (result: String)
        ensures
            result@ == "line "@ + decimal(self.line_number@) + ": "@ + kind_message(self.kind),
    {
        let mut output = String::new();
        push_str(&mut output, "line ");
        push_number(&mut output, self.line_number.get() as u64);
        push_str(&mut output, ": ");
        push_kind_message(&mut output, &self.kind);
        output
    }
}

} // verus!
