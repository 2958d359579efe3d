#![allow(unused_imports)]

use lyrics::descriptors::{MarkerName, ReservedMarker};
use lyrics::parse::{parse_lyrics, CuePart, SubtitleCue};
use lyrics::parse_error::{
    AdditiveRegionError, ControlMarkerInRegion, CueTextReservedCharacter, EmptyAnnotation,
    EmptyCueBody, EmptyRegion, ExtraTextAfterControlMarker, InvalidTimestamp, LineNumber,
    MalformedHeader, MalformedIndentation, MalformedTagLine, MissingMarker,
    MissingSeparatorAfterTimestamp, NestedRegion, OrphanedAnnotation, OrphanedShorthandMarker,
    OutOfOrder, ParseLyricsError, ParseLyricsErrorKind, RepeatedTimestamp, ReservedControlMarker,
    TabIndentation, UnclosedCue, UnclosedRegion, UnopenedRegion,
};
use lyrics::tag_name::{ClosingTag, OpeningTag, TagName};
use lyrics::timestamp::{MinutesOutOfRange, SecondsOutOfRange, TakeTimestampError, Timestamp};
use pipe_trait::Pipe;

/// The lines joined by line breaks, each line ending in one.
fn block_fnl(lines: &[&str]) -> &'static str {
    let mut text = String::new();
    for line in lines {
        text.push_str(line);
        text.push('\n');
    }
    Box::leak(text.into_boxed_str())
}

/// The lines joined by line breaks.
fn block(lines: &[&str]) -> &'static str {
    Box::leak(lines.join("\n").into_boxed_str())
}

/// A diagnostic at line `line`.
fn err(line: LineNumber, kind: ParseLyricsErrorKind) -> ParseLyricsError {
    ParseLyricsError { line_number: line, kind }
}

/// A marker name the fixtures know to be valid.
fn marker_name(text: &str) -> MarkerName {
    MarkerName::new(text.to_string()).expect("test fixture passes the marker-name validator")
}



/// A payload with no fields of its own still renders with the
/// location, because the location is no longer the payload's to
/// carry.
#[test]
fn a_field_less_kind_renders_with_the_location_prefix() {
    let error = ParseLyricsError {
        line_number: LineNumber::new(7),
        kind: TabIndentation.pipe(ParseLyricsErrorKind::TabIndentation),
    };
    assert_eq!(
        error.to_string(),
        "line 7: indentation contains a tab; only ASCII spaces are allowed in leading whitespace",
    );
}

/// A payload that names another line keeps that number in its own
/// message. The two read as the position at which the parser gave up
/// and the line that message points back at.
#[test]
fn a_kind_naming_another_line_keeps_both_numbers() {
    let error = ParseLyricsError {
        line_number: LineNumber::new(9),
        kind: 4
            .pipe(|opened_at: usize| EmptyRegion { opened_at: LineNumber::new(opened_at) })
            .pipe(AdditiveRegionError::Empty)
            .pipe(ParseLyricsErrorKind::AdditiveRegion),
    };
    assert_eq!(
        error.to_string(),
        "line 9: the additive region opened on line 4 encloses no cue",
    );
}

/// [`MalformedIndentation`] writes its own `Display` rather than
/// deriving one, so the prefix has to reach it the same way it
/// reaches the derived kinds.
#[test]
fn a_hand_written_kind_takes_the_same_prefix() {
    let error = ParseLyricsError {
        line_number: LineNumber::new(3),
        kind: MalformedIndentation {
            actual: 12,
            shorthand_indent: 10,
            continuation_indent: Some(15),
        }
        .pipe(ParseLyricsErrorKind::MalformedIndentation),
    };
    assert_eq!(
        error.to_string(),
        "line 3: indent of 12 space(s) matches no expected width; \
        expected 10 for a shorthand marker line \
        or 15 for a continuation of the current marker",
    );
}



/// The first line of a file is line one, so a zero-based index and the line
/// number naming it are one apart. The conversion lives in one place, which
/// is what keeps a zero-based position out of a diagnostic.
#[test]
fn an_index_names_the_line_after_it() {
    assert_eq!(LineNumber::from_index(0), LineNumber::new(1));
    assert_eq!(LineNumber::from_index(41), LineNumber::new(42));
}

/// A line number renders as the bare number, so a diagnostic written as
/// `line {line_number}:` prints the text it always has.
#[test]
fn a_line_number_renders_as_its_number() {
    assert_eq!(LineNumber::new(7).to_string(), "7");
    assert_eq!(format!("line {}:", LineNumber::from_index(0).to_string()), "line 1:");
}
