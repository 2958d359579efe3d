//! The diagnostics of the lyrics parser: a [`ParseLyricsError`] names the
//! line at which the parser gave up and a [`ParseLyricsErrorKind`] saying
//! why, each kind carrying the context its message needs.

use crate::descriptors::{MarkerName, ReservedMarker};
use crate::timestamp::{TakeOutcome, TakeTimestampError, Timestamp};
use vstd::prelude::*;

verus! {

/// A one-based line number in a lyrics file.
#[derive(Clone, Copy, Debug, PartialEq, Eq, PartialOrd, Ord, Hash, Structural)]
pub struct LineNumber(usize);

impl View for LineNumber {
    type V = nat;

    closed spec fn view(&self) -> nat {
        self.0 as nat
    }
}

impl LineNumber {

    /// The line numbered `number`.
    pub fn new(number: usize) -> (result: LineNumber)
        ensures
            result@ == number,
    {
        LineNumber(number)
    }

    /// The line at the zero-based position `index`, whose number is one
    /// more.
    pub fn from_index(index: usize) -> (result: LineNumber)
        requires
            index < usize::MAX,
        ensures
            result@ == index + 1,
    {
        LineNumber(index + 1)
    }

    /// The number.
    pub fn get(self) -> (result: usize)
        ensures
            result == self@,
    {
        self.0
    }
}

/// Payload for [`ParseLyricsErrorKind::TabIndentation`]: the leading
/// whitespace of the line contains a tab.
#[derive(Clone, Copy, Debug, PartialEq, Eq)]
pub struct TabIndentation;

/// Payload for [`ParseLyricsErrorKind::MalformedIndentation`]: the indent
/// of the line matches neither width the parser accepts at that point.
/// `continuation_indent` is `None` when no marker line is open.
#[derive(Clone, Copy, Debug, PartialEq, Eq)]
pub struct MalformedIndentation {
    pub actual: usize,
    pub shorthand_indent: usize,
    pub continuation_indent: Option<usize>,
}

/// Payload for [`ParseLyricsErrorKind::MalformedHeader`]: a column-zero
/// line that does not begin with an `MM:SS.mmm` timestamp.
#[derive(Clone, Debug, PartialEq, Eq)]
pub struct MalformedHeader {
    pub content: String,
}

/// Payload for [`ParseLyricsErrorKind::MalformedTagLine`]: a column-zero
/// line that opens with `<` but is not `<additive>` or `</additive>`.
#[derive(Clone, Debug, PartialEq, Eq)]
pub struct MalformedTagLine {
    pub content: String,
}

/// Payload for [`AdditiveRegionError::Nested`]: an `<additive>` inside the
/// region opened on line `opened_at`.
#[derive(Clone, Copy, Debug, PartialEq, Eq)]
pub struct NestedRegion {
    pub opened_at: LineNumber,
}

/// Payload for [`AdditiveRegionError::Unopened`]: a stray `</additive>`.
#[derive(Clone, Copy, Debug, PartialEq, Eq)]
pub struct UnopenedRegion;

/// Payload for [`AdditiveRegionError::Unclosed`]: an `<additive>` that is
/// never closed.
#[derive(Clone, Copy, Debug, PartialEq, Eq)]
pub struct UnclosedRegion;

/// Payload for [`AdditiveRegionError::Empty`]: the region opened on line
/// `opened_at` encloses no cue.
#[derive(Clone, Copy, Debug, PartialEq, Eq)]
pub struct EmptyRegion {
    pub opened_at: LineNumber,
}

/// Payload for [`AdditiveRegionError::ControlMarker`]: a control marker
/// inside the region opened on line `opened_at`.
#[derive(Clone, Copy, Debug, PartialEq, Eq)]
pub struct ControlMarkerInRegion {
    pub marker: ReservedMarker,
    pub opened_at: LineNumber,
}

/// The ways an `<additive>` region can be malformed.
#[derive(Clone, Copy, Debug, PartialEq, Eq)]
#[non_exhaustive]
pub enum AdditiveRegionError {
    Nested(NestedRegion),
    Unopened(UnopenedRegion),
    Unclosed(UnclosedRegion),
    Empty(EmptyRegion),
    ControlMarker(ControlMarkerInRegion),
}

/// Payload for [`ParseLyricsErrorKind::InvalidTimestamp`]: the line opens
/// with a timestamp shape whose fields are out of range.
#[derive(Clone, Debug, PartialEq, Eq)]
pub struct InvalidTimestamp {
    pub cause: TakeTimestampError,
}

/// Payload for [`ParseLyricsErrorKind::MissingSeparatorAfterTimestamp`].
#[derive(Clone, Debug, PartialEq, Eq)]
pub struct MissingSeparatorAfterTimestamp {
    pub content: String,
}

/// Payload for [`ParseLyricsErrorKind::ExtraTextAfterControlMarker`].
#[derive(Clone, Debug, PartialEq, Eq)]
pub struct ExtraTextAfterControlMarker {
    pub marker: ReservedMarker,
    pub trailing: String,
}

/// Payload for [`ParseLyricsErrorKind::RepeatedTimestamp`]: an event that
/// starts at the start time of the event before it.
#[derive(Clone, Copy, Debug, PartialEq, Eq)]
pub struct RepeatedTimestamp {
    pub start: Timestamp,
}

/// Payload for [`ParseLyricsErrorKind::OutOfOrder`]: an event that starts
/// before the event above it.
#[derive(Clone, Copy, Debug, PartialEq, Eq)]
pub struct OutOfOrder {
    pub previous: Timestamp,
    pub next: Timestamp,
}

/// Payload for [`ParseLyricsErrorKind::CueTextReservedCharacter`]: cue
/// text containing `<` or `>`.
#[derive(Clone, Copy, Debug, PartialEq, Eq)]
pub struct CueTextReservedCharacter {
    pub character: char,
}

/// Payload for [`ParseLyricsErrorKind::MissingMarker`]: a cue body with no
/// marker before a `:` separator.
#[derive(Clone, Debug, PartialEq, Eq)]
pub struct MissingMarker {
    pub content: String,
}

/// Payload for [`ParseLyricsErrorKind::ReservedControlMarker`]: a cue that
/// names a reserved marker.
#[derive(Clone, Copy, Debug, PartialEq, Eq)]
pub struct ReservedControlMarker {
    pub marker: ReservedMarker,
}

/// Payload for [`ParseLyricsErrorKind::EmptyCueBody`].
#[derive(Debug, PartialEq, Eq)]
pub struct EmptyCueBody {
    pub marker: MarkerName,
}

/// Payload for [`ParseLyricsErrorKind::EmptyAnnotation`].
#[derive(Clone, Copy, Debug, PartialEq, Eq)]
pub struct EmptyAnnotation;

/// Payload for [`ParseLyricsErrorKind::OrphanedShorthandMarker`]: a
/// shorthand marker line with no cue open above it.
#[derive(Clone, Debug, PartialEq, Eq)]
pub struct OrphanedShorthandMarker {
    pub content: String,
}

/// Payload for [`ParseLyricsErrorKind::OrphanedAnnotation`]: an annotation
/// line with no cue open above it.
#[derive(Clone, Debug, PartialEq, Eq)]
pub struct OrphanedAnnotation {
    pub content: String,
}

/// Payload for [`ParseLyricsErrorKind::UnclosedCue`]: a cue that no later
/// event ends.
#[derive(Clone, Copy, Debug, PartialEq, Eq)]
pub struct UnclosedCue {
    pub start: Timestamp,
}

/// Why the parser gave up.
#[derive(Debug, PartialEq, Eq)]
#[non_exhaustive]
pub enum ParseLyricsErrorKind {
    TabIndentation(TabIndentation),
    MalformedIndentation(MalformedIndentation),
    MalformedHeader(MalformedHeader),
    MalformedTagLine(MalformedTagLine),
    AdditiveRegion(AdditiveRegionError),
    InvalidTimestamp(InvalidTimestamp),
    MissingSeparatorAfterTimestamp(MissingSeparatorAfterTimestamp),
    ExtraTextAfterControlMarker(ExtraTextAfterControlMarker),
    RepeatedTimestamp(RepeatedTimestamp),
    OutOfOrder(OutOfOrder),
    CueTextReservedCharacter(CueTextReservedCharacter),
    MissingMarker(MissingMarker),
    ReservedControlMarker(ReservedControlMarker),
    EmptyCueBody(EmptyCueBody),
    EmptyAnnotation(EmptyAnnotation),
    OrphanedShorthandMarker(OrphanedShorthandMarker),
    OrphanedAnnotation(OrphanedAnnotation),
    UnclosedCue(UnclosedCue),
}

/// The single error [`crate::parse::parse_lyrics`] returns: the line at
/// which parsing stopped and why.
#[derive(Debug, PartialEq, Eq)]
pub struct ParseLyricsError {
    pub line_number: LineNumber,
    pub kind: ParseLyricsErrorKind,
}

/// The mathematical content of a [`ParseLyricsErrorKind`]: text as
/// character sequences, timestamps and line numbers as integers.
pub enum KindModel {
    TabIndentation,
    MalformedIndentation { actual: int, shorthand: int, continuation: Option<int> },
    MalformedHeader(Seq<char>),
    MalformedTagLine(Seq<char>),
    NestedRegion(nat),
    UnopenedRegion,
    UnclosedRegion,
    EmptyRegion(nat),
    ControlMarkerInRegion(ReservedMarker, nat),
    InvalidTimestamp(TakeOutcome),
    MissingSeparatorAfterTimestamp(Seq<char>),
    ExtraTextAfterControlMarker(ReservedMarker, Seq<char>),
    RepeatedTimestamp(int),
    OutOfOrder(int, int),
    CueTextReservedCharacter(char),
    MissingMarker(Seq<char>),
    ReservedControlMarker(ReservedMarker),
    EmptyCueBody(Seq<char>),
    EmptyAnnotation,
    OrphanedShorthandMarker(Seq<char>),
    OrphanedAnnotation(Seq<char>),
    UnclosedCue(int),
}

/// The outcome a [`TakeTimestampError`] reports.
pub open spec fn take_error_model(error: TakeTimestampError) -> TakeOutcome {
    match error {
        TakeTimestampError::ShapeMismatch => TakeOutcome::ShapeMismatch,
        TakeTimestampError::MinutesOutOfRange(p) => TakeOutcome::MinutesOutOfRange {
            raw: p.raw@,
            value: p.value as int,
        },
        TakeTimestampError::SecondsOutOfRange(p) => TakeOutcome::SecondsOutOfRange {
            raw: p.raw@,
            value: p.value as int,
        },
    }
}

impl View for ParseLyricsErrorKind {
    type V = KindModel;

    open spec fn view(&self) -> KindModel {
        match self {
            ParseLyricsErrorKind::TabIndentation(_) => KindModel::TabIndentation,
            ParseLyricsErrorKind::MalformedIndentation(p) => KindModel::MalformedIndentation {
                actual: p.actual as int,
                shorthand: p.shorthand_indent as int,
                continuation: match p.continuation_indent {
                    Some(w) => Some(w as int),
                    None => None,
                },
            },
            ParseLyricsErrorKind::MalformedHeader(p) => KindModel::MalformedHeader(p.content@),
            ParseLyricsErrorKind::MalformedTagLine(p) => KindModel::MalformedTagLine(p.content@),
            ParseLyricsErrorKind::AdditiveRegion(r) => match r {
                AdditiveRegionError::Nested(p) => KindModel::NestedRegion(p.opened_at@),
                AdditiveRegionError::Unopened(_) => KindModel::UnopenedRegion,
                AdditiveRegionError::Unclosed(_) => KindModel::UnclosedRegion,
                AdditiveRegionError::Empty(p) => KindModel::EmptyRegion(p.opened_at@),
                AdditiveRegionError::ControlMarker(p) => KindModel::ControlMarkerInRegion(
                    p.marker,
                    p.opened_at@,
                ),
            },
            ParseLyricsErrorKind::InvalidTimestamp(p) => KindModel::InvalidTimestamp(
                take_error_model(p.cause),
            ),
            ParseLyricsErrorKind::MissingSeparatorAfterTimestamp(p) => {
                KindModel::MissingSeparatorAfterTimestamp(p.content@)
            },
            ParseLyricsErrorKind::ExtraTextAfterControlMarker(p) => {
                KindModel::ExtraTextAfterControlMarker(p.marker, p.trailing@)
            },
            ParseLyricsErrorKind::RepeatedTimestamp(p) => KindModel::RepeatedTimestamp(p.start@),
            ParseLyricsErrorKind::OutOfOrder(p) => KindModel::OutOfOrder(p.previous@, p.next@),
            ParseLyricsErrorKind::CueTextReservedCharacter(p) => {
                KindModel::CueTextReservedCharacter(p.character)
            },
            ParseLyricsErrorKind::MissingMarker(p) => KindModel::MissingMarker(p.content@),
            ParseLyricsErrorKind::ReservedControlMarker(p) => KindModel::ReservedControlMarker(
                p.marker,
            ),
            ParseLyricsErrorKind::EmptyCueBody(p) => KindModel::EmptyCueBody(p.marker@),
            ParseLyricsErrorKind::EmptyAnnotation(_) => KindModel::EmptyAnnotation,
            ParseLyricsErrorKind::OrphanedShorthandMarker(p) => {
                KindModel::OrphanedShorthandMarker(p.content@)
            },
            ParseLyricsErrorKind::OrphanedAnnotation(p) => KindModel::OrphanedAnnotation(
                p.content@,
            ),
            ParseLyricsErrorKind::UnclosedCue(p) => KindModel::UnclosedCue(p.start@),
        }
    }
}

impl View for ParseLyricsError {
    type V = (nat, KindModel);

    open spec fn view(&self) -> (nat, KindModel) {
        (self.line_number@, self.kind@)
    }
}

} // verus!
