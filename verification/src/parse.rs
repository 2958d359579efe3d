//! Parser for `lyrics.{lang}.txt` cue files.
//!
//! Each file is a sequence of timestamped events. A line that starts with
//! `MM:SS.mmm` opens an event: `clr` closes the open cue at that time,
//! `eov` is ignored, and any other `marker: text` body opens a new cue.
//! A line at column [`TIMESTAMP_PREFIX_WIDTH`] adds a part (or, with the
//! `ann` marker, an annotation) to the cue above; a line indented under
//! the text of the last marker line continues it. Between `<additive>`
//! and `</additive>` each cue repeats the parts of the cues above it in
//! the region. [`crate::parse_model`] states all of this over character
//! sequences; the functions here compute it.

use crate::descriptors::{MarkerName, ReservedMarker, reserved_of_token, reserved_token};
use crate::descriptors::InvalidMarkerName;
use crate::parse_error::{
    AdditiveRegionError, ControlMarkerInRegion, CueTextReservedCharacter, EmptyAnnotation,
    EmptyCueBody, EmptyRegion, ExtraTextAfterControlMarker, InvalidTimestamp, KindModel,
    LineNumber, MalformedHeader, MalformedIndentation, MalformedTagLine, MissingMarker,
    MissingSeparatorAfterTimestamp, NestedRegion, OrphanedAnnotation, OrphanedShorthandMarker,
    OutOfOrder, ParseLyricsError, ParseLyricsErrorKind, RepeatedTimestamp, ReservedControlMarker,
    TabIndentation, UnclosedCue, UnclosedRegion, UnopenedRegion,
};
use crate::parse_model::{
    CueModel, EventModel, GroupModel, OpenLineModel, PartModel, RegionModel, StateModel,
    TIMESTAMP_PREFIX_WIDTH, additive_name, additive_tag_rest, annotation_body, event_start,     is_closing_tag_line, is_opening_tag_line, lines_of, marker_part, marker_width, not_angle,
    order_error, reserved_char_in, split_marker, strip_cr, tag_name_char, initial_state, wf_state,
    header_step, control_step, cue_step, group_at, with_parts, shorthand_step, continuation_step,
    continued, new_part, step, run, space, lemma_step_wf, carried_part, resolve_upto, ResolveModel,
    parse_lyrics_model,
};
use crate::text::{
    chars_of, find_char, find_char_from, utf8_len, lemma_prefix_len_is, push_char, push_chars, range_all_whitespace,
    same_text, saturate, skip_non_whitespace, skip_whitespace, span_while, string_of, trim_range,
    vec_of, non_ws, prefix_len, trim_start, lemma_prefix_len, ws, all_ws, is_ws,
};
use crate::timestamp::{TakeOutcome, TakeTimestampError, Timestamp, take_timestamp};
use vstd::prelude::*;
use vstd::utf8::encode_utf8;

verus! {

/// One marker-text pair within a [`SubtitleCue`].
#[derive(Debug, PartialEq, Eq)]
pub struct CuePart {
    /// The marker the line declared, `ttl` in `ttl: 《Song》`.
    pub marker: MarkerName,
    /// The cue text, continuation lines joined by line breaks.
    pub text: String,
    /// Commentary attached by `ann` lines beneath the part, one entry per
    /// line. Neither renderer reads it.
    pub annotations: Vec<String>,
}

/// The views of a list of strings.
pub open spec fn texts(strings: Seq<String>) -> Seq<Seq<char>> {
    strings.map_values(|s: String| s@)
}

impl View for CuePart {
    type V = PartModel;

    open spec fn view(&self) -> PartModel {
        PartModel {
            marker: self.marker@,
            text: self.text@,
            annotations: texts(self.annotations@),
        }
    }
}

/// The views of a list of parts.
pub open spec fn parts_view(parts: Seq<CuePart>) -> Seq<PartModel> {
    parts.map_values(|p: CuePart| p@)
}

/// A subtitle cue with a resolved end time, ready for rendering: one or
/// more parts shown together from `start` until `end`.
#[derive(Debug, PartialEq, Eq)]
pub struct SubtitleCue {
    /// When the cue begins to display.
    pub start: Timestamp,
    /// When the cue stops displaying: the start of the next event.
    pub end: Timestamp,
    /// The parts, one rendered line each.
    pub parts: Vec<CuePart>,
}

impl View for SubtitleCue {
    type V = CueModel;

    open spec fn view(&self) -> CueModel {
        CueModel { start: self.start@, end: self.end@, parts: parts_view(self.parts@) }
    }
}

/// The views of a list of cues.
pub open spec fn cues_view(cues: Seq<SubtitleCue>) -> Seq<CueModel> {
    cues.map_values(|c: SubtitleCue| c@)
}

/// Which text a continuation line extends.
#[derive(Clone, Copy)]
enum ContinuationTarget {
    /// The text of the most recently opened part.
    PartText,
    /// The most recent annotation of that part.
    AnnotationText,
}

/// The marker line a continuation would extend.
#[derive(Clone, Copy)]
struct OpenMarkerLine {
    /// Width of the line's `marker: ` prefix.
    marker_prefix_width: usize,
    /// Where a continuation's text goes.
    target: ContinuationTarget,
}

/// The `<additive>` region currently open.
#[derive(Clone, Copy)]
struct OpenRegion {
    /// The index the region's cue groups carry.
    index: usize,
    /// The line of the `<additive>` that opened it.
    opened_at: LineNumber,
    /// How many cue groups it holds so far.
    cue_count: usize,
}

/// The regions of the file, as seen from the line being read.
struct RegionState {
    /// The region currently open, if any.
    open: Option<OpenRegion>,
    /// How many regions have opened so far.
    opened: usize,
}

/// A cue group read from the file, before its end time is known.
struct CueGroup {
    start: Timestamp,
    /// The line of the header that opened the group.
    opened_at: LineNumber,
    region: Option<usize>,
    parts: Vec<CuePart>,
}

/// An event of the file.
enum Event {
    Cue(CueGroup),
    Clear(Timestamp),
}

/// What the parser carries from one line to the next.
struct ParserState {
    events: Vec<Event>,
    last_cue_index: Option<usize>,
    open_marker_line: Option<OpenMarkerLine>,
    regions: RegionState,
}

/// The view of an event.
spec fn event_view(event: Event) -> EventModel {
    match event {
        Event::Cue(g) => EventModel::Cue(
            GroupModel {
                start: g.start@,
                opened_at: g.opened_at@,
                region: match g.region {
                    Some(r) => Some(r as nat),
                    None => None,
                },
                parts: parts_view(g.parts@),
            },
        ),
        Event::Clear(t) => EventModel::Clear(t@),
    }
}

/// The views of a list of events.
spec fn events_view(events: Seq<Event>) -> Seq<EventModel> {
    events.map_values(|e: Event| event_view(e))
}

/// The view of the parser state.
spec fn state_view(st: ParserState) -> StateModel {
    StateModel {
        events: events_view(st.events@),
        last_cue: match st.last_cue_index {
            Some(i) => Some(i as nat),
            None => None,
        },
        open_line: match st.open_marker_line {
            Some(o) => Some(
                OpenLineModel {
                    width: o.marker_prefix_width as int,
                    annotation: o.target is AnnotationText,
                },
            ),
            None => None,
        },
        open_region: match st.regions.open {
            Some(r) => Some(
                RegionModel { index: r.index as nat, opened_at: r.opened_at@, cue_count: r.cue_count as nat },
            ),
            None => None,
        },
        opened: st.regions.opened as nat,
    }
}

/// The lines of `chars`, as `str::lines` yields them.
pub(crate) fn split_lines(chars: &Vec<char>) -> (result: Vec<Vec<char>>)
    ensures
        lines_view(result@) == lines_of(chars@),
{
    let mut result: Vec<Vec<char>> = Vec::new();
    let mut start: usize = 0;
    proof {
        assert(chars@.skip(0) =~= chars@);
        assert(lines_view(result@) + lines_of(chars@) =~= lines_of(chars@));
    }
    while start < chars.len()
        invariant
            start <= chars@.len(),
            lines_of(chars@) == lines_view(result@) + lines_of(
                chars@.skip(start as int),
            ),
        decreases chars@.len() - start,
    {
        let ghost rest = chars@.skip(start as int);
        let ghost before = lines_view(result@);
        let pos = find_char_from(chars, start, '\n');
        if pos < chars.len() {
            let mut end = pos;
            if end > start && chars[end - 1] == '\r' {
                end = end - 1;
            }
            let line = vec_of(chars, start, end);
            result.push(line);
            proof {
                let k = find_char(rest, '\n');
                assert(k == pos - start);
                assert(rest.take(k as int) =~= chars@.subrange(start as int, pos as int));
                assert(strip_cr(rest.take(k as int)) =~= chars@.subrange(
                    start as int,
                    end as int,
                ));
                assert(rest.skip(k + 1 as int) =~= chars@.skip(pos + 1));
                assert(lines_view(result@) =~= before.push(
                    chars@.subrange(start as int, end as int),
                ));
            }
            start = pos + 1;
        } else {
            let line = vec_of(chars, start, chars.len());
            result.push(line);
            proof {
                assert(rest =~= chars@.subrange(start as int, chars@.len() as int));
                assert(lines_view(result@) =~= before.push(rest));
                assert(chars@.skip(chars@.len() as int) =~= Seq::<char>::empty());
            }
            start = chars.len();
        }
    }
    proof {
        assert(chars@.skip(start as int) =~= Seq::<char>::empty());
        assert(lines_view(result@) + Seq::<Seq<char>>::empty() =~= result@.map_values(
            |l: Vec<char>| l@,
        ));
    }
    result
}

/// Whether `c` may continue a tag name.
fn is_tag_name_char(c: char) -> (result: bool)
    ensures
        result == crate::parse_model::is_tag_name_char(c),
{
    ('a' <= c && c <= 'z') || ('0' <= c && c <= '9') || c == '-'
}

/// Whether `body`, read from `start`, is `additive>` followed by nothing
/// but whitespace.
fn take_additive_tag_rest(body: &Vec<char>, start: usize) -> (result: bool)
    requires
        start <= body@.len(),
    ensures
        result == additive_tag_rest(body@, start as int),
{
    let end = span_while(body, start, is_tag_name_char, Ghost(tag_name_char()));
    let name = string_of(body, start, end);
    proof {
        reveal_strlit("additive");
        assert("additive"@ =~= additive_name());
    }
    if !same_text(name.as_str(), "additive") {
        return false;
    }
    if end >= body.len() || body[end] != '>' {
        return false;
    }
    let all = range_all_whitespace(body, end + 1, body.len());
    proof {
        assert(body@.skip(end + 1) =~= body@.subrange(end + 1, body@.len() as int));
    }
    all
}

/// Whether `body` is an `<additive>` tag line.
fn is_opening_tag(body: &Vec<char>) -> (result: bool)
    ensures
        result == is_opening_tag_line(body@),
{
    body.len() >= 1 && body[0] == '<' && take_additive_tag_rest(body, 1)
}

/// Whether `body` is an `</additive>` tag line.
fn is_closing_tag(body: &Vec<char>) -> (result: bool)
    ensures
        result == is_closing_tag_line(body@),
{
    body.len() >= 2 && body[0] == '<' && body[1] == '/' && take_additive_tag_rest(body, 2)
}

/// The width of the `marker: ` prefix of a marker line, `usize::MAX` when
/// it does not fit.
fn marker_prefix_width(marker: &str) -> (result: usize)
    ensures
        result == saturate(marker_width(marker@)),
{
    let chars = chars_of(marker);
    let len = utf8_len(&chars);
    if len <= usize::MAX - 2 {
        len + 2
    } else {
        usize::MAX
    }
}

/// The first `<` or `>` of `chars[lo..hi]`, if any.
fn find_reserved_char(chars: &Vec<char>, lo: usize, hi: usize) -> (result: Option<char>)
    requires
        lo <= hi <= chars@.len(),
    ensures
        result == reserved_char_in(chars@.subrange(lo as int, hi as int)),
{
    let ghost s = chars@.subrange(lo as int, hi as int);
    let mut i = lo;
    while i < hi && chars[i] != '<' && chars[i] != '>'
        invariant
            lo <= i <= hi <= chars@.len(),
            forall|j: int| lo <= j < i ==> not_angle()(#[trigger] chars@[j]),
        decreases hi - i,
    {
        i = i + 1;
    }
    proof {
        assert forall|j: int| 0 <= j < i - lo implies not_angle()(#[trigger] s[j]) by {
            assert(s[j] == chars@[lo + j]);
        }
        if i < hi {
            assert(s[i - lo] == chars@[i as int]);
        }
        lemma_prefix_len_is(s, not_angle(), i - lo);
    }
    if i < hi {
        Some(chars[i])
    } else {
        None
    }
}

/// The bounds of the trimmed marker and the trimmed text of a
/// `marker: text` body, or `None` when there is no `:` or no marker.
fn split_marker_bounds(body: &Vec<char>) -> (result: Option<(usize, usize, usize, usize)>)
    ensures
        match split_marker(body@) {
            None => result is None,
            Some((marker, text)) => result matches Some((a, b, c, d)) && a <= b <= body@.len()
                && c <= d <= body@.len() && body@.subrange(a as int, b as int) == marker
                && body@.subrange(c as int, d as int) == text,
        },
{
    let k = find_char_from(body, 0, ':');
    proof {
        assert(body@.skip(0) == body@);
    }
    if k >= body.len() {
        return None;
    }
    let (a, b) = trim_range(body, 0, k);
    proof {
        assert(body@.subrange(0, k as int) =~= body@.take(k as int));
    }
    if a == b {
        return None;
    }
    let (c, d) = trim_range(body, k + 1, body.len());
    proof {
        assert(body@.subrange(k + 1, body@.len() as int) =~= body@.skip(k + 1));
    }
    Some((a, b, c, d))
}

/// The marker and text of a `marker: text` body, or why it is rejected.
fn parse_marker_part(body: &Vec<char>) -> (result: Result<(MarkerName, String), ParseLyricsErrorKind>)
    ensures
        match marker_part(body@) {
            Ok((marker, text)) => result matches Ok((m, t)) && m@ == marker && t@ == text,
            Err(kind) => result matches Err(e) && e@ == kind,
        },
{
    if let Some(character) = find_reserved_char(body, 0, body.len()) {
        proof {
            assert(body@.subrange(0, body@.len() as int) =~= body@);
        }
        return Err(
            ParseLyricsErrorKind::CueTextReservedCharacter(CueTextReservedCharacter { character }),
        );
    }
    proof {
        assert(body@.subrange(0, body@.len() as int) =~= body@);
    }
    let (a, b, c, d) = match split_marker_bounds(body) {
        Some(bounds) => bounds,
        None => {
            return Err(
                ParseLyricsErrorKind::MissingMarker(
                    MissingMarker { content: string_of(body, 0, body.len()) },
                ),
            );
        },
    };
    let marker_text = string_of(body, a, b);
    let marker = match MarkerName::new(marker_text) {
        Ok(marker) => marker,
        Err(InvalidMarkerName::Reserved(reserved)) => {
            return Err(
                ParseLyricsErrorKind::ReservedControlMarker(
                    ReservedControlMarker { marker: reserved },
                ),
            );
        },
    };
    if c == d {
        return Err(ParseLyricsErrorKind::EmptyCueBody(EmptyCueBody { marker }));
    }
    Ok((marker, string_of(body, c, d)))
}

/// The text of an `ann: text` body, or `None` for any other body.
fn annotation_text(body: &Vec<char>) -> (result: Option<String>)
    ensures
        match annotation_body(body@) {
            Some(text) => result matches Some(t) && t@ == text,
            None => result is None,
        },
{
    match split_marker_bounds(body) {
        Some((a, b, c, d)) => {
            let marker = string_of(body, a, b);
            if same_text(marker.as_str(), ReservedMarker::Annotation.as_str()) {
                Some(string_of(body, c, d))
            } else {
                None
            }
        },
        None => None,
    }
}

/// The start time of an event.
fn event_start_of(event: &Event) -> (result: Timestamp)
    ensures
        result@ == event_start(event_view(*event)),
{
    match event {
        Event::Cue(group) => group.start,
        Event::Clear(start) => *start,
    }
}

/// Rejects an event starting at `start` unless it starts after the last
/// event recorded so far.
fn check_event_order(start: Timestamp, events: &Vec<Event>) -> (result: Result<(), ParseLyricsErrorKind>)
    ensures
        match order_error(start@, events_view(events@)) {
            None => result is Ok,
            Some(kind) => result matches Err(e) && e@ == kind,
        },
        events@.len() == 0 ==> result is Ok,
        events@.len() > 0 ==> ({
            let previous = event_start(event_view(events@.last()));
            &&& previous < start@ ==> result is Ok
            &&& previous == start@ ==> (result matches Err(e) && e@
                == KindModel::RepeatedTimestamp(start@))
            &&& start@ < previous ==> (result matches Err(e) && e@ == KindModel::OutOfOrder(
                previous,
                start@,
            ))
        }),
{
    if events.len() == 0 {
        return Ok(());
    }
    let previous = event_start_of(&events[events.len() - 1]);
    proof {
        assert(events_view(events@).last() == event_view(events@.last()));
    }
    if previous.millis() == start.millis() {
        return Err(ParseLyricsErrorKind::RepeatedTimestamp(RepeatedTimestamp { start }));
    }
    if start.millis() < previous.millis() {
        return Err(ParseLyricsErrorKind::OutOfOrder(OutOfOrder { previous, next: start }));
    }
    Ok(())
}

/// The empty parser state of a file's first line.
fn initial_parser_state() -> (result: ParserState)
    ensures
        state_view(result) == initial_state(),
{
    let result = ParserState {
        events: Vec::new(),
        last_cue_index: None,
        open_marker_line: None,
        regions: RegionState { open: None, opened: 0 },
    };
    proof {
        assert(events_view(result.events@) =~= Seq::<EventModel>::empty());
    }
    result
}

/// Reads the header line `body` on line `opened_at`.
fn handle_header_line(state: &mut ParserState, body: &Vec<char>, opened_at: usize) -> (result: Result<
    (),
    ParseLyricsErrorKind,
>)
    requires
        1 <= opened_at,
        wf_state(state_view(*old(state)), (opened_at - 1) as nat),
    ensures
        match header_step(state_view(*old(state)), body@, opened_at as nat) {
            Ok(st) => result is Ok && state_view(*final(state)) == st,
            Err(kind) => result matches Err(e) && e@ == kind,
        },
        result is Err ==> *final(state) == *old(state),
{
    proof {
        assert(body@.subrange(0, body@.len() as int) =~= body@);
    }
    let (start, _) = match Timestamp::take_chars(body) {
        Ok(taken) => taken,
        Err(TakeTimestampError::ShapeMismatch) => {
            return Err(
                ParseLyricsErrorKind::MalformedHeader(
                    MalformedHeader { content: string_of(body, 0, body.len()) },
                ),
            );
        },
        Err(cause) => {
            return Err(ParseLyricsErrorKind::InvalidTimestamp(InvalidTimestamp { cause }));
        },
    };
    proof {
        assert(body@.subrange(0, body@.len() as int) =~= body@);
    }
    let ghost tail = body@.skip(9);
    let cue_start = skip_whitespace(body, 9);
    proof {
        assert(trim_start(tail) =~= body@.skip(cue_start as int));
    }
    if cue_start == 9 {
        return Err(
            ParseLyricsErrorKind::MissingSeparatorAfterTimestamp(
                MissingSeparatorAfterTimestamp { content: string_of(body, 0, body.len()) },
            ),
        );
    }
    let token_end = skip_non_whitespace(body, cue_start);
    let token = string_of(body, cue_start, token_end);
    proof {
        let cue_body = body@.skip(cue_start as int);
        assert(cue_body.take(prefix_len(cue_body, non_ws()) as int) =~= body@.subrange(
            cue_start as int,
            token_end as int,
        ));
        assert(cue_body.skip((token_end - cue_start) as int) =~= body@.subrange(
            token_end as int,
            body@.len() as int,
        ));
    }
    match ReservedMarker::from_token(token.as_str()) {
        Some(ReservedMarker::Clear) => handle_control_marker(
            state,
            start,
            ReservedMarker::Clear,
            body,
            token_end,
        ),
        Some(ReservedMarker::EndOfVideo) => handle_control_marker(
            state,
            start,
            ReservedMarker::EndOfVideo,
            body,
            token_end,
        ),
        _ => {
            let cue_body = vec_of(body, cue_start, body.len());
            proof {
                assert(cue_body@ =~= body@.skip(cue_start as int));
            }
            open_cue_group(state, start, &cue_body, opened_at)
        },
    }
}

/// Handles the control marker `marker` at `start`, whose line continues
/// with `body[rest..]`.
fn handle_control_marker(
    state: &mut ParserState,
    start: Timestamp,
    marker: ReservedMarker,
    body: &Vec<char>,
    rest: usize,
) -> (result: Result<(), ParseLyricsErrorKind>)
    requires
        rest <= body@.len(),
        !(marker is Annotation),
    ensures
        match control_step(
            state_view(*old(state)),
            start@,
            marker,
            body@.subrange(rest as int, body@.len() as int),
        ) {
            Ok(st) => result is Ok && state_view(*final(state)) == st,
            Err(kind) => result matches Err(e) && e@ == kind,
        },
        result is Err ==> *final(state) == *old(state),
{
    let (a, b) = trim_range(body, rest, body.len());
    if a < b {
        return Err(
            ParseLyricsErrorKind::ExtraTextAfterControlMarker(
                ExtraTextAfterControlMarker { marker, trailing: string_of(body, a, b) },
            ),
        );
    }
    if let Some(open) = &state.regions.open {
        return Err(
            ParseLyricsErrorKind::AdditiveRegion(
                AdditiveRegionError::ControlMarker(
                    ControlMarkerInRegion { marker, opened_at: open.opened_at },
                ),
            ),
        );
    }
    if let ReservedMarker::Clear = marker {
        check_event_order(start, &state.events)?;
        let ghost before = events_view(state.events@);
        state.events.push(Event::Clear(start));
        state.last_cue_index = None;
        state.open_marker_line = None;
        proof {
            assert(events_view(state.events@) =~= before.push(EventModel::Clear(start@)));
        }
    }
    Ok(())
}

/// Opens a cue group at `start` with the body `cue_body` of the header on
/// line `opened_at`.
fn open_cue_group(
    state: &mut ParserState,
    start: Timestamp,
    cue_body: &Vec<char>,
    opened_at: usize,
) -> (result: Result<(), ParseLyricsErrorKind>)
    requires
        1 <= opened_at,
        wf_state(state_view(*old(state)), (opened_at - 1) as nat),
    ensures
        match cue_step(state_view(*old(state)), start@, cue_body@, opened_at as nat) {
            Ok(st) => result is Ok && state_view(*final(state)) == st,
            Err(kind) => result matches Err(e) && e@ == kind,
        },
        result is Err ==> *final(state) == *old(state),
{
    check_event_order(start, &state.events)?;
    let (marker, text) = parse_marker_part(cue_body)?;
    let width = marker_prefix_width(marker.as_str());
    let ghost before = events_view(state.events@);
    let region = match state.regions.open {
        Some(open) => {
            state.regions.open = Some(
                OpenRegion {
                    index: open.index,
                    opened_at: open.opened_at,
                    cue_count: open.cue_count + 1,
                },
            );
            Some(open.index)
        },
        None => None,
    };
    let part = CuePart { marker, text, annotations: Vec::new() };
    proof {
        assert(texts(part.annotations@) =~= Seq::<Seq<char>>::empty());
    }
    let parts = vec![part];
    proof {
        assert(parts_view(parts@) =~= seq![part@]);
    }
    state.events.push(
        Event::Cue(CueGroup { start, opened_at: LineNumber::new(opened_at), region, parts }),
    );
    state.last_cue_index = Some(state.events.len() - 1);
    state.open_marker_line = Some(
        OpenMarkerLine { marker_prefix_width: width, target: ContinuationTarget::PartText },
    );
    proof {
        assert(events_view(state.events@) =~= before.push(event_view(state.events@.last())));
    }
    Ok(())
}

/// The open cue group, taken off the end of the events so that it can be
/// extended and put back with [`restore_open_group`].
fn take_open_group(state: &mut ParserState, Ghost(k): Ghost<nat>) -> (group: CueGroup)
    requires
        wf_state(state_view(*old(state)), k),
        old(state).last_cue_index is Some,
    ensures
        final(state).events@ == old(state).events@.drop_last(),
        events_view(final(state).events@) == state_view(*old(state)).events.drop_last(),
        final(state).last_cue_index == old(state).last_cue_index,
        final(state).open_marker_line == old(state).open_marker_line,
        final(state).regions == old(state).regions,
        EventModel::Cue(
            GroupModel { parts: parts_view(group.parts@), ..group_at(state_view(*old(state)).events, old(state).events@.len() - 1) },
        ) == state_view(*old(state)).events.last(),
        group.start@ == group_at(state_view(*old(state)).events, old(state).events@.len() - 1).start,
        group.opened_at@ == group_at(state_view(*old(state)).events, old(state).events@.len() - 1).opened_at,
        (match group.region {
            Some(r) => Some(r as nat),
            None => None,
        }) == group_at(state_view(*old(state)).events, old(state).events@.len() - 1).region,
        parts_view(group.parts@) == group_at(state_view(*old(state)).events, old(state).events@.len() - 1).parts,
        group.parts@.len() >= 1,
{
    let ghost old_view = state_view(*state);
    proof {
        assert(old_view.events[old_view.events.len() - 1] == event_view(state.events@.last()));
    }
    let popped = state.events.pop();
    proof {
        assert(events_view(state.events@) =~= old_view.events.drop_last());
    }
    match popped {
        Some(Event::Cue(group)) => group,
        Some(Event::Clear(start)) => {
            proof {
                assert(false);
            }
            CueGroup { start, opened_at: LineNumber::new(0), region: None, parts: Vec::new() }
        },
        None => {
            proof {
                assert(false);
            }
            CueGroup {
                start: Timestamp::new(0, 0, 0).unwrap(),
                opened_at: LineNumber::new(0),
                region: None,
                parts: Vec::new(),
            }
        },
    }
}

/// Puts a group taken by [`take_open_group`] back as the last event.
fn restore_open_group(state: &mut ParserState, group: CueGroup, Ghost(events): Ghost<Seq<EventModel>>)
    requires
        events.len() == old(state).events@.len() + 1,
        events_view(old(state).events@) == events.drop_last(),
        events.last() is Cue,
        group.start@ == group_at(events, events.len() - 1).start,
        group.opened_at@ == group_at(events, events.len() - 1).opened_at,
        (match group.region {
            Some(r) => Some(r as nat),
            None => None,
        }) == group_at(events, events.len() - 1).region,
    ensures
        events_view(final(state).events@) == with_parts(
            events,
            events.len() - 1,
            parts_view(group.parts@),
        ),
        final(state).events@.len() == events.len(),
        final(state).last_cue_index == old(state).last_cue_index,
        final(state).open_marker_line == old(state).open_marker_line,
        final(state).regions == old(state).regions,
{
    let ghost old_events = state.events@;
    let ghost parts = parts_view(group.parts@);
    state.events.push(Event::Cue(group));
    proof {
        let updated = with_parts(events, events.len() - 1, parts);
        assert forall|j: int| 0 <= j < events.len() implies events_view(state.events@)[j]
            == #[trigger] updated[j] by {
            if j < events.len() - 1 {
                assert(events_view(old_events)[j] == events.drop_last()[j]);
            }
        }
        assert(events_view(state.events@) =~= updated);
    }
}

/// Reads a shorthand line `body`: a new part, or an annotation, of the
/// open cue group.
fn handle_shorthand_marker_line(state: &mut ParserState, body: &Vec<char>, Ghost(k): Ghost<nat>) -> (result: Result<
    (),
    ParseLyricsErrorKind,
>)
    requires
        wf_state(state_view(*old(state)), k),
    ensures
        match shorthand_step(state_view(*old(state)), body@) {
            Ok(st) => result is Ok && state_view(*final(state)) == st,
            Err(kind) => result matches Err(e) && e@ == kind,
        },
        result is Err ==> *final(state) == *old(state),
{
    proof {
        assert(body@.subrange(0, body@.len() as int) =~= body@);
    }
    if let Some(text) = annotation_text(body) {
        if state.last_cue_index.is_none() {
            return Err(
                ParseLyricsErrorKind::OrphanedAnnotation(
                    OrphanedAnnotation { content: string_of(body, 0, body.len()) },
                ),
            );
        }
        return handle_annotation_line(state, text, Ghost(k));
    }
    if state.last_cue_index.is_none() {
        return Err(
            ParseLyricsErrorKind::OrphanedShorthandMarker(
                OrphanedShorthandMarker { content: string_of(body, 0, body.len()) },
            ),
        );
    }
    let (marker, text) = parse_marker_part(body)?;
    let width = marker_prefix_width(marker.as_str());
    let ghost events = state_view(*state).events;
    let mut group = take_open_group(state, Ghost(k));
    let ghost old_parts = group.parts@;
    let part = CuePart { marker, text, annotations: Vec::new() };
    proof {
        assert(texts(part.annotations@) =~= Seq::<Seq<char>>::empty());
    }
    group.parts.push(part);
    proof {
        assert(parts_view(group.parts@) =~= parts_view(old_parts).push(part@));
    }
    restore_open_group(state, group, Ghost(events));
    state.open_marker_line = Some(
        OpenMarkerLine { marker_prefix_width: width, target: ContinuationTarget::PartText },
    );
    Ok(())
}

/// Attaches the annotation `text` to the last part of the open cue group.
fn handle_annotation_line(state: &mut ParserState, text: String, Ghost(k): Ghost<nat>) -> (result: Result<
    (),
    ParseLyricsErrorKind,
>)
    requires
        wf_state(state_view(*old(state)), k),
        old(state).last_cue_index is Some,
    ensures
        ({
            let st = state_view(*old(state));
            let i = st.last_cue->0 as int;
            if text@.len() == 0 {
                result matches Err(e) && e@ == KindModel::EmptyAnnotation
            } else {
                let parts = group_at(st.events, i).parts;
                let part = parts.last();
                result is Ok && state_view(*final(state)) == (StateModel {
                    events: with_parts(
                        st.events,
                        i,
                        parts.update(
                            parts.len() - 1,
                            PartModel { annotations: part.annotations.push(text@), ..part },
                        ),
                    ),
                    open_line: Some(
                        OpenLineModel {
                            width: saturate(marker_width(reserved_token(ReservedMarker::Annotation))) as int,
                            annotation: true,
                        },
                    ),
                    ..st
                })
            }
        }),
        result is Err ==> *final(state) == *old(state),
{
    if text.as_str().is_empty() {
        return Err(ParseLyricsErrorKind::EmptyAnnotation(EmptyAnnotation));
    }
    let width = marker_prefix_width(ReservedMarker::Annotation.as_str());
    let ghost events = state_view(*state).events;
    let mut group = take_open_group(state, Ghost(k));
    let ghost old_parts = group.parts@;
    let mut part = match group.parts.pop() {
        Some(part) => part,
        None => {
            proof {
                assert(false);
            }
            return Err(ParseLyricsErrorKind::EmptyAnnotation(EmptyAnnotation));
        },
    };
    let ghost old_part = part@;
    let ghost old_notes = part.annotations@;
    part.annotations.push(text);
    proof {
        assert(texts(part.annotations@) =~= texts(old_notes).push(text@));
    }
    group.parts.push(part);
    proof {
        assert(old_part == parts_view(old_parts).last());
        assert(parts_view(group.parts@) =~= parts_view(old_parts).update(
            old_parts.len() - 1,
            PartModel { annotations: old_part.annotations.push(text@), ..old_part },
        ));
    }
    restore_open_group(state, group, Ghost(events));
    state.open_marker_line = Some(
        OpenMarkerLine { marker_prefix_width: width, target: ContinuationTarget::AnnotationText },
    );
    Ok(())
}

/// Appends a line break and `body` to `target`.
fn continue_text(target: &mut String, body: &Vec<char>)
    ensures
        final(target)@ == continued(old(target)@, body@),
{
    push_char(target, '\n');
    push_chars(target, body, 0, body.len());
    proof {
        assert(body@.subrange(0, body@.len() as int) =~= body@);
    }
}

/// Extends the text of the open marker line with the continuation line
/// `body`.
fn handle_continuation_line(state: &mut ParserState, body: &Vec<char>, Ghost(k): Ghost<nat>) -> (result: Result<
    (),
    ParseLyricsErrorKind,
>)
    requires
        wf_state(state_view(*old(state)), k),
        old(state).open_marker_line is Some,
    ensures
        match continuation_step(state_view(*old(state)), body@) {
            Ok(st) => result is Ok && state_view(*final(state)) == st,
            Err(kind) => result matches Err(e) && e@ == kind,
        },
{
    let target = match state.open_marker_line {
        Some(open) => open.target,
        None => ContinuationTarget::PartText,
    };
    if let ContinuationTarget::PartText = target {
        if let Some(character) = find_reserved_char(body, 0, body.len()) {
            proof {
                assert(body@.subrange(0, body@.len() as int) =~= body@);
            }
            return Err(
                ParseLyricsErrorKind::CueTextReservedCharacter(
                    CueTextReservedCharacter { character },
                ),
            );
        }
        proof {
            assert(body@.subrange(0, body@.len() as int) =~= body@);
        }
    }
    let ghost events = state_view(*state).events;
    let mut group = take_open_group(state, Ghost(k));
    let ghost old_parts = group.parts@;
    let mut part = match group.parts.pop() {
        Some(part) => part,
        None => {
            proof {
                assert(false);
            }
            return Ok(());
        },
    };
    let ghost old_part = part@;
    proof {
        assert(old_part == parts_view(old_parts).last());
    }
    match target {
        ContinuationTarget::PartText => {
            continue_text(&mut part.text, body);
        },
        ContinuationTarget::AnnotationText => {
            let ghost old_notes = part.annotations@;
            let mut note = match part.annotations.pop() {
                Some(note) => note,
                None => {
                    proof {
                        assert(false);
                    }
                    String::new()
                },
            };
            let ghost old_note = note@;
            continue_text(&mut note, body);
            part.annotations.push(note);
            proof {
                assert(old_note == texts(old_notes).last());
                assert(texts(part.annotations@) =~= texts(old_notes).update(
                    old_notes.len() - 1,
                    continued(texts(old_notes).last(), body@),
                ));
            }
        },
    }
    group.parts.push(part);
    proof {
        assert(parts_view(group.parts@) =~= parts_view(old_parts).update(
            old_parts.len() - 1,
            part@,
        ));
    }
    restore_open_group(state, group, Ghost(events));
    Ok(())
}

impl RegionState {
    /// Opens a region whose `<additive>` sits on line `opened_at`, unless
    /// one is open already.
    fn open_region(&mut self, opened_at: usize) -> (result: Result<(), AdditiveRegionError>)
        requires
            old(self).opened < usize::MAX,
        ensures
            match old(self).open {
                Some(open) => result == Err::<(), AdditiveRegionError>(
                    AdditiveRegionError::Nested(NestedRegion { opened_at: open.opened_at }),
                ) && *final(self) == *old(self),
                None => {
                    &&& result is Ok
                    &&& final(self).open matches Some(o) && o.index == old(self).opened
                        && o.opened_at@ == opened_at && o.cue_count == 0
                    &&& final(self).opened == old(self).opened + 1
                },
            },
    {
        if let Some(open) = self.open {
            return Err(AdditiveRegionError::Nested(NestedRegion { opened_at: open.opened_at }));
        }
        self.open = Some(
            OpenRegion { index: self.opened, opened_at: LineNumber::new(opened_at), cue_count: 0 },
        );
        self.opened = self.opened + 1;
        Ok(())
    }

    /// Closes the open region, unless there is none or it holds no cue;
    /// a rejected tag leaves the state as it was.
    fn close_region(&mut self) -> (result: Result<(), AdditiveRegionError>)
        ensures
            match old(self).open {
                None => result == Err::<(), AdditiveRegionError>(
                    AdditiveRegionError::Unopened(UnopenedRegion),
                ) && *final(self) == *old(self),
                Some(open) => if open.cue_count == 0 {
                    result == Err::<(), AdditiveRegionError>(
                        AdditiveRegionError::Empty(EmptyRegion { opened_at: open.opened_at }),
                    ) && *final(self) == *old(self)
                } else {
                    result is Ok && final(self).open is None && final(self).opened
                        == old(self).opened
                },
            },
    {
        let open = match self.open {
            Some(open) => open,
            None => {
                return Err(AdditiveRegionError::Unopened(UnopenedRegion));
            },
        };
        if open.cue_count == 0 {
            return Err(AdditiveRegionError::Empty(EmptyRegion { opened_at: open.opened_at }));
        }
        self.open = None;
        Ok(())
    }
}

/// Ends the scope of the cue above a region tag: no continuation or
/// shorthand line reaches across it.
fn end_cue_scope(state: &mut ParserState)
    ensures
        final(state).events == old(state).events,
        final(state).regions == old(state).regions,
        final(state).last_cue_index is None,
        final(state).open_marker_line is None,
{
    state.last_cue_index = None;
    state.open_marker_line = None;
}

/// Reads line `line_number`, whose text is `line`.
fn read_line(state: &mut ParserState, line: &Vec<char>, line_number: usize) -> (result: Result<
    (),
    ParseLyricsErrorKind,
>)
    requires
        1 <= line_number,
        wf_state(state_view(*old(state)), (line_number - 1) as nat),
    ensures
        match step(state_view(*old(state)), line@, line_number as nat) {
            Ok(st) => result is Ok && state_view(*final(state)) == st,
            Err(kind) => result matches Err(e) && e@ == kind,
        },
{
    let ghost k = (line_number - 1) as nat;
    let first = skip_whitespace(line, 0);
    proof {
        assert(line@.skip(0) =~= line@);
        lemma_prefix_len(line@, ws());
        if first == line@.len() {
            assert(all_ws(line@));
        } else {
            assert(!is_ws(line@[first as int]));
            assert(trim_start(line@)[0] == line@[first as int]);
        }
    }
    if first == line.len() || line[first] == '#' {
        return Ok(());
    }
    let indent = span_while(line, 0, is_space, Ghost(space()));
    if indent < line.len() && line[indent] == '\t' {
        return Err(ParseLyricsErrorKind::TabIndentation(TabIndentation));
    }
    let body = vec_of(line, indent, line.len());
    proof {
        assert(body@ =~= line@.skip(indent as int));
        lemma_prefix_len(line@, space());
        if indent > first {
            assert(space()(line@[first as int]));
        }
    }
    if indent == 0 {
        if is_opening_tag(&body) {
            match state.regions.open_region(line_number) {
                Ok(()) => {},
                Err(e) => {
                    return Err(ParseLyricsErrorKind::AdditiveRegion(e));
                },
            }
            end_cue_scope(state);
            Ok(())
        } else if is_closing_tag(&body) {
            match state.regions.close_region() {
                Ok(()) => {},
                Err(e) => {
                    return Err(ParseLyricsErrorKind::AdditiveRegion(e));
                },
            }
            end_cue_scope(state);
            Ok(())
        } else if body[0] == '<' {
            proof {
                assert(body@.subrange(0, body@.len() as int) =~= body@);
            }
            Err(
                ParseLyricsErrorKind::MalformedTagLine(
                    MalformedTagLine { content: string_of(&body, 0, body.len()) },
                ),
            )
        } else {
            handle_header_line(state, &body, line_number)
        }
    } else if indent == TIMESTAMP_PREFIX_WIDTH {
        handle_shorthand_marker_line(state, &body, Ghost(k))
    } else {
        let continuation = match state.open_marker_line {
            Some(open) => open.marker_prefix_width <= usize::MAX - TIMESTAMP_PREFIX_WIDTH && indent
                == TIMESTAMP_PREFIX_WIDTH + open.marker_prefix_width,
            None => false,
        };
        if continuation {
            handle_continuation_line(state, &body, Ghost(k))
        } else {
            let continuation_indent = match state.open_marker_line {
                Some(open) => {
                    if open.marker_prefix_width <= usize::MAX - TIMESTAMP_PREFIX_WIDTH {
                        Some(TIMESTAMP_PREFIX_WIDTH + open.marker_prefix_width)
                    } else {
                        Some(usize::MAX)
                    }
                },
                None => None,
            };
            Err(
                ParseLyricsErrorKind::MalformedIndentation(
                    MalformedIndentation {
                        actual: indent,
                        shorthand_indent: TIMESTAMP_PREFIX_WIDTH,
                        continuation_indent,
                    },
                ),
            )
        }
    }
}

/// Whether `c` is an ASCII space.
fn is_space(c: char) -> (result: bool)
    ensures
        result == space()(c),
{
    c == ' '
}

/// Once reading the lines fails, reading more of them fails the same way.
proof fn lemma_run_error_stays(lines: Seq<Seq<char>>, k: nat, m: nat)
    requires
        k <= m,
        run(lines, k) is Err,
    ensures
        run(lines, m) == run(lines, k),
    decreases m - k,
{
    if k < m {
        lemma_run_error_stays(lines, k, (m - 1) as nat);
    }
}

/// The views of a list of lines.
pub open spec fn lines_view(lines: Seq<Vec<char>>) -> Seq<Seq<char>> {
    lines.map_values(|l: Vec<char>| l@)
}

/// The events of the file whose lines are `lines`, or the first
/// diagnostic with the line that raised it.
fn collect_events(lines: &Vec<Vec<char>>) -> (result: Result<Vec<Event>, ParseLyricsError>)
    ensures
        match run(lines_view(lines@), lines@.len()) {
            Err(e) => result matches Err(error) && error@ == e,
            Ok(st) => match st.open_region {
                Some(r) => result matches Err(error) && error@ == (
                    r.opened_at,
                    KindModel::UnclosedRegion,
                ),
                None => result matches Ok(events) && events_view(events@) == st.events
                    && wf_state(st, lines@.len()),
            },
        },
{
    let mut state = initial_parser_state();
    let mut i: usize = 0;
    while i < lines.len()
        invariant
            0 <= i <= lines@.len(),
            run(lines_view(lines@), i as nat) == Ok::<StateModel, (nat, KindModel)>(
                state_view(state),
            ),
            wf_state(state_view(state), i as nat),
        decreases lines@.len() - i,
    {
        let ghost before = state_view(state);
        proof {
            assert(lines_view(lines@)[i as int] == lines@[i as int]@);
        }
        match read_line(&mut state, &lines[i], i + 1) {
            Ok(()) => {
                proof {
                    lemma_step_wf(before, lines@[i as int]@, (i + 1) as nat);
                }
            },
            Err(kind) => {
                proof {
                    lemma_run_error_stays(lines_view(lines@), (i + 1) as nat, lines@.len());
                }
                return Err(ParseLyricsError { line_number: LineNumber::new(i + 1), kind });
            },
        }
        i = i + 1;
    }
    if let Some(open) = state.regions.open {
        return Err(
            ParseLyricsError {
                line_number: open.opened_at,
                kind: ParseLyricsErrorKind::AdditiveRegion(
                    AdditiveRegionError::Unclosed(UnclosedRegion),
                ),
            },
        );
    }
    Ok(state.events)
}

/// A copy of a list of strings.
fn clone_texts(strings: &Vec<String>) -> (result: Vec<String>)
    ensures
        texts(result@) == texts(strings@),
{
    let mut result: Vec<String> = Vec::new();
    let mut i: usize = 0;
    while i < strings.len()
        invariant
            0 <= i <= strings@.len(),
            texts(result@) == texts(strings@).take(i as int),
        decreases strings@.len() - i,
    {
        let ghost before = result@;
        result.push(strings[i].clone());
        proof {
            assert(texts(result@) =~= texts(before).push(strings@[i as int]@));
            assert(texts(strings@).take(i + 1) =~= texts(strings@).take(i as int).push(
                strings@[i as int]@,
            ));
        }
        i = i + 1;
    }
    proof {
        assert(texts(strings@).take(strings@.len() as int) =~= texts(strings@));
    }
    result
}

/// A copy of `part`.
fn clone_part(part: &CuePart) -> (result: CuePart)
    ensures
        result@ == part@,
{
    CuePart {
        marker: part.marker.duplicate(),
        text: part.text.clone(),
        annotations: clone_texts(&part.annotations),
    }
}

/// A copy of `part` for the cues below it in a region, without its
/// annotations.
fn carried_copy(part: &CuePart) -> (result: CuePart)
    ensures
        result@ == carried_part(part@),
{
    let result = CuePart {
        marker: part.marker.duplicate(),
        text: part.text.clone(),
        annotations: Vec::new(),
    };
    proof {
        assert(texts(result.annotations@) =~= Seq::<Seq<char>>::empty());
    }
    result
}

/// Appends copies of `parts` (or, when `carry` holds, their carried
/// copies) to `target`.
fn append_parts(target: &mut Vec<CuePart>, parts: &Vec<CuePart>, carry: bool)
    ensures
        parts_view(final(target)@) == parts_view(old(target)@) + (if carry {
            parts_view(parts@).map_values(|p: PartModel| carried_part(p))
        } else {
            parts_view(parts@)
        }),
{
    let ghost before = parts_view(target@);
    let ghost source = if carry {
        parts_view(parts@).map_values(|p: PartModel| carried_part(p))
    } else {
        parts_view(parts@)
    };
    let mut i: usize = 0;
    while i < parts.len()
        invariant
            0 <= i <= parts@.len(),
            source.len() == parts@.len(),
            source == (if carry {
                parts_view(parts@).map_values(|p: PartModel| carried_part(p))
            } else {
                parts_view(parts@)
            }),
            parts_view(target@) == before + source.take(i as int),
        decreases parts@.len() - i,
    {
        let ghost previous = target@;
        let copy = if carry {
            carried_copy(&parts[i])
        } else {
            clone_part(&parts[i])
        };
        target.push(copy);
        proof {
            assert(source[i as int] == copy@);
            assert(parts_view(target@) =~= parts_view(previous).push(copy@));
            assert(source.take(i + 1) =~= source.take(i as int).push(source[i as int]));
        }
        i = i + 1;
    }
    proof {
        assert(source.take(parts@.len() as int) =~= source);
    }
}

/// Whether two region indices are the same.
fn same_region(a: Option<usize>, b: Option<usize>) -> (result: bool)
    ensures
        result == (a == b),
{
    match (a, b) {
        (Some(x), Some(y)) => x == y,
        (None, None) => true,
        _ => false,
    }
}

/// The model of a region index.
spec fn region_model(region: Option<usize>) -> Option<nat> {
    match region {
        Some(r) => Some(r as nat),
        None => None,
    }
}

/// Once resolving the events fails, resolving more of them fails the same
/// way.
proof fn lemma_resolve_error_stays(events: Seq<EventModel>, k: nat, m: nat)
    requires
        k <= m,
        resolve_upto(events, k) is Err,
    ensures
        resolve_upto(events, m) == resolve_upto(events, k),
    decreases m - k,
{
    if k < m {
        lemma_resolve_error_stays(events, k, (m - 1) as nat);
    }
}

/// The cues of `events`: each cue group ends where the next event starts,
/// and a group inside a region first repeats the parts of the groups
/// above it in that region.
fn resolve_cues(events: &Vec<Event>) -> (result: Result<Vec<SubtitleCue>, ParseLyricsError>)
    ensures
        match resolve_upto(events_view(events@), events@.len()) {
            Ok(rs) => result matches Ok(cues) && cues_view(cues@) == rs.cues,
            Err(e) => result matches Err(error) && error@ == e,
        },
{
    let ghost ev = events_view(events@);
    let mut cues: Vec<SubtitleCue> = Vec::new();
    let mut carried_region: Option<usize> = None;
    let mut carried: Vec<CuePart> = Vec::new();
    proof {
        assert(cues_view(cues@) =~= Seq::<CueModel>::empty());
        assert(parts_view(carried@) =~= Seq::<PartModel>::empty());
    }
    let mut i: usize = 0;
    while i < events.len()
        invariant
            0 <= i <= events@.len(),
            ev == events_view(events@),
            resolve_upto(ev, i as nat) == Ok::<ResolveModel, (nat, KindModel)>(
                ResolveModel {
                    cues: cues_view(cues@),
                    carried_region: region_model(carried_region),
                    carried: parts_view(carried@),
                },
            ),
        decreases events@.len() - i,
    {
        proof {
            assert(ev[i as int] == event_view(events@[i as int]));
        }
        match &events[i] {
            Event::Clear(_) => {},
            Event::Cue(group) => {
                if i + 1 >= events.len() {
                    proof {
                        lemma_resolve_error_stays(ev, (i + 1) as nat, events@.len());
                    }
                    return Err(
                        ParseLyricsError {
                            line_number: group.opened_at,
                            kind: ParseLyricsErrorKind::UnclosedCue(UnclosedCue { start: group.start }),
                        },
                    );
                }
                let end = event_start_of(&events[i + 1]);
                proof {
                    assert(ev[i + 1] == event_view(events@[i + 1]));
                }
                if !same_region(group.region, carried_region) {
                    carried_region = group.region;
                    carried = Vec::new();
                    proof {
                        assert(parts_view(carried@) =~= Seq::<PartModel>::empty());
                    }
                }
                let mut parts: Vec<CuePart> = Vec::new();
                proof {
                    assert(parts_view(parts@) =~= Seq::<PartModel>::empty());
                }
                append_parts(&mut parts, &carried, false);
                append_parts(&mut parts, &group.parts, false);
                if group.region.is_some() {
                    let mut next: Vec<CuePart> = Vec::new();
                    proof {
                        assert(parts_view(next@) =~= Seq::<PartModel>::empty());
                    }
                    append_parts(&mut next, &parts, true);
                    carried = next;
                    proof {
                        assert(parts_view(carried@) =~= parts_view(parts@).map_values(
                            |p: PartModel| carried_part(p),
                        ));
                    }
                }
                let ghost before = cues_view(cues@);
                let cue = SubtitleCue { start: group.start, end, parts };
                cues.push(cue);
                proof {
                    assert(cues_view(cues@) =~= before.push(cue@));
                }
            },
        }
        i = i + 1;
    }
    Ok(cues)
}

/// Parses `content` into its cues, ordered by start time, or reports the
/// first problem with the line it concerns.
pub fn parse_lyrics(content: &str) -> (result: Result<Vec<SubtitleCue>, ParseLyricsError>)
    ensures
        match parse_lyrics_model(content@) {
            Ok(cues) => result matches Ok(c) && cues_view(c@) == cues,
            Err(e) => result matches Err(error) && error@ == e,
        },
{
    let chars = chars_of(content);
    let lines = split_lines(&chars);
    let events = collect_events(&lines)?;
    resolve_cues(&events)
}

} // verus!
