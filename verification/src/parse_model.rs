//! What the lyrics parser computes, stated over character sequences.
//!
//! A `lyrics.{lang}.txt` file is read line by line. Each line moves a
//! [`StateModel`] forward ([`step`]): a timestamped header line opens a
//! cue group or records a `clr` event, a shorthand line at column
//! [`TIMESTAMP_PREFIX_WIDTH`] adds a part or an annotation to the open
//! group, a continuation line extends the most recent part or annotation,
//! and `<additive>` / `</additive>` lines delimit regions. The events are
//! then resolved into cues ([`resolve_upto`]): each cue ends where the
//! next event starts, and a cue inside a region repeats the parts of the
//! cues above it in that region.

use crate::descriptors::{reserved_of_token, reserved_token, ReservedMarker};
use crate::parse_error::KindModel;
use crate::text::{
    all_ws, find_char, is_ws, lemma_prefix_len, lemma_prefix_len_is, lemma_suffix_len, non_ws,
    not_char, suffix_len, trim_end, prefix_len, saturate, trim, trim_start, ws,
};
use crate::timestamp::{lemma_timestamp_round_trip, render_mm_ss_mmm, take_timestamp, TakeOutcome};
use vstd::prelude::*;
use vstd::utf8::encode_utf8;

verus! {

/// Indent width of a shorthand marker line: the character length of an
/// `MM:SS.mmm` timestamp plus one space.
pub const TIMESTAMP_PREFIX_WIDTH: usize = 10;

/// One marker-text pair of a cue, with its annotations.
pub struct PartModel {
    pub marker: Seq<char>,
    pub text: Seq<char>,
    pub annotations: Seq<Seq<char>>,
}

/// A cue with its resolved end time.
pub struct CueModel {
    pub start: int,
    pub end: int,
    pub parts: Seq<PartModel>,
}

/// A cue group as read from the file, before its end time is known.
pub struct GroupModel {
    pub start: int,
    pub opened_at: nat,
    pub region: Option<nat>,
    pub parts: Seq<PartModel>,
}

/// An event of the file: a cue group, or a `clr` at a start time.
pub enum EventModel {
    Cue(GroupModel),
    Clear(int),
}

/// The marker line a continuation would extend: the width of its
/// `marker: ` prefix (`usize::MAX` when that does not fit), and whether it
/// is an annotation rather than a part.
pub struct OpenLineModel {
    pub width: int,
    pub annotation: bool,
}

/// The `<additive>` region currently open: its index among the regions of
/// the file, the line of its opening tag, and how many cue groups it has.
pub struct RegionModel {
    pub index: nat,
    pub opened_at: nat,
    pub cue_count: nat,
}

/// What the parser knows after some prefix of the lines.
pub struct StateModel {
    pub events: Seq<EventModel>,
    pub last_cue: Option<nat>,
    pub open_line: Option<OpenLineModel>,
    pub open_region: Option<RegionModel>,
    pub opened: nat,
}

/// What resolving a prefix of the events has produced: the cues, and the
/// region whose parts the next cue of that region repeats.
pub struct ResolveModel {
    pub cues: Seq<CueModel>,
    pub carried_region: Option<nat>,
    pub carried: Seq<PartModel>,
}

/// The start time of an event.
pub open spec fn event_start(event: EventModel) -> int {
    match event {
        EventModel::Cue(group) => group.start,
        EventModel::Clear(start) => start,
    }
}

/// The state before the first line.
pub open spec fn initial_state() -> StateModel {
    StateModel {
        events: Seq::empty(),
        last_cue: None,
        open_line: None,
        open_region: None,
        opened: 0,
    }
}

/// A line without the `\r` of a `\r\n` ending.
pub open spec fn strip_cr(line: Seq<char>) -> Seq<char> {
    if line.len() > 0 && line.last() == '\r' {
        line.drop_last()
    } else {
        line
    }
}

/// The lines of `s`, as `str::lines` yields them: split at `\n`, a `\r`
/// before the `\n` dropped, no empty line after a final `\n`.
pub open spec fn lines_of(s: Seq<char>) -> Seq<Seq<char>>
    decreases s.len(),
{
    if s.len() == 0 {
        Seq::empty()
    } else {
        let k = find_char(s, '\n');
        if k < s.len() {
            seq![strip_cr(s.take(k as int))] + lines_of(s.skip(k + 1 as int))
        } else {
            seq![s]
        }
    }
}

/// The predicate that holds of an ASCII space.
pub open spec fn space() -> spec_fn(char) -> bool {
    |c: char| c == ' '
}

/// Whether `c` may continue a tag name.
pub open spec fn is_tag_name_char(c: char) -> bool {
    ('a' <= c && c <= 'z') || ('0' <= c && c <= '9') || c == '-'
}

/// The tag-name predicate as a value.
pub open spec fn tag_name_char() -> spec_fn(char) -> bool {
    |c: char| is_tag_name_char(c)
}

/// The name of the one tag the format knows.
pub open spec fn additive_name() -> Seq<char> {
    seq!['a', 'd', 'd', 'i', 't', 'i', 'v', 'e']
}

/// Whether `body`, read from position `start`, is the tag name `additive`
/// followed by `>` and nothing but whitespace.
pub open spec fn additive_tag_rest(body: Seq<char>, start: int) -> bool {
    let m = prefix_len(body.skip(start), tag_name_char());
    &&& body.subrange(start, start + m) == additive_name()
    &&& start + m < body.len()
    &&& body[start + m] == '>'
    &&& all_ws(body.skip(start + m + 1))
}

/// Whether `body` is an `<additive>` tag line.
pub open spec fn is_opening_tag_line(body: Seq<char>) -> bool {
    body.len() >= 1 && body[0] == '<' && additive_tag_rest(body, 1)
}

/// Whether `body` is an `</additive>` tag line.
pub open spec fn is_closing_tag_line(body: Seq<char>) -> bool {
    body.len() >= 2 && body[0] == '<' && body[1] == '/' && additive_tag_rest(body, 2)
}

/// The width of the `marker: ` prefix of a marker line: the UTF-8 byte
/// length of the marker, a colon, and a space.
pub open spec fn marker_width(marker: Seq<char>) -> int {
    encode_utf8(marker).len() as int + 2
}

/// `body` split at its first `:` into the trimmed marker and the trimmed
/// text, or `None` when there is no `:` or the marker is empty.
pub open spec fn split_marker(body: Seq<char>) -> Option<(Seq<char>, Seq<char>)> {
    let k = find_char(body, ':');
    if k >= body.len() {
        None
    } else {
        let marker = trim(body.take(k as int));
        if marker.len() == 0 {
            None
        } else {
            Some((marker, trim(body.skip(k + 1 as int))))
        }
    }
}

/// The predicate that holds of every character but `<` and `>`.
pub open spec fn not_angle() -> spec_fn(char) -> bool {
    |c: char| c != '<' && c != '>'
}

/// The first `<` or `>` of `text`, if any.
pub open spec fn reserved_char_in(text: Seq<char>) -> Option<char> {
    let k = prefix_len(text, not_angle());
    if k < text.len() {
        Some(text[k as int])
    } else {
        None
    }
}

/// The marker and text of a `marker: text` body, or why it is rejected.
pub open spec fn marker_part(body: Seq<char>) -> Result<(Seq<char>, Seq<char>), KindModel> {
    match reserved_char_in(body) {
        Some(c) => Err(KindModel::CueTextReservedCharacter(c)),
        None => match split_marker(body) {
            None => Err(KindModel::MissingMarker(body)),
            Some((marker, text)) => match reserved_of_token(marker) {
                Some(reserved) => Err(KindModel::ReservedControlMarker(reserved)),
                None => if text.len() == 0 {
                    Err(KindModel::EmptyCueBody(marker))
                } else {
                    Ok((marker, text))
                },
            },
        },
    }
}

/// The text of an `ann: text` body, or `None` for any other body.
pub open spec fn annotation_body(body: Seq<char>) -> Option<Seq<char>> {
    match split_marker(body) {
        Some((marker, text)) => if marker == reserved_token(ReservedMarker::Annotation) {
            Some(text)
        } else {
            None
        },
        None => None,
    }
}

/// Why an event starting at `start` may not follow `events`, if it may
/// not: starts must strictly increase.
pub open spec fn order_error(start: int, events: Seq<EventModel>) -> Option<KindModel> {
    if events.len() == 0 {
        None
    } else {
        let previous = event_start(events.last());
        if previous == start {
            Some(KindModel::RepeatedTimestamp(start))
        } else if start < previous {
            Some(KindModel::OutOfOrder(previous, start))
        } else {
            None
        }
    }
}

/// A new part with no annotations.
pub open spec fn new_part(marker: Seq<char>, text: Seq<char>) -> PartModel {
    PartModel { marker, text, annotations: Seq::empty() }
}

/// The state after a control marker `marker` at `start` on a header line
/// whose body after the marker is `rest`.
pub open spec fn control_step(
    st: StateModel,
    start: int,
    marker: ReservedMarker,
    rest: Seq<char>,
) -> Result<StateModel, KindModel> {
    if trim(rest).len() > 0 {
        Err(KindModel::ExtraTextAfterControlMarker(marker, trim(rest)))
    } else if st.open_region is Some {
        Err(KindModel::ControlMarkerInRegion(marker, st.open_region->0.opened_at))
    } else if marker is Clear {
        match order_error(start, st.events) {
            Some(e) => Err(e),
            None => Ok(
                StateModel {
                    events: st.events.push(EventModel::Clear(start)),
                    last_cue: None,
                    open_line: None,
                    ..st
                },
            ),
        }
    } else {
        Ok(st)
    }
}

/// The state after a header line at line `n` that opens a cue group
/// starting at `start` with the body `cue_body`.
pub open spec fn cue_step(st: StateModel, start: int, cue_body: Seq<char>, n: nat) -> Result<
    StateModel,
    KindModel,
> {
    match order_error(start, st.events) {
        Some(e) => Err(e),
        None => match marker_part(cue_body) {
            Err(e) => Err(e),
            Ok((marker, text)) => Ok(
                StateModel {
                    events: st.events.push(
                        EventModel::Cue(
                            GroupModel {
                                start,
                                opened_at: n,
                                region: match st.open_region {
                                    Some(r) => Some(r.index),
                                    None => None,
                                },
                                parts: seq![new_part(marker, text)],
                            },
                        ),
                    ),
                    last_cue: Some(st.events.len()),
                    open_line: Some(
                        OpenLineModel { width: saturate(marker_width(marker)) as int, annotation: false },
                    ),
                    open_region: match st.open_region {
                        Some(r) => Some(RegionModel { cue_count: r.cue_count + 1, ..r }),
                        None => None,
                    },
                    ..st
                },
            ),
        },
    }
}

/// The state after a column-zero header line `body` at line `n`.
pub open spec fn header_step(st: StateModel, body: Seq<char>, n: nat) -> Result<StateModel, KindModel> {
    match take_timestamp(body) {
        TakeOutcome::ShapeMismatch => Err(KindModel::MalformedHeader(body)),
        TakeOutcome::Taken { ms, tail } => {
            let cue_body = trim_start(tail);
            if cue_body.len() == tail.len() {
                Err(KindModel::MissingSeparatorAfterTimestamp(body))
            } else {
                let token = cue_body.take(prefix_len(cue_body, non_ws()) as int);
                match reserved_of_token(token) {
                    Some(marker) => if marker is Annotation {
                        cue_step(st, ms, cue_body, n)
                    } else {
                        control_step(st, ms, marker, cue_body.skip(token.len() as int))
                    },
                    None => cue_step(st, ms, cue_body, n),
                }
            }
        },
        outcome => Err(KindModel::InvalidTimestamp(outcome)),
    }
}

/// The group of event `i`, when it is a cue group.
pub open spec fn group_at(events: Seq<EventModel>, i: int) -> GroupModel {
    match events[i] {
        EventModel::Cue(group) => group,
        EventModel::Clear(_) => GroupModel {
            start: 0,
            opened_at: 0,
            region: None,
            parts: Seq::empty(),
        },
    }
}

/// `events` with the parts of the group at `i` replaced by `parts`.
pub open spec fn with_parts(events: Seq<EventModel>, i: int, parts: Seq<PartModel>) -> Seq<
    EventModel,
> {
    events.update(i, EventModel::Cue(GroupModel { parts, ..group_at(events, i) }))
}

/// The state after a shorthand line `body` (at column
/// [`TIMESTAMP_PREFIX_WIDTH`]).
pub open spec fn shorthand_step(st: StateModel, body: Seq<char>) -> Result<StateModel, KindModel> {
    match annotation_body(body) {
        Some(text) => match st.last_cue {
            None => Err(KindModel::OrphanedAnnotation(body)),
            Some(i) => if text.len() == 0 {
                Err(KindModel::EmptyAnnotation)
            } else {
                let parts = group_at(st.events, i as int).parts;
                let part = parts.last();
                Ok(
                    StateModel {
                        events: with_parts(
                            st.events,
                            i as int,
                            parts.update(
                                parts.len() - 1,
                                PartModel { annotations: part.annotations.push(text), ..part },
                            ),
                        ),
                        open_line: Some(
                            OpenLineModel {
                                width: saturate(marker_width(reserved_token(ReservedMarker::Annotation))) as int,
                                annotation: true,
                            },
                        ),
                        ..st
                    },
                )
            },
        },
        None => match st.last_cue {
            None => Err(KindModel::OrphanedShorthandMarker(body)),
            Some(i) => match marker_part(body) {
                Err(e) => Err(e),
                Ok((marker, text)) => Ok(
                    StateModel {
                        events: with_parts(
                            st.events,
                            i as int,
                            group_at(st.events, i as int).parts.push(new_part(marker, text)),
                        ),
                        open_line: Some(
                            OpenLineModel {
                                width: saturate(marker_width(marker)) as int,
                                annotation: false,
                            },
                        ),
                        ..st
                    },
                ),
            },
        },
    }
}

/// `text` extended by a continuation line `body`.
pub open spec fn continued(text: Seq<char>, body: Seq<char>) -> Seq<char> {
    text.push('\n') + body
}

/// The state after a continuation line `body` of the open marker line.
pub open spec fn continuation_step(st: StateModel, body: Seq<char>) -> Result<StateModel, KindModel> {
    let i = st.last_cue->0 as int;
    let parts = group_at(st.events, i).parts;
    let part = parts.last();
    if st.open_line->0.annotation {
        let notes = part.annotations;
        Ok(
            StateModel {
                events: with_parts(
                    st.events,
                    i,
                    parts.update(
                        parts.len() - 1,
                        PartModel {
                            annotations: notes.update(
                                notes.len() - 1,
                                continued(notes.last(), body),
                            ),
                            ..part
                        },
                    ),
                ),
                ..st
            },
        )
    } else {
        match reserved_char_in(body) {
            Some(c) => Err(KindModel::CueTextReservedCharacter(c)),
            None => Ok(
                StateModel {
                    events: with_parts(
                        st.events,
                        i,
                        parts.update(
                            parts.len() - 1,
                            PartModel { text: continued(part.text, body), ..part },
                        ),
                    ),
                    ..st
                },
            ),
        }
    }
}

/// The state after an `<additive>` line at line `n`.
pub open spec fn opening_tag_step(st: StateModel, n: nat) -> Result<StateModel, KindModel> {
    match st.open_region {
        Some(r) => Err(KindModel::NestedRegion(r.opened_at)),
        None => Ok(
            StateModel {
                open_region: Some(RegionModel { index: st.opened, opened_at: n, cue_count: 0 }),
                opened: st.opened + 1,
                last_cue: None,
                open_line: None,
                ..st
            },
        ),
    }
}

/// The state after an `</additive>` line.
pub open spec fn closing_tag_step(st: StateModel) -> Result<StateModel, KindModel> {
    match st.open_region {
        None => Err(KindModel::UnopenedRegion),
        Some(r) => if r.cue_count == 0 {
            Err(KindModel::EmptyRegion(r.opened_at))
        } else {
            Ok(StateModel { open_region: None, last_cue: None, open_line: None, ..st })
        },
    }
}

/// Whether `line` is skipped: blank, or a `#` comment.
pub open spec fn is_skipped_line(line: Seq<char>) -> bool {
    all_ws(line) || trim_start(line)[0] == '#'
}

/// The state after line number `n`, whose text is `line`.
pub open spec fn step(st: StateModel, line: Seq<char>, n: nat) -> Result<StateModel, KindModel> {
    let indent = prefix_len(line, space());
    let body = line.skip(indent as int);
    if is_skipped_line(line) {
        Ok(st)
    } else if indent < line.len() && line[indent as int] == '\t' {
        Err(KindModel::TabIndentation)
    } else if indent == 0 {
        if is_opening_tag_line(body) {
            opening_tag_step(st, n)
        } else if is_closing_tag_line(body) {
            closing_tag_step(st)
        } else if body[0] == '<' {
            Err(KindModel::MalformedTagLine(body))
        } else {
            header_step(st, body, n)
        }
    } else if indent == TIMESTAMP_PREFIX_WIDTH {
        shorthand_step(st, body)
    } else if st.open_line is Some && indent == TIMESTAMP_PREFIX_WIDTH + st.open_line->0.width {
        continuation_step(st, body)
    } else {
        Err(
            KindModel::MalformedIndentation {
                actual: indent as int,
                shorthand: TIMESTAMP_PREFIX_WIDTH as int,
                continuation: match st.open_line {
                    Some(open) => Some(saturate(TIMESTAMP_PREFIX_WIDTH + open.width) as int),
                    None => None,
                },
            },
        )
    }
}

/// The state after the first `k` lines, or the first diagnostic with the
/// number of the line that raised it.
pub open spec fn run(lines: Seq<Seq<char>>, k: nat) -> Result<StateModel, (nat, KindModel)>
    decreases k,
{
    if k == 0 {
        Ok(initial_state())
    } else {
        match run(lines, (k - 1) as nat) {
            Err(e) => Err(e),
            Ok(st) => match step(st, lines[k - 1], k) {
                Err(kind) => Err((k, kind)),
                Ok(next) => Ok(next),
            },
        }
    }
}

/// The events of `content`, or the first diagnostic. A region still open
/// at the end of the file is reported at its opening line.
pub open spec fn collect_events(content: Seq<char>) -> Result<Seq<EventModel>, (nat, KindModel)> {
    let lines = lines_of(content);
    match run(lines, lines.len()) {
        Err(e) => Err(e),
        Ok(st) => match st.open_region {
            Some(r) => Err((r.opened_at, KindModel::UnclosedRegion)),
            None => Ok(st.events),
        },
    }
}

/// A copy of `part` for the cues below it in a region: its annotations
/// stay with the cue they were written under.
pub open spec fn carried_part(part: PartModel) -> PartModel {
    PartModel { annotations: Seq::empty(), ..part }
}

/// The resolution state before the first event.
pub open spec fn initial_resolve() -> ResolveModel {
    ResolveModel { cues: Seq::empty(), carried_region: None, carried: Seq::empty() }
}

/// Resolution of event `i` of `events`.
pub open spec fn resolve_step(events: Seq<EventModel>, i: int, rs: ResolveModel) -> Result<
    ResolveModel,
    (nat, KindModel),
> {
    match events[i] {
        EventModel::Clear(_) => Ok(rs),
        EventModel::Cue(group) => if i + 1 >= events.len() {
            Err((group.opened_at, KindModel::UnclosedCue(group.start)))
        } else {
            let carried = if group.region == rs.carried_region {
                rs.carried
            } else {
                Seq::empty()
            };
            let parts = carried + group.parts;
            Ok(
                ResolveModel {
                    cues: rs.cues.push(
                        CueModel { start: group.start, end: event_start(events[i + 1]), parts },
                    ),
                    carried_region: group.region,
                    carried: if group.region is Some {
                        parts.map_values(|p: PartModel| carried_part(p))
                    } else {
                        carried
                    },
                },
            )
        },
    }
}

/// The resolution of the first `k` events.
pub open spec fn resolve_upto(events: Seq<EventModel>, k: nat) -> Result<ResolveModel, (nat, KindModel)>
    decreases k,
{
    if k == 0 {
        Ok(initial_resolve())
    } else {
        match resolve_upto(events, (k - 1) as nat) {
            Err(e) => Err(e),
            Ok(rs) => resolve_step(events, k - 1, rs),
        }
    }
}

/// The cues of `content`, ordered by start time, or the first diagnostic
/// with the number of the line it names.
pub open spec fn parse_lyrics_model(content: Seq<char>) -> Result<Seq<CueModel>, (nat, KindModel)> {
    match collect_events(content) {
        Err(e) => Err(e),
        Ok(events) => match resolve_upto(events, events.len()) {
            Err(e) => Err(e),
            Ok(rs) => Ok(rs.cues),
        },
    }
}

} // verus!

verus! {

/// Whether the start times of `events` strictly increase.
pub open spec fn increasing(events: Seq<EventModel>) -> bool {
    forall|i: int, j: int|
        0 <= i < j < events.len() ==> event_start(#[trigger] events[i]) < event_start(
            #[trigger] events[j],
        )
}

/// What holds of the state after `k` lines: the open cue group is the
/// last event and has a part (with an annotation when an annotation is
/// open), and event start times strictly increase.
pub open spec fn wf_state(st: StateModel, k: nat) -> bool {
    &&& st.events.len() <= k
    &&& st.opened <= k
    &&& (st.last_cue matches Some(i) ==> {
        &&& i + 1 == st.events.len()
        &&& st.events[i as int] is Cue
        &&& group_at(st.events, i as int).parts.len() >= 1
    })
    &&& (st.open_line is Some ==> st.last_cue is Some)
    &&& (st.open_line matches Some(o) && o.annotation ==> group_at(
        st.events,
        st.last_cue->0 as int,
    ).parts.last().annotations.len() >= 1)
    &&& (st.open_region matches Some(r) ==> r.cue_count <= st.events.len())
    &&& increasing(st.events)
    &&& forall|i: int|
        0 <= i < st.events.len() && #[trigger] st.events[i] is Cue ==> group_at(
            st.events,
            i,
        ).parts.len() >= 1
}

/// Appending an event that starts after the last one keeps start times
/// increasing.
pub proof fn lemma_push_increasing(events: Seq<EventModel>, event: EventModel)
    requires
        increasing(events),
        order_error(event_start(event), events) is None,
    ensures
        increasing(events.push(event)),
{
    let pushed = events.push(event);
    assert forall|i: int, j: int| 0 <= i < j < pushed.len() implies event_start(
        #[trigger] pushed[i],
    ) < event_start(#[trigger] pushed[j]) by {
        if j == events.len() {
            if i < events.len() - 1 {
                assert(event_start(events[i]) < event_start(events[events.len() - 1]));
            }
        }
    }
}

/// Replacing the parts of a cue group keeps start times and which events
/// are cue groups.
pub proof fn lemma_with_parts(events: Seq<EventModel>, i: int, parts: Seq<PartModel>)
    requires
        0 <= i < events.len(),
        events[i] is Cue,
    ensures
        with_parts(events, i, parts).len() == events.len(),
        forall|j: int|
            0 <= j < events.len() ==> event_start(#[trigger] with_parts(events, i, parts)[j])
                == event_start(events[j]),
        with_parts(events, i, parts)[i] is Cue,
        group_at(with_parts(events, i, parts), i).parts == parts,
        increasing(events) ==> increasing(with_parts(events, i, parts)),
{
    let updated = with_parts(events, i, parts);
    assert forall|j: int| 0 <= j < events.len() implies event_start(#[trigger] updated[j])
        == event_start(events[j]) by {
        if j == i {
        }
    }
    if increasing(events) {
        assert forall|a: int, b: int| 0 <= a < b < updated.len() implies event_start(
            #[trigger] updated[a],
        ) < event_start(#[trigger] updated[b]) by {
            assert(event_start(updated[a]) == event_start(events[a]));
            assert(event_start(updated[b]) == event_start(events[b]));
        }
    }
}

/// Every step keeps [`wf_state`].
pub proof fn lemma_step_wf(st: StateModel, line: Seq<char>, n: nat)
    requires
        n >= 1,
        wf_state(st, (n - 1) as nat),
        step(st, line, n) is Ok,
    ensures
        wf_state(step(st, line, n)->Ok_0, n),
{
    let indent = prefix_len(line, space());
    let body = line.skip(indent as int);
    if is_skipped_line(line) {
    } else if indent == 0 {
        if is_opening_tag_line(body) {
        } else if is_closing_tag_line(body) {
        } else {
            lemma_header_wf(st, body, n);
        }
    } else if indent == TIMESTAMP_PREFIX_WIDTH {
        lemma_shorthand_wf(st, body, n);
    } else {
        lemma_continuation_wf(st, body, n);
    }
}

/// A header line keeps [`wf_state`].
proof fn lemma_header_wf(st: StateModel, body: Seq<char>, n: nat)
    requires
        n >= 1,
        wf_state(st, (n - 1) as nat),
        header_step(st, body, n) is Ok,
    ensures
        wf_state(header_step(st, body, n)->Ok_0, n),
{
    match take_timestamp(body) {
        TakeOutcome::Taken { ms, tail } => {
            let cue_body = trim_start(tail);
            let token = cue_body.take(prefix_len(cue_body, non_ws()) as int);
            match reserved_of_token(token) {
                Some(marker) => if marker is Annotation {
                    lemma_cue_wf(st, ms, cue_body, n);
                } else {
                    if marker is Clear && trim(cue_body.skip(token.len() as int)).len() == 0
                        && st.open_region is None {
                        lemma_push_increasing(st.events, EventModel::Clear(ms));
                    }
                },
                None => lemma_cue_wf(st, ms, cue_body, n),
            }
        },
        _ => {},
    }
}

/// A header line that opens a cue group keeps [`wf_state`].
proof fn lemma_cue_wf(st: StateModel, start: int, cue_body: Seq<char>, n: nat)
    requires
        n >= 1,
        wf_state(st, (n - 1) as nat),
        cue_step(st, start, cue_body, n) is Ok,
    ensures
        wf_state(cue_step(st, start, cue_body, n)->Ok_0, n),
{
    let (marker, text) = marker_part(cue_body)->Ok_0;
    let event = EventModel::Cue(
        GroupModel {
            start,
            opened_at: n,
            region: match st.open_region {
                Some(r) => Some(r.index),
                None => None,
            },
            parts: seq![new_part(marker, text)],
        },
    );
    lemma_push_increasing(st.events, event);
    let next = cue_step(st, start, cue_body, n)->Ok_0;
    assert(next.events == st.events.push(event));
    assert(group_at(next.events, st.events.len() as int).parts.len() == 1);
}

/// A shorthand line keeps [`wf_state`].
proof fn lemma_shorthand_wf(st: StateModel, body: Seq<char>, n: nat)
    requires
        n >= 1,
        wf_state(st, (n - 1) as nat),
        shorthand_step(st, body) is Ok,
    ensures
        wf_state(shorthand_step(st, body)->Ok_0, n),
{
    let i = st.last_cue->0 as int;
    let parts = group_at(st.events, i).parts;
    match annotation_body(body) {
        Some(text) => {
            let part = parts.last();
            let new_parts = parts.update(
                parts.len() - 1,
                PartModel { annotations: part.annotations.push(text), ..part },
            );
            lemma_with_parts(st.events, i, new_parts);
        },
        None => {
            let (marker, text) = marker_part(body)->Ok_0;
            lemma_with_parts(st.events, i, parts.push(new_part(marker, text)));
        },
    }
}

/// A continuation line keeps [`wf_state`].
proof fn lemma_continuation_wf(st: StateModel, body: Seq<char>, n: nat)
    requires
        n >= 1,
        wf_state(st, (n - 1) as nat),
        st.open_line is Some,
        continuation_step(st, body) is Ok,
    ensures
        wf_state(continuation_step(st, body)->Ok_0, n),
{
    let i = st.last_cue->0 as int;
    let parts = group_at(st.events, i).parts;
    let part = parts.last();
    if st.open_line->0.annotation {
        let notes = part.annotations;
        let new_parts = parts.update(
            parts.len() - 1,
            PartModel {
                annotations: notes.update(notes.len() - 1, continued(notes.last(), body)),
                ..part
            },
        );
        lemma_with_parts(st.events, i, new_parts);
    } else {
        lemma_with_parts(
            st.events,
            i,
            parts.update(parts.len() - 1, PartModel { text: continued(part.text, body), ..part }),
        );
    }
}

/// Every state the parser reaches keeps [`wf_state`].
pub proof fn lemma_run_wf(lines: Seq<Seq<char>>, k: nat)
    requires
        k <= lines.len(),
    ensures
        run(lines, k) matches Ok(st) ==> wf_state(st, k),
    decreases k,
{
    if k > 0 {
        lemma_run_wf(lines, (k - 1) as nat);
        if let Ok(st) = run(lines, (k - 1) as nat) {
            if step(st, lines[k - 1], k) is Ok {
                lemma_step_wf(st, lines[k - 1], k);
            }
        }
    }
}

/// What holds of the cues resolved from the first `k` events: each ends
/// after it starts, each ends no later than the next one starts, and
/// none ends after event `k` starts.
pub open spec fn cues_in_order(cues: Seq<CueModel>, events: Seq<EventModel>, k: nat) -> bool {
    &&& forall|a: int| 0 <= a < cues.len() ==> #[trigger] cues[a].start < cues[a].end
    &&& forall|a: int| 0 <= a < cues.len() ==> #[trigger] cues[a].parts.len() >= 1
    &&& forall|a: int, b: int|
        0 <= a < b < cues.len() ==> #[trigger] cues[a].end <= #[trigger] cues[b].start
    &&& k < events.len() ==> forall|a: int|
        0 <= a < cues.len() ==> #[trigger] cues[a].end <= event_start(events[k as int])
}

/// Resolving events whose starts increase keeps the cues in order.
proof fn lemma_resolve_in_order(events: Seq<EventModel>, k: nat)
    requires
        increasing(events),
        forall|i: int|
            0 <= i < events.len() && #[trigger] events[i] is Cue ==> group_at(events, i).parts.len()
                >= 1,
        k <= events.len(),
    ensures
        resolve_upto(events, k) matches Ok(rs) ==> cues_in_order(rs.cues, events, k),
    decreases k,
{
    if k > 0 {
        lemma_resolve_in_order(events, (k - 1) as nat);
        let i = k - 1;
        if let Ok(rs) = resolve_upto(events, i as nat) {
            if let Ok(next) = resolve_step(events, i, rs) {
                if let EventModel::Cue(group) = events[i] {
                    let cue = next.cues.last();
                    assert(next.cues == rs.cues.push(cue));
                    assert(event_start(events[i]) < event_start(events[i + 1]));
                    if k < events.len() {
                        assert(event_start(events[i + 1]) == event_start(events[k as int]));
                    }
                    assert forall|a: int| 0 <= a < rs.cues.len() implies #[trigger] rs.cues[a].end
                        <= event_start(events[i]) by {}
                    assert forall|a: int, b: int| 0 <= a < b < next.cues.len() implies #[trigger] next.cues[a].end
                        <= #[trigger] next.cues[b].start by {
                        if b == rs.cues.len() {
                            assert(next.cues[a] == rs.cues[a]);
                        } else {
                            assert(next.cues[a] == rs.cues[a]);
                            assert(next.cues[b] == rs.cues[b]);
                        }
                    }
                    assert forall|a: int| 0 <= a < next.cues.len() implies #[trigger] next.cues[a].start
                        < next.cues[a].end by {
                        if a < rs.cues.len() {
                            assert(next.cues[a] == rs.cues[a]);
                        }
                    }
                    assert(group_at(events, i).parts.len() >= 1);
                    assert forall|a: int| 0 <= a < next.cues.len() implies #[trigger] next.cues[a].parts.len()
                        >= 1 by {
                        if a < rs.cues.len() {
                            assert(next.cues[a] == rs.cues[a]);
                        }
                    }
                    if k < events.len() {
                        assert forall|a: int| 0 <= a < next.cues.len() implies #[trigger] next.cues[a].end
                            <= event_start(events[k as int]) by {
                            if a < rs.cues.len() {
                                assert(next.cues[a] == rs.cues[a]);
                                assert(event_start(events[i]) < event_start(events[k as int]));
                            }
                        }
                    }
                } else {
                    if k < events.len() {
                        assert(event_start(events[i]) < event_start(events[k as int]));
                    }
                }
            }
        }
    }
}

/// The cues of a lyrics file are in time order: each ends after it
/// starts, and each ends no later than the next one starts. Each has at
/// least one part.
pub proof fn lemma_cues_in_order(content: Seq<char>)
    ensures
        parse_lyrics_model(content) matches Ok(cues) ==> {
            &&& forall|a: int| 0 <= a < cues.len() ==> #[trigger] cues[a].start < cues[a].end
            &&& forall|a: int| 0 <= a < cues.len() ==> #[trigger] cues[a].parts.len() >= 1
            &&& forall|a: int, b: int|
                0 <= a < b < cues.len() ==> #[trigger] cues[a].end <= #[trigger] cues[b].start
        },
{
    let lines = lines_of(content);
    lemma_run_wf(lines, lines.len());
    if let Ok(events) = collect_events(content) {
        lemma_resolve_in_order(events, events.len());
    }
}

/// An end-of-video line changes nothing: a header line that reads a
/// timestamp, whitespace, `eov` and nothing but whitespace leaves the
/// parser state exactly as it was, outside a region, whatever the
/// timestamp (`eov` records no event, so it is not held to the order of
/// the events before it).
pub proof fn lemma_end_of_video_changes_nothing(
    st: StateModel,
    ms: int,
    separator: Seq<char>,
    trailing: Seq<char>,
    n: nat,
)
    requires
        0 <= ms < 3_600_000,
        separator.len() > 0,
        all_ws(separator),
        all_ws(trailing),
        st.open_region is None,
    ensures
        header_step(
            st,
            render_mm_ss_mmm(ms) + separator + reserved_token(ReservedMarker::EndOfVideo) + trailing,
            n,
        ) == Ok::<StateModel, KindModel>(st),
{
    let eov = reserved_token(ReservedMarker::EndOfVideo);
    let tail = separator + eov + trailing;
    let body = render_mm_ss_mmm(ms) + separator + eov + trailing;
    assert(body =~= render_mm_ss_mmm(ms) + tail);
    lemma_timestamp_round_trip(ms, tail);
    assert(tail[separator.len() as int] == 'e');
    lemma_prefix_len_is(tail, ws(), separator.len() as int);
    let cue_body = trim_start(tail);
    assert(cue_body =~= eov + trailing);
    if trailing.len() > 0 {
        assert(cue_body[3] == trailing[0]);
    }
    lemma_prefix_len_is(cue_body, non_ws(), 3);
    let token = cue_body.take(3);
    assert(token =~= eov);
    assert(cue_body.skip(3) =~= trailing);
    lemma_prefix_len_is(trailing, ws(), trailing.len() as int);
    assert(trim_start(trailing) =~= Seq::<char>::empty());
    assert(trim(trailing).len() == 0);
}

/// The first `c` of `a + b` is the first `c` of `a` when `a` holds one.
proof fn lemma_find_char_append(a: Seq<char>, b: Seq<char>, c: char)
    requires
        find_char(a, c) < a.len(),
    ensures
        find_char(a + b, c) == find_char(a, c),
{
    let k = find_char(a, c);
    lemma_prefix_len(a, not_char(c));
    assert forall|j: int| 0 <= j < k implies #[trigger] not_char(c)((a + b)[j]) by {
        assert((a + b)[j] == a[j]);
        assert(not_char(c)(a[j]));
    }
    assert((a + b)[k as int] == a[k as int]);
    lemma_prefix_len_is(a + b, not_char(c), k as int);
}

/// The lines of a text that ends its last line, followed by more text,
/// are its lines followed by the lines of the rest.
pub proof fn lemma_lines_append(a: Seq<char>, b: Seq<char>)
    requires
        a.len() == 0 || a.last() == '\n',
    ensures
        lines_of(a + b) == lines_of(a) + lines_of(b),
    decreases a.len(),
{
    if a.len() == 0 {
        assert(a + b =~= b);
        assert(lines_of(a) + lines_of(b) =~= lines_of(b));
    } else {
        lemma_prefix_len(a, not_char('\n'));
        let k = find_char(a, '\n');
        if k >= a.len() {
            assert(!not_char('\n')(a[a.len() - 1]));
        }
        lemma_find_char_append(a, b, '\n');
        let rest = a.skip(k + 1 as int);
        assert((a + b).take(k as int) =~= a.take(k as int));
        assert((a + b).skip(k + 1 as int) =~= rest + b);
        if rest.len() > 0 {
            assert(rest.last() == a.last());
        }
        lemma_lines_append(rest, b);
        assert(lines_of(a + b) =~= seq![strip_cr(a.take(k as int))] + (lines_of(rest) + lines_of(b)));
        assert(lines_of(a) =~= seq![strip_cr(a.take(k as int))] + lines_of(rest));
    }
}

/// The state after the first `k` lines depends on those lines alone.
proof fn lemma_run_prefix(a: Seq<Seq<char>>, b: Seq<Seq<char>>, k: nat)
    requires
        k <= a.len(),
    ensures
        run(a + b, k) == run(a, k),
    decreases k,
{
    if k > 0 {
        lemma_run_prefix(a, b, (k - 1) as nat);
        assert((a + b)[k - 1] == a[k - 1]);
    }
}

/// Lines that are all blank or comments leave the state as it was.
proof fn lemma_run_skipped(lines: Seq<Seq<char>>, m: nat, j: nat)
    requires
        m + j <= lines.len(),
        forall|i: int| m <= i < lines.len() ==> is_skipped_line(#[trigger] lines[i]),
    ensures
        run(lines, m + j) == run(lines, m),
    decreases j,
{
    if j > 0 {
        lemma_run_skipped(lines, m, (j - 1) as nat);
        assert(is_skipped_line(lines[m + j - 1]));
        assert(m + j - 1 == (m + (j - 1)) as nat);
    }
}

/// Blank and comment lines at the end of a file change nothing: for a
/// file that ends its last line, appending text whose every line is blank
/// or a `#` comment gives the same cues, or the same diagnostic with the
/// same line number.
pub proof fn lemma_trailing_skipped_lines(content: Seq<char>, extra: Seq<char>)
    requires
        content.len() == 0 || content.last() == '\n',
        forall|i: int| 0 <= i < lines_of(extra).len() ==> is_skipped_line(#[trigger] lines_of(extra)[i]),
    ensures
        parse_lyrics_model(content + extra) == parse_lyrics_model(content),
{
    let a = lines_of(content);
    let b = lines_of(extra);
    lemma_lines_append(content, extra);
    let lines = a + b;
    assert forall|i: int| a.len() <= i < lines.len() implies is_skipped_line(#[trigger] lines[i]) by {
        assert(lines[i] == b[i - a.len()]);
    }
    lemma_run_skipped(lines, a.len(), b.len());
    lemma_run_prefix(a, b, a.len());
    assert(lines.len() == a.len() + b.len());
}

/// Whether `c` occurs nowhere in `s`.
pub open spec fn lacks(s: Seq<char>, c: char) -> bool {
    forall|i: int| 0 <= i < s.len() ==> #[trigger] s[i] != c
}

/// What holds of every part a parsed cue carries: its marker is
/// non-empty, neither starts nor ends with whitespace, holds no `:` and
/// is no reserved marker; its text is non-empty and holds no `<` or `>`.
pub open spec fn part_ok(part: PartModel) -> bool {
    &&& part.marker.len() > 0
    &&& !is_ws(part.marker[0])
    &&& !is_ws(part.marker.last())
    &&& lacks(part.marker, ':')
    &&& reserved_of_token(part.marker) is None
    &&& part.text.len() > 0
    &&& lacks(part.text, '<')
    &&& lacks(part.text, '>')
}

/// Whether every part of `parts` is [`part_ok`].
pub open spec fn parts_ok(parts: Seq<PartModel>) -> bool {
    forall|i: int| 0 <= i < parts.len() ==> part_ok(#[trigger] parts[i])
}

/// Whether every part of every cue group of `events` is [`part_ok`].
pub open spec fn events_parts_ok(events: Seq<EventModel>) -> bool {
    forall|i: int| 0 <= i < events.len() && #[trigger] events[i] is Cue ==> parts_ok(
        group_at(events, i).parts,
    )
}

/// `trim(s)` is a run of `s`, and starts and ends with a character that
/// is not whitespace.
proof fn lemma_trim(s: Seq<char>)
    ensures
        trim(s).len() <= s.len(),
        forall|i: int|
            0 <= i < trim(s).len() ==> #[trigger] trim(s)[i] == s[i + prefix_len(s, ws())],
        prefix_len(s, ws()) + trim(s).len() <= s.len(),
        trim(s).len() > 0 ==> !is_ws(trim(s)[0]) && !is_ws(trim(s).last()),
{
    lemma_prefix_len(s, ws());
    let t = trim_start(s);
    lemma_suffix_len(t, ws());
    if trim(s).len() > 0 {
        assert(trim(s)[0] == t[0]);
        assert(t[0] == s[prefix_len(s, ws()) as int]);
        assert(trim(s).last() == t[t.len() - suffix_len(t, ws()) - 1]);
    }
}

/// A part made from a body that [`marker_part`] accepts is [`part_ok`].
proof fn lemma_marker_part_ok(body: Seq<char>)
    requires
        marker_part(body) is Ok,
    ensures
        part_ok(new_part(marker_part(body)->Ok_0.0, marker_part(body)->Ok_0.1)),
{
    lemma_prefix_len(body, not_angle());
    lemma_prefix_len(body, not_char(':'));
    let k = find_char(body, ':');
    let head = body.take(k as int);
    let rest = body.skip(k + 1 as int);
    lemma_trim(head);
    lemma_trim(rest);
    let marker = trim(head);
    let text = trim(rest);
    assert forall|i: int| 0 <= i < marker.len() implies #[trigger] marker[i] != ':' by {
        assert(marker[i] == head[i + prefix_len(head, ws())]);
    }
    assert forall|i: int| 0 <= i < text.len() implies #[trigger] text[i] != '<' && text[i]
        != '>' by {
        assert(text[i] == rest[i + prefix_len(rest, ws())]);
        assert(not_angle()(body[i + prefix_len(rest, ws()) + k + 1]));
    }
}

/// Text continued by a body free of `<` and `>` stays non-empty and free
/// of them.
proof fn lemma_continued_ok(part: PartModel, body: Seq<char>)
    requires
        part_ok(part),
        reserved_char_in(body) is None,
    ensures
        part_ok(PartModel { text: continued(part.text, body), ..part }),
{
    lemma_prefix_len(body, not_angle());
    let t = continued(part.text, body);
    assert forall|i: int| 0 <= i < t.len() implies #[trigger] t[i] != '<' && t[i] != '>' by {
        if i < part.text.len() {
            assert(t[i] == part.text[i]);
        } else if i > part.text.len() {
            assert(t[i] == body[i - part.text.len() - 1]);
            assert(not_angle()(body[i - part.text.len() - 1]));
        }
    }
}

/// Replacing the parts of the open group by parts that are all
/// [`part_ok`] keeps every group's parts [`part_ok`].
proof fn lemma_with_parts_ok(events: Seq<EventModel>, i: int, parts: Seq<PartModel>)
    requires
        0 <= i < events.len(),
        events[i] is Cue,
        events_parts_ok(events),
        parts_ok(parts),
    ensures
        events_parts_ok(with_parts(events, i, parts)),
{
    lemma_with_parts(events, i, parts);
    let updated = with_parts(events, i, parts);
    assert forall|j: int| 0 <= j < updated.len() && #[trigger] updated[j] is Cue implies parts_ok(
        group_at(updated, j).parts,
    ) by {
        if j != i {
            assert(updated[j] == events[j]);
        }
    }
}

/// Every step keeps the parts [`part_ok`].
proof fn lemma_step_parts_ok(st: StateModel, line: Seq<char>, n: nat)
    requires
        n >= 1,
        wf_state(st, (n - 1) as nat),
        events_parts_ok(st.events),
        step(st, line, n) is Ok,
    ensures
        events_parts_ok(step(st, line, n)->Ok_0.events),
{
    let indent = prefix_len(line, space());
    let body = line.skip(indent as int);
    if is_skipped_line(line) {
    } else if indent == 0 {
        if is_opening_tag_line(body) {
        } else if is_closing_tag_line(body) {
        } else {
            lemma_header_parts_ok(st, body, n);
        }
    } else if indent == TIMESTAMP_PREFIX_WIDTH {
        let i = st.last_cue->0 as int;
        let parts = group_at(st.events, i).parts;
        match annotation_body(body) {
            Some(text) => {
                let part = parts.last();
                let updated = parts.update(
                    parts.len() - 1,
                    PartModel { annotations: part.annotations.push(text), ..part },
                );
                assert(parts_ok(updated)) by {
                    assert forall|j: int| 0 <= j < updated.len() implies part_ok(
                        #[trigger] updated[j],
                    ) by {
                        assert(part_ok(parts[j]));
                    }
                }
                lemma_with_parts_ok(st.events, i, updated);
            },
            None => {
                lemma_marker_part_ok(body);
                let (marker, text) = marker_part(body)->Ok_0;
                let updated = parts.push(new_part(marker, text));
                assert(parts_ok(updated)) by {
                    assert forall|j: int| 0 <= j < updated.len() implies part_ok(
                        #[trigger] updated[j],
                    ) by {
                        if j < parts.len() {
                            assert(updated[j] == parts[j]);
                        }
                    }
                }
                lemma_with_parts_ok(st.events, i, updated);
            },
        }
    } else {
        let i = st.last_cue->0 as int;
        let parts = group_at(st.events, i).parts;
        let part = parts.last();
        let updated = if st.open_line->0.annotation {
            let notes = part.annotations;
            parts.update(
                parts.len() - 1,
                PartModel {
                    annotations: notes.update(notes.len() - 1, continued(notes.last(), body)),
                    ..part
                },
            )
        } else {
            lemma_continued_ok(part, body);
            parts.update(parts.len() - 1, PartModel { text: continued(part.text, body), ..part })
        };
        assert(parts_ok(updated)) by {
            assert forall|j: int| 0 <= j < updated.len() implies part_ok(#[trigger] updated[j]) by {
                assert(part_ok(parts[j]));
            }
        }
        lemma_with_parts_ok(st.events, i, updated);
    }
}

/// A header line keeps the parts [`part_ok`].
proof fn lemma_header_parts_ok(st: StateModel, body: Seq<char>, n: nat)
    requires
        events_parts_ok(st.events),
        header_step(st, body, n) is Ok,
    ensures
        events_parts_ok(header_step(st, body, n)->Ok_0.events),
{
    if let TakeOutcome::Taken { ms, tail } = take_timestamp(body) {
        let cue_body = trim_start(tail);
        let token = cue_body.take(prefix_len(cue_body, non_ws()) as int);
        let opens_cue = match reserved_of_token(token) {
            Some(marker) => marker is Annotation,
            None => true,
        };
        if opens_cue {
            lemma_marker_part_ok(cue_body);
            let (marker, text) = marker_part(cue_body)->Ok_0;
            let events = header_step(st, body, n)->Ok_0.events;
            assert forall|j: int| 0 <= j < events.len() && #[trigger] events[j] is Cue implies parts_ok(
                group_at(events, j).parts,
            ) by {
                if j < st.events.len() {
                    assert(events[j] == st.events[j]);
                } else {
                    assert(group_at(events, j).parts == seq![new_part(marker, text)]);
                }
            }
        } else {
            let events = header_step(st, body, n)->Ok_0.events;
            assert forall|j: int| 0 <= j < events.len() && #[trigger] events[j] is Cue implies parts_ok(
                group_at(events, j).parts,
            ) by {
                if j < st.events.len() {
                    assert(events[j] == st.events[j]);
                }
            }
        }
    }
}

/// Every state the parser reaches keeps its parts [`part_ok`].
proof fn lemma_run_parts_ok(lines: Seq<Seq<char>>, k: nat)
    requires
        k <= lines.len(),
    ensures
        run(lines, k) matches Ok(st) ==> events_parts_ok(st.events),
    decreases k,
{
    if k > 0 {
        lemma_run_parts_ok(lines, (k - 1) as nat);
        lemma_run_wf(lines, (k - 1) as nat);
        if let Ok(st) = run(lines, (k - 1) as nat) {
            if step(st, lines[k - 1], k) is Ok {
                lemma_step_parts_ok(st, lines[k - 1], k);
            }
        }
    }
}

/// Resolution keeps the parts [`part_ok`], those carried included.
proof fn lemma_resolve_parts_ok(events: Seq<EventModel>, k: nat)
    requires
        k <= events.len(),
        events_parts_ok(events),
    ensures
        resolve_upto(events, k) matches Ok(rs) ==> parts_ok(rs.carried) && forall|a: int|
            0 <= a < rs.cues.len() ==> parts_ok(#[trigger] rs.cues[a].parts),
    decreases k,
{
    if k > 0 {
        lemma_resolve_parts_ok(events, (k - 1) as nat);
        if let Ok(rs) = resolve_upto(events, (k - 1) as nat) {
            let i = k - 1;
            if let EventModel::Cue(group) = events[i] {
                if i + 1 < events.len() {
                    assert(group_at(events, i) == group);
                    let carried = if group.region == rs.carried_region {
                        rs.carried
                    } else {
                        Seq::empty()
                    };
                    let parts = carried + group.parts;
                    assert(parts_ok(parts)) by {
                        assert forall|j: int| 0 <= j < parts.len() implies part_ok(
                            #[trigger] parts[j],
                        ) by {
                            if j < carried.len() {
                                assert(parts[j] == carried[j]);
                            } else {
                                assert(parts[j] == group.parts[j - carried.len()]);
                            }
                        }
                    }
                    let mapped = parts.map_values(|p: PartModel| carried_part(p));
                    assert(parts_ok(mapped)) by {
                        assert forall|j: int| 0 <= j < mapped.len() implies part_ok(
                            #[trigger] mapped[j],
                        ) by {
                            assert(part_ok(parts[j]));
                        }
                    }
                    let next = resolve_upto(events, k)->Ok_0;
                    assert forall|a: int| 0 <= a < next.cues.len() implies parts_ok(
                        #[trigger] next.cues[a].parts,
                    ) by {
                        if a < rs.cues.len() {
                            assert(next.cues[a] == rs.cues[a]);
                        }
                    }
                }
            }
        }
    }
}

/// Every part of every parsed cue is well formed: its marker is
/// non-empty, neither starts nor ends with whitespace, holds no `:` and
/// is no reserved marker, and its text is non-empty and holds no `<` or
/// `>`.
pub proof fn lemma_parsed_parts_ok(content: Seq<char>)
    ensures
        parse_lyrics_model(content) matches Ok(cues) ==> forall|a: int, b: int|
            0 <= a < cues.len() && 0 <= b < cues[a].parts.len() ==> part_ok(
                #[trigger] cues[a].parts[b],
            ),
{
    let lines = lines_of(content);
    lemma_run_parts_ok(lines, lines.len());
    if let Ok(events) = collect_events(content) {
        lemma_resolve_parts_ok(events, events.len());
    }
}


/// How many of the first `k` events are cue groups.
pub open spec fn cue_count(events: Seq<EventModel>, k: int) -> nat
    decreases k,
{
    if k <= 0 {
        0
    } else {
        cue_count(events, k - 1) + if events[k - 1] is Cue {
            1nat
        } else {
            0nat
        }
    }
}

/// The region of the last cue group among the first `k` events.
pub open spec fn last_region(events: Seq<EventModel>, k: int) -> Option<nat>
    decreases k,
{
    if k <= 0 {
        None
    } else {
        match events[k - 1] {
            EventModel::Clear(_) => last_region(events, k - 1),
            EventModel::Cue(group) => group.region,
        }
    }
}

/// The parts of the cue groups of `region` that come right before event
/// `k`, in order: the run ends at the first group above of another
/// region, and `clr` events do not end it.
pub open spec fn region_run(events: Seq<EventModel>, k: int, region: Option<nat>) -> Seq<PartModel>
    decreases k,
{
    if k <= 0 {
        Seq::empty()
    } else {
        match events[k - 1] {
            EventModel::Clear(_) => region_run(events, k - 1, region),
            EventModel::Cue(group) => if group.region == region {
                region_run(events, k - 1, region) + group.parts
            } else {
                Seq::empty()
            },
        }
    }
}

/// The parts that cue group `i` repeats from above it: none outside a
/// region; inside one, those of the groups of its region right above it,
/// without their annotations.
pub open spec fn repeated_parts(events: Seq<EventModel>, i: int) -> Seq<PartModel> {
    let region = group_at(events, i).region;
    if region is Some {
        region_run(events, i, region).map_values(|p: PartModel| carried_part(p))
    } else {
        Seq::empty()
    }
}

/// The cue that cue group `i` becomes: from its start to the start of the
/// next event, with the parts it repeats followed by its own.
pub open spec fn resolved_cue(events: Seq<EventModel>, i: int) -> CueModel {
    CueModel {
        start: group_at(events, i).start,
        end: event_start(events[i + 1]),
        parts: repeated_parts(events, i) + group_at(events, i).parts,
    }
}

/// What resolving the first `k` events has produced, group by group.
spec fn resolved_so_far(events: Seq<EventModel>, k: int, rs: ResolveModel) -> bool {
    &&& rs.cues.len() == cue_count(events, k)
    &&& rs.carried_region == last_region(events, k)
    &&& rs.carried == if rs.carried_region is Some {
        region_run(events, k, rs.carried_region).map_values(|p: PartModel| carried_part(p))
    } else {
        Seq::<PartModel>::empty()
    }
    &&& forall|i: int|
        0 <= i < k && #[trigger] events[i] is Cue ==> cue_count(events, i) < rs.cues.len()
            && rs.cues[cue_count(events, i) as int] == resolved_cue(events, i)
}

/// A run of a region other than that of the last group is empty.
proof fn lemma_region_run_other(events: Seq<EventModel>, k: int, region: Option<nat>)
    requires
        0 <= k <= events.len(),
        region != last_region(events, k),
    ensures
        region_run(events, k, region) == Seq::<PartModel>::empty(),
    decreases k,
{
    if k > 0 {
        if events[k - 1] is Clear {
            lemma_region_run_other(events, k - 1, region);
        }
    }
}

/// Dropping annotations twice drops no more than once.
proof fn lemma_carried_again(done: Seq<PartModel>, parts: Seq<PartModel>)
    ensures
        (done.map_values(|p: PartModel| carried_part(p)) + parts).map_values(
            |p: PartModel| carried_part(p),
        ) == (done + parts).map_values(|p: PartModel| carried_part(p)),
{
    let left = (done.map_values(|p: PartModel| carried_part(p)) + parts).map_values(
        |p: PartModel| carried_part(p),
    );
    let right = (done + parts).map_values(|p: PartModel| carried_part(p));
    assert forall|j: int| 0 <= j < left.len() implies left[j] == right[j] by {
        if j < done.len() {
            assert(carried_part(carried_part(done[j])) == carried_part(done[j]));
        }
    }
    assert(left =~= right);
}

/// Resolution of the first `k` events, group by group, as long as no
/// group among them is the last event.
proof fn lemma_resolve_upto_shape(events: Seq<EventModel>, k: nat)
    requires
        k <= events.len(),
        !(k == events.len() && k > 0 && events[k - 1] is Cue),
    ensures
        resolve_upto(events, k) matches Ok(rs) && resolved_so_far(events, k as int, rs),
    decreases k,
{
    if k == 0 {
        assert(Seq::<PartModel>::empty().map_values(|p: PartModel| carried_part(p)) =~= Seq::<
            PartModel,
        >::empty());
    } else {
        let i = k - 1;
        lemma_resolve_upto_shape(events, i as nat);
        let rs = resolve_upto(events, i as nat)->Ok_0;
        match events[i] {
            EventModel::Clear(_) => {
                assert forall|j: int| 0 <= j < k && #[trigger] events[j] is Cue implies cue_count(
                    events,
                    j,
                ) < rs.cues.len() && rs.cues[cue_count(events, j) as int] == resolved_cue(
                    events,
                    j,
                ) by {}
            },
            EventModel::Cue(group) => {
                let region = group.region;
                let carried = if region == rs.carried_region {
                    rs.carried
                } else {
                    Seq::empty()
                };
                if region != rs.carried_region {
                    lemma_region_run_other(events, i, region);
                    assert(Seq::<PartModel>::empty().map_values(|p: PartModel| carried_part(p))
                        =~= Seq::<PartModel>::empty());
                }
                assert(carried == repeated_parts(events, i));
                let next = resolve_upto(events, k)->Ok_0;
                assert(next.cues == rs.cues.push(resolved_cue(events, i)));
                if region is Some {
                    lemma_carried_again(region_run(events, i, region), group.parts);
                }
                assert forall|j: int| 0 <= j < k && #[trigger] events[j] is Cue implies cue_count(
                    events,
                    j,
                ) < next.cues.len() && next.cues[cue_count(events, j) as int] == resolved_cue(
                    events,
                    j,
                ) by {
                    if j < i {
                        assert(next.cues[cue_count(events, j) as int] == rs.cues[cue_count(
                            events,
                            j,
                        ) as int]);
                    }
                }
            },
        }
    }
}

/// How the events of a file resolve into cues. Resolving fails exactly
/// when the last event is a cue group, which no later event ends, and
/// then with an unclosed cue at that group's start, reported at its
/// opening line. Otherwise there is one cue per cue group, in the order
/// of the groups: each runs from its group's start to the start of the
/// event after it, and its parts are those its group repeats from the
/// groups of its region right above it (annotations dropped), followed
/// by its own.
pub proof fn lemma_resolved_cues(events: Seq<EventModel>)
    ensures
        ({
            let n = events.len() as int;
            let result = resolve_upto(events, events.len());
            &&& (result is Err <==> n > 0 && events[n - 1] is Cue)
            &&& (n > 0 && events[n - 1] is Cue ==> result == Err::<ResolveModel, (nat, KindModel)>(
                (
                    group_at(events, n - 1).opened_at,
                    KindModel::UnclosedCue(group_at(events, n - 1).start),
                ),
            ))
            &&& (result matches Ok(rs) ==> {
                &&& rs.cues.len() == cue_count(events, n)
                &&& forall|i: int|
                    0 <= i < n && #[trigger] events[i] is Cue ==> rs.cues[cue_count(events, i) as int]
                        == resolved_cue(events, i)
            })
        }),
{
    let n = events.len();
    if n > 0 && events[n - 1] is Cue {
        lemma_resolve_upto_shape(events, (n - 1) as nat);
    } else {
        lemma_resolve_upto_shape(events, n);
    }
}

} // verus!
