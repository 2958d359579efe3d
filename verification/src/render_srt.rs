//! The SubRip renderer.
//!
//! SubRip knows neither voices nor classes, so presentation is written as
//! inline HTML-like tags: each cue's text is wrapped in `<b>`, `<i>` and
//! `<font color="...">` as its marker's style asks. Credit lines go
//! through the credit parser and carry the palette's credit colors inline.

use crate::credits_model::{parse_credit_model, LeadModel, PairModel, SegmentModel};
use crate::credits_parse::{
    CreditLead, CreditPair, CreditRoles, NameSegment, ParseCreditError, pairs_view, role_set,
    segments_view,
};
use crate::descriptors::{contains_name, lookup, CreditsDesc, Language, LineMarkersDesc};
use crate::escape::{escape_html, Escaped};
use crate::parse::{CuePart, SubtitleCue, lines_view, parts_view, split_lines};
use crate::parse_model::{lines_of, PartModel};
use crate::render_common::{
    between_of, credit_failure, credit_failure_text, failure_message, finish_output, lead_suffix, lead_text, parse_block_line,
    push_between, push_lead_suffix, RenderFailure,
};
use crate::styles::{CreditPalette, MissingStyle, Style, StylePalette, StyleGap, class_lookup};
use crate::text::{chars_of, push_char, push_str, trim_end, trim_start};
use crate::timestamp::{decimal, decimal_padded, push_decimal, render_hh_mm_ss, SrtTime, Timestamp};
use vstd::prelude::*;

verus! {

/// `inner` in a `<font>` tag of color `color`.
pub open spec fn font(color: Seq<char>, inner: Seq<char>) -> Seq<char> {
    "<font color=\""@ + color + "\">"@ + inner + "</font>"@
}

/// `text` wrapped in the tags of `style`: bold outside italics outside
/// the color.
pub open spec fn srt_styled(text: Seq<char>, style: Style) -> Seq<char> {
    let color_open = match style.color {
        Some(color) => "<font color=\""@ + color@ + "\">"@,
        None => Seq::empty(),
    };
    let color_close = if style.color is Some {
        "</font>"@
    } else {
        Seq::empty()
    };
    (if style.bold {
        "<b>"@
    } else {
        Seq::empty()
    }) + (if style.italic {
        "<i>"@
    } else {
        Seq::empty()
    }) + color_open + escape_html(text) + color_close + (if style.italic {
        "</i>"@
    } else {
        Seq::empty()
    }) + (if style.bold {
        "</b>"@
    } else {
        Seq::empty()
    })
}

/// The style of a cue's marker: its voice style when the song declares it
/// as a voice, its class's style when it declares it as a class, and none
/// otherwise; a declared marker the palette does not style is a gap.
pub open spec fn srt_style_of(marker: Seq<char>, markers: LineMarkersDesc, palette: StylePalette) -> Result<
    Option<Style>,
    StyleGap,
> {
    if lookup(markers.voices@, marker) is Some {
        match lookup(palette.voices@, marker) {
            Some(style) => Ok(Some(style)),
            None => Err(StyleGap::Voice(marker)),
        }
    } else {
        match lookup(markers.classes@, marker) {
            None => Ok(None),
            Some(class_name) => match class_lookup(palette.classes@, class_name@) {
                Some(style) => Ok(Some(style)),
                None => Err(StyleGap::Class(class_name@)),
            },
        }
    }
}

/// The name segments of a credit cell: plain text escaped, bracketed spans
/// in the special color.
pub open spec fn srt_segments(segments: Seq<SegmentModel>, special: Seq<char>) -> Seq<char>
    decreases segments.len(),
{
    if segments.len() == 0 {
        Seq::empty()
    } else {
        srt_segments(segments.drop_last(), special) + match segments.last() {
            SegmentModel::Unbracketed(text) => escape_html(text),
            SegmentModel::Bracketed(text) => font(special, escape_html(text)),
        }
    }
}

/// One credit cell: the lead in the role color (or, for a bracketed lead,
/// the special color), then, when the cell has a name, the separator and
/// the name in the name color.
pub open spec fn srt_pair(pair: PairModel, credit: CreditPalette) -> Seq<char> {
    let lead_color = match pair.lead {
        LeadModel::Role(_) => credit.role@,
        LeadModel::Special(_) => credit.special@,
    };
    font(lead_color, escape_html(lead_text(pair.lead)) + lead_suffix(pair.separator)) + if pair.name_segments.len()
        == 0 {
        Seq::empty()
    } else {
        between_of(pair.separator) + font(
            credit.name@,
            srt_segments(pair.name_segments, credit.special@),
        )
    }
}

/// The cells of a credit line, separated by spaces.
pub open spec fn srt_credit_line(pairs: Seq<PairModel>, credit: CreditPalette) -> Seq<char>
    decreases pairs.len(),
{
    if pairs.len() == 0 {
        Seq::empty()
    } else {
        srt_credit_line(pairs.drop_last(), credit) + (if pairs.len() > 1 {
            seq![' ']
        } else {
            Seq::empty()
        }) + srt_pair(pairs.last(), credit)
    }
}

/// The lines of a credit block, each parsed after its leading whitespace
/// and rendered on a line of its own.
pub open spec fn srt_credit_block(
    lines: Seq<Seq<char>>,
    start: Timestamp,
    credit: CreditPalette,
    roles: Seq<Seq<char>>,
) -> Result<Seq<char>, RenderFailure>
    decreases lines.len(),
{
    if lines.len() == 0 {
        Ok(Seq::empty())
    } else {
        match srt_credit_block(lines.drop_last(), start, credit, roles) {
            Err(failure) => Err(failure),
            Ok(done) => {
                let line = trim_start(lines.last());
                match parse_credit_model(roles, line) {
                    Err(pos) => Err(credit_failure(start, line, pos)),
                    Ok(pairs) => Ok(done + (if lines.len() > 1 {
                        seq!['\n']
                    } else {
                        Seq::empty()
                    }) + srt_credit_line(pairs, credit)),
                }
            },
        }
    }
}

/// One part of a cue: a credit block, or the text in its marker's style.
pub open spec fn srt_part(
    part: PartModel,
    start: Timestamp,
    markers: LineMarkersDesc,
    palette: StylePalette,
    roles: Seq<Seq<char>>,
) -> Result<Seq<char>, RenderFailure> {
    if contains_name(markers.credits@, part.marker) {
        srt_credit_block(lines_of(part.text), start, palette.credit, roles)
    } else {
        match srt_style_of(part.marker, markers, palette) {
            Err(gap) => Err(RenderFailure::Style(gap)),
            Ok(None) => Ok(escape_html(part.text)),
            Ok(Some(style)) => Ok(srt_styled(part.text, style)),
        }
    }
}

/// The parts of a cue, one line each.
pub open spec fn srt_parts(
    parts: Seq<PartModel>,
    start: Timestamp,
    markers: LineMarkersDesc,
    palette: StylePalette,
    roles: Seq<Seq<char>>,
) -> Result<Seq<char>, RenderFailure>
    decreases parts.len(),
{
    if parts.len() == 0 {
        Ok(Seq::empty())
    } else {
        match srt_parts(parts.drop_last(), start, markers, palette, roles) {
            Err(failure) => Err(failure),
            Ok(done) => match srt_part(parts.last(), start, markers, palette, roles) {
                Err(failure) => Err(failure),
                Ok(text) => Ok(done + (if parts.len() > 1 {
                    seq!['\n']
                } else {
                    Seq::empty()
                }) + text),
            },
        }
    }
}

/// The numbered blocks of the cues: the number, the time range, the body
/// and a blank line each.
pub open spec fn srt_blocks(
    cues: Seq<SubtitleCue>,
    markers: LineMarkersDesc,
    palette: StylePalette,
    roles: Seq<Seq<char>>,
) -> Result<Seq<char>, RenderFailure>
    decreases cues.len(),
{
    if cues.len() == 0 {
        Ok(Seq::empty())
    } else {
        match srt_blocks(cues.drop_last(), markers, palette, roles) {
            Err(failure) => Err(failure),
            Ok(done) => {
                let cue = cues.last();
                match srt_parts(parts_view(cue.parts@), cue.start, markers, palette, roles) {
                    Err(failure) => Err(failure),
                    Ok(body) => Ok(done + decimal(cues.len()) + seq!['\n'] + render_hh_mm_ss(
                        cue.start@,
                        ',',
                    ) + " --> "@ + render_hh_mm_ss(cue.end@, ',') + seq!['\n'] + body
                        + "\n\n"@),
                }
            },
        }
    }
}

/// The SubRip file of `cues` in `language`: the blocks without trailing
/// whitespace, ending in one line break.
pub open spec fn srt_file(
    cues: Seq<SubtitleCue>,
    markers: LineMarkersDesc,
    credits: CreditsDesc,
    palette: StylePalette,
    language: Language,
) -> Result<Seq<char>, RenderFailure> {
    match srt_blocks(cues, markers, palette, role_set(credits.credit_roles@, language)) {
        Ok(text) => Ok(trim_end(text) + seq!['\n']),
        Err(failure) => Err(failure),
    }
}

/// Why a cue could not be rendered as a credit line.
#[derive(Debug, PartialEq, Eq)]
pub struct RenderSrtErrorCreditsPayload {
    /// The start of the cue.
    pub start: Timestamp,
    /// Why its credit line did not parse.
    pub cause: ParseCreditError,
}

/// Why a SubRip render failed.
#[derive(Debug, PartialEq, Eq)]
#[non_exhaustive]
pub enum RenderSrtError {
    /// A credit line did not parse.
    Credits(RenderSrtErrorCreditsPayload),
    /// A declared marker has no style in the palette.
    Style(MissingStyle),
}

impl View for RenderSrtError {
    type V = RenderFailure;

    open spec fn view(&self) -> RenderFailure {
        match self {
            RenderSrtError::Credits(payload) => match payload.cause {
                ParseCreditError::UnknownRole(e) => RenderFailure::Credits(
                    payload.start,
                    e.line@,
                    e.offset,
                ),
            },
            RenderSrtError::Style(missing) => RenderFailure::Style(missing@),
        }
    }
}

/// Appends `text` wrapped in the tags of `style`, or escaped alone when
/// there is no style.
fn wrap_with_style(output: &mut String, text: &str, style: Option<&Style>)
    ensures
        final(output)@ == old(output)@ + match style {
            None => escape_html(text@),
            Some(s) => srt_styled(text@, *s),
        },
{
    let ghost start = output@;
    match style {
        None => {
            Escaped(text).write_to(output);
        },
        Some(style) => {
            if style.bold {
                push_str(output, "<b>");
            }
            if style.italic {
                push_str(output, "<i>");
            }
            match &style.color {
                Some(color) => {
                    push_str(output, "<font color=\"");
                    push_str(output, color.as_str());
                    push_str(output, "\">");
                },
                None => {},
            }
            Escaped(text).write_to(output);
            if style.color.is_some() {
                push_str(output, "</font>");
            }
            if style.italic {
                push_str(output, "</i>");
            }
            if style.bold {
                push_str(output, "</b>");
            }
            proof {
                assert(output@ =~= start + srt_styled(text@, *style));
            }
        },
    }
}

/// The style of the cue marker `marker`, as [`srt_style_of`] states it.
fn resolve_style<'a>(marker: &str, markers: &LineMarkersDesc, palette: &'a StylePalette) -> (result:
    Result<Option<&'a Style>, RenderSrtError>)
    ensures
        match srt_style_of(marker@, *markers, *palette) {
            Err(gap) => result matches Err(e) && e@ == RenderFailure::Style(gap),
            Ok(None) => result matches Ok(None),
            Ok(Some(style)) => result matches Ok(Some(s)) && *s == style,
        },
{
    if markers.voice_entry(marker).is_some() {
        return match palette.voice_style(marker) {
            Ok(style) => Ok(Some(style)),
            Err(missing) => Err(RenderSrtError::Style(missing)),
        };
    }
    match markers.class_entry(marker) {
        None => Ok(None),
        Some(class_name) => match palette.class_style(class_name) {
            Ok(style) => Ok(Some(style)),
            Err(missing) => Err(RenderSrtError::Style(missing)),
        },
    }
}

/// Appends `inner`'s opening `<font>` tag of color `color`.
fn open_font(output: &mut String, color: &str)
    ensures
        final(output)@ == old(output)@ + "<font color=\""@ + color@ + "\">"@,
{
    push_str(output, "<font color=\"");
    push_str(output, color);
    push_str(output, "\">");
}

/// Appends the name segments of a credit cell.
fn write_name_segments(output: &mut String, palette: &StylePalette, segments: &Vec<NameSegment>)
    ensures
        final(output)@ == old(output)@ + srt_segments(
            segments_view(segments@),
            palette.credit.special@,
        ),
{
    let ghost start = output@;
    let ghost all = segments_view(segments@);
    let mut i: usize = 0;
    proof {
        assert(all.take(0) =~= Seq::<SegmentModel>::empty());
        assert(output@ =~= start + srt_segments(all.take(0), palette.credit.special@));
    }
    while i < segments.len()
        invariant
            i <= segments@.len(),
            all == segments_view(segments@),
            output@ == start + srt_segments(all.take(i as int), palette.credit.special@),
        decreases segments@.len() - i,
    {
        let ghost before = output@;
        match &segments[i] {
            NameSegment::Unbracketed(text) => {
                Escaped(text.as_str()).write_to(output);
            },
            NameSegment::Bracketed(text) => {
                open_font(output, palette.credit.special.as_str());
                Escaped(text.as_str()).write_to(output);
                push_str(output, "</font>");
            },
        }
        proof {
            let t = all.take(i + 1);
            assert(t.drop_last() =~= all.take(i as int));
            assert(t.last() == segments@[i as int]@);
            assert(output@ =~= start + srt_segments(t, palette.credit.special@));
        }
        i = i + 1;
    }
    proof {
        assert(all.take(segments@.len() as int) =~= all);
    }
}

/// Appends one credit cell.
fn render_credit_pair(output: &mut String, palette: &StylePalette, pair: &CreditPair)
    ensures
        final(output)@ == old(output)@ + srt_pair(pair@, palette.credit),
{
    let ghost start = output@;
    match &pair.lead {
        CreditLead::Role(role) => {
            open_font(output, palette.credit.role.as_str());
            Escaped(role.as_str()).write_to(output);
        },
        CreditLead::Special(span) => {
            open_font(output, palette.credit.special.as_str());
            Escaped(span.as_str()).write_to(output);
        },
    }
    push_lead_suffix(output, pair);
    push_str(output, "</font>");
    proof {
        assert(output@ =~= start + font(
            match pair@.lead {
                LeadModel::Role(_) => palette.credit.role@,
                LeadModel::Special(_) => palette.credit.special@,
            },
            escape_html(lead_text(pair@.lead)) + lead_suffix(pair.separator@),
        ));
    }
    if pair.name_segments.len() == 0 {
        proof {
            assert(output@ =~= start + srt_pair(pair@, palette.credit));
        }
        return;
    }
    let ghost middle = output@;
    push_between(output, pair);
    open_font(output, palette.credit.name.as_str());
    write_name_segments(output, palette, &pair.name_segments);
    push_str(output, "</font>");
    proof {
        assert(output@ =~= start + srt_pair(pair@, palette.credit));
    }
}

/// Appends the cells of a credit line, separated by spaces.
fn render_credit_line(output: &mut String, palette: &StylePalette, pairs: &Vec<CreditPair>)
    ensures
        final(output)@ == old(output)@ + srt_credit_line(pairs_view(pairs@), palette.credit),
{
    let ghost start = output@;
    let ghost all = pairs_view(pairs@);
    let mut i: usize = 0;
    proof {
        assert(all.take(0) =~= Seq::<PairModel>::empty());
        assert(output@ =~= start + srt_credit_line(all.take(0), palette.credit));
    }
    while i < pairs.len()
        invariant
            i <= pairs@.len(),
            all == pairs_view(pairs@),
            output@ == start + srt_credit_line(all.take(i as int), palette.credit),
        decreases pairs@.len() - i,
    {
        if i > 0 {
            push_char(output, ' ');
        }
        render_credit_pair(output, palette, &pairs[i]);
        proof {
            let t = all.take(i + 1);
            assert(t.drop_last() =~= all.take(i as int));
            assert(output@ =~= start + srt_credit_line(t, palette.credit));
        }
        i = i + 1;
    }
    proof {
        assert(all.take(pairs@.len() as int) =~= all);
    }
}

/// Appends a credit block: each line parsed and rendered on a line of its
/// own.
fn render_credit_block(
    output: &mut String,
    cue_start: Timestamp,
    text: &str,
    palette: &StylePalette,
    roles: &CreditRoles,
) -> (result: Result<(), RenderSrtError>)
    ensures
        match srt_credit_block(lines_of(text@), cue_start, palette.credit, roles@) {
            Ok(rendered) => result is Ok && final(output)@ == old(output)@ + rendered,
            Err(failure) => result matches Err(e) && e@ == failure,
        },
{
    let ghost start = output@;
    let chars = chars_of(text);
    let lines = split_lines(&chars);
    let ghost all = lines_view(lines@);
    let mut i: usize = 0;
    proof {
        assert(all.take(0) =~= Seq::<Seq<char>>::empty());
        assert(output@ =~= start + Seq::<char>::empty());
    }
    while i < lines.len()
        invariant
            i <= lines@.len(),
            all == lines_view(lines@),
            all == lines_of(text@),
            srt_credit_block(all.take(i as int), cue_start, palette.credit, roles@) matches Ok(done)
                && output@ == start + done,
        decreases lines@.len() - i,
    {
        let ghost t = all.take(i + 1);
        proof {
            assert(t.drop_last() =~= all.take(i as int));
            assert(t.last() == lines@[i as int]@);
        }
        let (line, parsed) = parse_block_line(&lines[i], roles);
        match parsed {
            Err(cause) => {
                let failure = RenderSrtError::Credits(
                    RenderSrtErrorCreditsPayload { start: cue_start, cause },
                );
                proof {
                    assert(all.take(lines@.len() as int) =~= all);
                    lemma_credit_block_failure_stays(all, i + 1, cue_start, palette.credit, roles@);
                }
                return Err(failure);
            },
            Ok(pairs) => {
                if i > 0 {
                    push_char(output, '\n');
                }
                render_credit_line(output, palette, &pairs);
            },
        }
        i = i + 1;
    }
    proof {
        assert(all.take(lines@.len() as int) =~= all);
    }
    Ok(())
}

/// Once a prefix of a credit block fails, the whole block fails the same
/// way.
proof fn lemma_credit_block_failure_stays(
    lines: Seq<Seq<char>>,
    k: int,
    start: Timestamp,
    credit: CreditPalette,
    roles: Seq<Seq<char>>,
)
    requires
        0 <= k <= lines.len(),
        srt_credit_block(lines.take(k), start, credit, roles) is Err,
    ensures
        srt_credit_block(lines, start, credit, roles) == srt_credit_block(
            lines.take(k),
            start,
            credit,
            roles,
        ),
    decreases lines.len() - k,
{
    if k < lines.len() {
        let t = lines.take(k + 1);
        assert(t.drop_last() =~= lines.take(k));
        lemma_credit_block_failure_stays(lines, k + 1, start, credit, roles);
    } else {
        assert(lines.take(k) =~= lines);
    }
}

/// Appends one part of a cue: a credit block, or its text in its marker's
/// style.
fn render_cue_part(
    output: &mut String,
    cue_start: Timestamp,
    part: &CuePart,
    markers: &LineMarkersDesc,
    palette: &StylePalette,
    roles: &CreditRoles,
) -> (result: Result<(), RenderSrtError>)
    ensures
        match srt_part(part@, cue_start, *markers, *palette, roles@) {
            Ok(rendered) => result is Ok && final(output)@ == old(output)@ + rendered,
            Err(failure) => result matches Err(e) && e@ == failure,
        },
{
    let marker = part.marker.as_str();
    if markers.is_credit(marker) {
        return render_credit_block(output, cue_start, part.text.as_str(), palette, roles);
    }
    let style = match resolve_style(marker, markers, palette) {
        Ok(style) => style,
        Err(error) => {
            return Err(error);
        },
    };
    wrap_with_style(output, part.text.as_str(), style);
    Ok(())
}

/// Once a prefix of a cue's parts fails, the whole cue fails the same way.
proof fn lemma_parts_failure_stays(
    parts: Seq<PartModel>,
    k: int,
    start: Timestamp,
    markers: LineMarkersDesc,
    palette: StylePalette,
    roles: Seq<Seq<char>>,
)
    requires
        0 <= k <= parts.len(),
        srt_parts(parts.take(k), start, markers, palette, roles) is Err,
    ensures
        srt_parts(parts, start, markers, palette, roles) == srt_parts(
            parts.take(k),
            start,
            markers,
            palette,
            roles,
        ),
    decreases parts.len() - k,
{
    if k < parts.len() {
        let t = parts.take(k + 1);
        assert(t.drop_last() =~= parts.take(k));
        lemma_parts_failure_stays(parts, k + 1, start, markers, palette, roles);
    } else {
        assert(parts.take(k) =~= parts);
    }
}

/// Appends the body of a cue: its parts, one line each.
fn render_cue_body(
    output: &mut String,
    cue: &SubtitleCue,
    markers: &LineMarkersDesc,
    palette: &StylePalette,
    roles: &CreditRoles,
) -> (result: Result<(), RenderSrtError>)
    ensures
        match srt_parts(parts_view(cue.parts@), cue.start, *markers, *palette, roles@) {
            Ok(rendered) => result is Ok && final(output)@ == old(output)@ + rendered,
            Err(failure) => result matches Err(e) && e@ == failure,
        },
{
    let ghost start = output@;
    let ghost all = parts_view(cue.parts@);
    let mut i: usize = 0;
    proof {
        assert(all.take(0) =~= Seq::<PartModel>::empty());
        assert(output@ =~= start + Seq::<char>::empty());
    }
    while i < cue.parts.len()
        invariant
            i <= cue.parts@.len(),
            all == parts_view(cue.parts@),
            srt_parts(all.take(i as int), cue.start, *markers, *palette, roles@) matches Ok(done)
                && output@ == start + done,
        decreases cue.parts@.len() - i,
    {
        let ghost t = all.take(i + 1);
        proof {
            assert(t.drop_last() =~= all.take(i as int));
            assert(t.last() == cue.parts@[i as int]@);
        }
        if i > 0 {
            push_char(output, '\n');
        }
        match render_cue_part(output, cue.start, &cue.parts[i], markers, palette, roles) {
            Err(error) => {
                proof {
                    lemma_parts_failure_stays(all, i + 1, cue.start, *markers, *palette, roles@);
                }
                return Err(error);
            },
            Ok(()) => {},
        }
        i = i + 1;
    }
    proof {
        assert(all.take(cue.parts@.len() as int) =~= all);
    }
    Ok(())
}

/// Once a prefix of the cues fails, the whole file fails the same way.
proof fn lemma_blocks_failure_stays(
    cues: Seq<SubtitleCue>,
    k: int,
    markers: LineMarkersDesc,
    palette: StylePalette,
    roles: Seq<Seq<char>>,
)
    requires
        0 <= k <= cues.len(),
        srt_blocks(cues.take(k), markers, palette, roles) is Err,
    ensures
        srt_blocks(cues, markers, palette, roles) == srt_blocks(cues.take(k), markers, palette, roles),
    decreases cues.len() - k,
{
    if k < cues.len() {
        let t = cues.take(k + 1);
        assert(t.drop_last() =~= cues.take(k));
        lemma_blocks_failure_stays(cues, k + 1, markers, palette, roles);
    } else {
        assert(cues.take(k) =~= cues);
    }
}

/// Appends the numbered block of one cue: its number, its time range, its
/// body and a blank line.
fn render_block(
    output: &mut String,
    number: u64,
    cue: &SubtitleCue,
    markers: &LineMarkersDesc,
    palette: &StylePalette,
    roles: &CreditRoles,
) -> (result: Result<(), RenderSrtError>)
    ensures
        match srt_parts(parts_view(cue.parts@), cue.start, *markers, *palette, roles@) {
            Ok(body) => result is Ok && final(output)@ == old(output)@ + decimal(number as nat)
                + seq!['\n'] + render_hh_mm_ss(cue.start@, ',') + " --> "@ + render_hh_mm_ss(
                cue.end@,
                ',',
            ) + seq!['\n'] + body + "\n\n"@,
            Err(failure) => result matches Err(e) && e@ == failure,
        },
{
    let ghost before = output@;
    push_decimal(output, number, 0);
    push_char(output, '\n');
    let start_text = SrtTime::from(cue.start).to_string();
    push_str(output, start_text.as_str());
    push_str(output, " --> ");
    let end_text = SrtTime::from(cue.end).to_string();
    push_str(output, end_text.as_str());
    push_char(output, '\n');
    let ghost header = output@;
    proof {
        assert(decimal_padded(number as nat, 0) == decimal(number as nat));
        assert(header =~= before + decimal(number as nat) + seq!['\n'] + render_hh_mm_ss(
            cue.start@,
            ',',
        ) + " --> "@ + render_hh_mm_ss(cue.end@, ',') + seq!['\n']);
    }
    match render_cue_body(output, cue, markers, palette, roles) {
        Err(error) => {
            return Err(error);
        },
        Ok(()) => {},
    }
    push_str(output, "\n\n");
    Ok(())
}

/// Renders the cues of one language into a complete SubRip file: a
/// numbered block per cue with its time range and body, the file ending
/// in one line break.
pub fn render_srt(
    cues: &Vec<SubtitleCue>,
    markers: &LineMarkersDesc,
    credits: &CreditsDesc,
    palette: &StylePalette,
    language: &Language,
) -> (result: Result<String, RenderSrtError>)
    requires
        markers.wf(),
        credits.wf(),
        palette.wf(),
    ensures
        match srt_file(cues@, *markers, *credits, *palette, *language) {
            Ok(text) => result matches Ok(s) && s@ == text,
            Err(failure) => result matches Err(e) && e@ == failure,
        },
{
    let roles = CreditRoles::from_descriptor(credits, language);
    let mut output = String::new();
    let mut i: usize = 0;
    proof {
        assert(cues@.take(0) =~= Seq::<SubtitleCue>::empty());
    }
    while i < cues.len()
        invariant
            i <= cues@.len(),
            roles@ == role_set(credits.credit_roles@, *language),
            srt_blocks(cues@.take(i as int), *markers, *palette, roles@) matches Ok(done)
                && output@ == done,
        decreases cues@.len() - i,
    {
        let ghost t = cues@.take(i + 1);
        let ghost before = output@;
        proof {
            assert(t.drop_last() =~= cues@.take(i as int));
            assert(t.last() == cues@[i as int]);
        }
        match render_block(&mut output, (i + 1) as u64, &cues[i], markers, palette, &roles) {
            Err(error) => {
                proof {
                    lemma_blocks_failure_stays(cues@, i + 1, *markers, *palette, roles@);
                }
                return Err(error);
            },
            Ok(()) => {},
        }
        i = i + 1;
    }
    proof {
        assert(cues@.take(cues@.len() as int) =~= cues@);
    }
    Ok(finish_output(output))
}

impl RenderSrtError {
    /// What the error says.
    pub fn to_string(&self) -> (result: String)
        ensures
            result@ == failure_message(self@),
    {
        match self {
            RenderSrtError::Credits(payload) => credit_failure_text(payload.start, &payload.cause),
            RenderSrtError::Style(missing) => missing.to_string(),
        }
    }
}

/// A credit block fails exactly when one of its lines does not parse,
/// and then with the failure of the first such line.
#[verifier::spinoff_prover]
#[verifier::rlimit(60)]
proof fn lemma_credit_block_first_failure(
    lines: Seq<Seq<char>>,
    start: Timestamp,
    credit: CreditPalette,
    roles: Seq<Seq<char>>,
)
    ensures
        (srt_credit_block(lines, start, credit, roles) is Ok) <==> forall|j: int|
            0 <= j < lines.len() ==> #[trigger] parse_credit_model(roles, trim_start(lines[j]))
                is Ok,
        forall|j: int|
            0 <= j < lines.len() && #[trigger] parse_credit_model(roles, trim_start(lines[j]))
                is Err && (forall|i: int|
                0 <= i < j ==> parse_credit_model(roles, trim_start(lines[i])) is Ok) ==> srt_credit_block(
                lines,
                start,
                credit,
                roles,
            ) == Err::<Seq<char>, RenderFailure>(
                credit_failure(
                    start,
                    trim_start(lines[j]),
                    parse_credit_model(roles, trim_start(lines[j]))->Err_0,
                ),
            ),
    decreases lines.len(),
{
    if lines.len() > 0 {
        let init = lines.drop_last();
        lemma_credit_block_first_failure(init, start, credit, roles);
        assert forall|j: int| 0 <= j < init.len() implies #[trigger] init[j] == lines[j] by {}
        let last = lines.len() - 1;
        if srt_credit_block(init, start, credit, roles) is Ok {
            assert(forall|j: int|
                0 <= j < init.len() ==> parse_credit_model(roles, trim_start(init[j])) is Ok);
        }
        assert forall|j: int|
            0 <= j < lines.len() && #[trigger] parse_credit_model(roles, trim_start(lines[j]))
                is Err && (forall|i: int|
                0 <= i < j ==> parse_credit_model(roles, trim_start(lines[i])) is Ok) implies srt_credit_block(
            lines,
            start,
            credit,
            roles,
        ) == Err::<Seq<char>, RenderFailure>(
            credit_failure(
                start,
                trim_start(lines[j]),
                parse_credit_model(roles, trim_start(lines[j]))->Err_0,
            ),
        ) by {
            if j < last {
                assert(init[j] == lines[j]);
                assert(parse_credit_model(roles, trim_start(init[j])) is Err);
                assert(forall|i: int|
                    0 <= i < j ==> parse_credit_model(roles, trim_start(init[i])) is Ok);
            } else {
                assert forall|i: int| 0 <= i < init.len() implies #[trigger] parse_credit_model(
                    roles,
                    trim_start(init[i]),
                ) is Ok by {
                    assert(init[i] == lines[i]);
                }
            }
        }
        if srt_credit_block(lines, start, credit, roles) is Ok {
            assert forall|j: int| 0 <= j < lines.len() implies #[trigger] parse_credit_model(
                roles,
                trim_start(lines[j]),
            ) is Ok by {
                if j < last {
                    assert(init[j] == lines[j]);
                }
            }
        }
    }
}

/// One part's failure, in order of precedence: a credit part fails when
/// one of its lines does not parse as a credit line, with the first such
/// line; any other part fails when its marker is declared a voice the
/// palette does not style; failing that, when it is declared a class the
/// palette does not style. Nothing else fails.
pub proof fn lemma_srt_part_precedence(
    part: PartModel,
    start: Timestamp,
    markers: LineMarkersDesc,
    palette: StylePalette,
    roles: Seq<Seq<char>>,
)
    ensures
        ({
            let result = srt_part(part, start, markers, palette, roles);
            let lines = lines_of(part.text);
            if contains_name(markers.credits@, part.marker) {
                &&& (result is Ok <==> forall|j: int|
                    0 <= j < lines.len() ==> #[trigger] parse_credit_model(roles, trim_start(lines[j]))
                        is Ok)
                &&& forall|j: int|
                    0 <= j < lines.len() && #[trigger] parse_credit_model(
                        roles,
                        trim_start(lines[j]),
                    ) is Err && (forall|i: int|
                        0 <= i < j ==> parse_credit_model(roles, trim_start(lines[i])) is Ok)
                        ==> result == Err::<Seq<char>, RenderFailure>(
                        credit_failure(
                            start,
                            trim_start(lines[j]),
                            parse_credit_model(roles, trim_start(lines[j]))->Err_0,
                        ),
                    )
            } else if lookup(markers.voices@, part.marker) is Some {
                result is Err <==> lookup(palette.voices@, part.marker) is None
                    && (result is Err ==> result == Err::<Seq<char>, RenderFailure>(
                    RenderFailure::Style(StyleGap::Voice(part.marker)),
                ))
            } else {
                match lookup(markers.classes@, part.marker) {
                    Some(class_name) => (result is Err <==> class_lookup(
                        palette.classes@,
                        class_name@,
                    ) is None) && (result is Err ==> result == Err::<Seq<char>, RenderFailure>(
                        RenderFailure::Style(StyleGap::Class(class_name@)),
                    )),
                    None => result is Ok,
                }
            }
        }),
{
    lemma_credit_block_first_failure(lines_of(part.text), start, palette.credit, roles);
}

/// The cues' parts fail exactly when one part does, and then with the
/// failure of the first failing part.
proof fn lemma_parts_first_failure(
    parts: Seq<PartModel>,
    start: Timestamp,
    markers: LineMarkersDesc,
    palette: StylePalette,
    roles: Seq<Seq<char>>,
)
    ensures
        (srt_parts(parts, start, markers, palette, roles) is Ok) <==> forall|j: int|
            0 <= j < parts.len() ==> #[trigger] srt_part(parts[j], start, markers, palette, roles)
                is Ok,
        forall|j: int|
            0 <= j < parts.len() && #[trigger] srt_part(parts[j], start, markers, palette, roles)
                is Err && (forall|i: int|
                0 <= i < j ==> srt_part(parts[i], start, markers, palette, roles) is Ok)
                ==> srt_parts(parts, start, markers, palette, roles) == Err::<
                Seq<char>,
                RenderFailure,
            >(srt_part(parts[j], start, markers, palette, roles)->Err_0),
    decreases parts.len(),
{
    if parts.len() > 0 {
        let init = parts.drop_last();
        lemma_parts_first_failure(init, start, markers, palette, roles);
        let last = parts.len() - 1;
        assert forall|j: int|
            0 <= j < parts.len() && #[trigger] srt_part(parts[j], start, markers, palette, roles)
                is Err && (forall|i: int|
                0 <= i < j ==> srt_part(parts[i], start, markers, palette, roles) is Ok) implies srt_parts(
            parts,
            start,
            markers,
            palette,
            roles,
        ) == Err::<Seq<char>, RenderFailure>(
            srt_part(parts[j], start, markers, palette, roles)->Err_0,
        ) by {
            if j < last {
                assert(init[j] == parts[j]);
                assert(srt_part(init[j], start, markers, palette, roles) is Err);
                assert forall|i: int| 0 <= i < j implies #[trigger] srt_part(
                    init[i],
                    start,
                    markers,
                    palette,
                    roles,
                ) is Ok by {
                    assert(init[i] == parts[i]);
                }
            } else {
                assert forall|i: int| 0 <= i < init.len() implies #[trigger] srt_part(
                    init[i],
                    start,
                    markers,
                    palette,
                    roles,
                ) is Ok by {
                    assert(init[i] == parts[i]);
                }
            }
        }
        if srt_parts(parts, start, markers, palette, roles) is Ok {
            assert forall|j: int| 0 <= j < parts.len() implies #[trigger] srt_part(
                parts[j],
                start,
                markers,
                palette,
                roles,
            ) is Ok by {
                if j < last {
                    assert(init[j] == parts[j]);
                }
            }
        } else if srt_parts(init, start, markers, palette, roles) is Ok {
            assert forall|i: int| 0 <= i < init.len() implies #[trigger] srt_part(
                parts[i],
                start,
                markers,
                palette,
                roles,
            ) is Ok by {
                assert(init[i] == parts[i]);
            }
        } else {
            let j = choose|j: int|
                0 <= j < init.len() && !(#[trigger] srt_part(
                    init[j],
                    start,
                    markers,
                    palette,
                    roles,
                ) is Ok);
            assert(init[j] == parts[j]);
        }
    }
}

/// The part of cue `a` at `b`, rendered.
pub open spec fn srt_cue_part(
    cues: Seq<SubtitleCue>,
    a: int,
    b: int,
    markers: LineMarkersDesc,
    palette: StylePalette,
    roles: Seq<Seq<char>>,
) -> Result<Seq<char>, RenderFailure> {
    srt_part(parts_view(cues[a].parts@)[b], cues[a].start, markers, palette, roles)
}

/// Whether every part of every cue of `cues` renders.
pub open spec fn srt_all_parts_render(
    cues: Seq<SubtitleCue>,
    markers: LineMarkersDesc,
    palette: StylePalette,
    roles: Seq<Seq<char>>,
) -> bool {
    forall|a: int, b: int|
        0 <= a < cues.len() && 0 <= b < cues[a].parts@.len() ==> #[trigger] srt_cue_part(
            cues,
            a,
            b,
            markers,
            palette,
            roles,
        ) is Ok
}

/// Whether part `b` of cue `a` is the first part that fails, cue by cue
/// and part by part.
pub open spec fn srt_first_failing(
    cues: Seq<SubtitleCue>,
    a: int,
    b: int,
    markers: LineMarkersDesc,
    palette: StylePalette,
    roles: Seq<Seq<char>>,
) -> bool {
    &&& 0 <= a < cues.len()
    &&& 0 <= b < cues[a].parts@.len()
    &&& srt_cue_part(cues, a, b, markers, palette, roles) is Err
    &&& forall|i: int| 0 <= i < b ==> #[trigger] srt_cue_part(cues, a, i, markers, palette, roles) is Ok
    &&& forall|c: int, i: int|
        0 <= c < a && 0 <= i < cues[c].parts@.len() ==> #[trigger] srt_cue_part(
            cues,
            c,
            i,
            markers,
            palette,
            roles,
        ) is Ok
}

proof fn lemma_cue_parts(
    cues: Seq<SubtitleCue>,
    a: int,
    markers: LineMarkersDesc,
    palette: StylePalette,
    roles: Seq<Seq<char>>,
)
    requires
        0 <= a < cues.len(),
    ensures
        (srt_parts(parts_view(cues[a].parts@), cues[a].start, markers, palette, roles) is Ok)
            <==> forall|b: int|
            0 <= b < cues[a].parts@.len() ==> #[trigger] srt_cue_part(
                cues,
                a,
                b,
                markers,
                palette,
                roles,
            ) is Ok,
        forall|b: int|
            0 <= b < cues[a].parts@.len() && #[trigger] srt_cue_part(cues, a, b, markers, palette, roles)
                is Err && (forall|i: int|
                0 <= i < b ==> srt_cue_part(cues, a, i, markers, palette, roles) is Ok) ==> srt_parts(
                parts_view(cues[a].parts@),
                cues[a].start,
                markers,
                palette,
                roles,
            ) == srt_cue_part(cues, a, b, markers, palette, roles),
{
    let parts = parts_view(cues[a].parts@);
    lemma_parts_first_failure(parts, cues[a].start, markers, palette, roles);
    assert(parts.len() == cues[a].parts@.len());
    assert forall|b: int| 0 <= b < parts.len() implies srt_part(
        #[trigger] parts[b],
        cues[a].start,
        markers,
        palette,
        roles,
    ) == srt_cue_part(cues, a, b, markers, palette, roles) by {}
}

/// The cues render exactly when all their parts do; otherwise the blocks
/// fail with the first failing part, cue by cue and part by part.
#[verifier::spinoff_prover]
#[verifier::rlimit(60)]
proof fn lemma_blocks_first_failure(
    cues: Seq<SubtitleCue>,
    markers: LineMarkersDesc,
    palette: StylePalette,
    roles: Seq<Seq<char>>,
)
    ensures
        (srt_blocks(cues, markers, palette, roles) is Ok) <==> srt_all_parts_render(
            cues,
            markers,
            palette,
            roles,
        ),
        forall|a: int, b: int|
            #[trigger] srt_first_failing(cues, a, b, markers, palette, roles) ==> srt_blocks(
                cues,
                markers,
                palette,
                roles,
            ) == srt_cue_part(cues, a, b, markers, palette, roles),
    decreases cues.len(),
{
    if cues.len() > 0 {
        let init = cues.drop_last();
        let last = cues.len() - 1;
        lemma_blocks_first_failure(init, markers, palette, roles);
        lemma_cue_parts(cues, last, markers, palette, roles);
        assert forall|a: int, b: int|
            0 <= a < init.len() && 0 <= b < init[a].parts@.len() implies #[trigger] srt_cue_part(
            init,
            a,
            b,
            markers,
            palette,
            roles,
        ) == srt_cue_part(cues, a, b, markers, palette, roles) by {
            assert(init[a] == cues[a]);
        }
        assert forall|a: int, b: int|
            #[trigger] srt_first_failing(cues, a, b, markers, palette, roles) implies srt_blocks(
            cues,
            markers,
            palette,
            roles,
        ) == srt_cue_part(cues, a, b, markers, palette, roles) by {
            if a < last {
                assert(init[a] == cues[a]);
                assert forall|c: int, i: int|
                    0 <= c < a && 0 <= i < init[c].parts@.len() implies #[trigger] srt_cue_part(
                    init,
                    c,
                    i,
                    markers,
                    palette,
                    roles,
                ) is Ok by {
                    assert(srt_cue_part(cues, c, i, markers, palette, roles) is Ok);
                }
                assert forall|i: int| 0 <= i < b implies #[trigger] srt_cue_part(
                    init,
                    a,
                    i,
                    markers,
                    palette,
                    roles,
                ) is Ok by {
                    assert(srt_cue_part(cues, a, i, markers, palette, roles) is Ok);
                }
                assert(srt_first_failing(init, a, b, markers, palette, roles));
            } else {
                assert forall|c: int, i: int|
                    0 <= c < init.len() && 0 <= i < init[c].parts@.len() implies #[trigger] srt_cue_part(
                    init,
                    c,
                    i,
                    markers,
                    palette,
                    roles,
                ) is Ok by {
                    assert(srt_cue_part(cues, c, i, markers, palette, roles) is Ok);
                }
            }
        }
        if srt_blocks(cues, markers, palette, roles) is Ok {
            assert forall|a: int, b: int|
                0 <= a < cues.len() && 0 <= b < cues[a].parts@.len() implies #[trigger] srt_cue_part(
                cues,
                a,
                b,
                markers,
                palette,
                roles,
            ) is Ok by {
                if a < last {
                    assert(srt_cue_part(init, a, b, markers, palette, roles) is Ok);
                }
            }
        } else if srt_blocks(init, markers, palette, roles) is Ok {
            assert forall|a: int, b: int|
                0 <= a < init.len() && 0 <= b < init[a].parts@.len() implies #[trigger] srt_cue_part(
                cues,
                a,
                b,
                markers,
                palette,
                roles,
            ) is Ok by {
                assert(srt_cue_part(init, a, b, markers, palette, roles) is Ok);
            }
        } else {
            let (a, b) = choose|a: int, b: int|
                0 <= a < init.len() && 0 <= b < init[a].parts@.len() && !(#[trigger] srt_cue_part(
                    init,
                    a,
                    b,
                    markers,
                    palette,
                    roles,
                ) is Ok);
            assert(srt_cue_part(cues, a, b, markers, palette, roles) is Err);
        }
    }
}

/// A SubRip render fails exactly when some part of some cue fails, and
/// then with the first failing part, cue by cue and part by part; how a
/// part fails, and in which order credits, voices and classes are
/// checked, is [`lemma_srt_part_precedence`].
pub proof fn lemma_srt_first_failure(
    cues: Seq<SubtitleCue>,
    markers: LineMarkersDesc,
    credits: CreditsDesc,
    palette: StylePalette,
    language: Language,
)
    ensures
        ({
            let roles = role_set(credits.credit_roles@, language);
            &&& (srt_file(cues, markers, credits, palette, language) is Ok) <==> srt_all_parts_render(
                cues,
                markers,
                palette,
                roles,
            )
            &&& forall|a: int, b: int|
                #[trigger] srt_first_failing(cues, a, b, markers, palette, roles) ==> srt_file(
                    cues,
                    markers,
                    credits,
                    palette,
                    language,
                ) == Err::<Seq<char>, RenderFailure>(
                    srt_cue_part(cues, a, b, markers, palette, roles)->Err_0,
                )
        }),
{
    let roles = role_set(credits.credit_roles@, language);
    lemma_blocks_first_failure(cues, markers, palette, roles);
}

} // verus!
