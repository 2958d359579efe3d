//! The WebVTT renderer.
//!
//! A song renders as a `WEBVTT` header, one `STYLE` block, and the cues.
//! The style block holds a rule for every voice and every class that the
//! line-markers descriptor declares, in the order of its `markers` list,
//! and a rule for each built-in credit class (`creditRole`, `creditName`,
//! `creditSpecial`) that the cues use.
//!
//! A cue part's text is wrapped according to its marker: a voice marker
//! in `<v name>...</v>` with the voice name of the language, a class
//! marker in `<c.class>...</c>`, a credit marker through the credit
//! parser as `<c.creditRole>role</c>` and `<c.creditName>name</c>` spans;
//! any other marker leaves the text unwrapped.

use crate::credits_model::{parse_credit_model, LeadModel, PairModel, SegmentModel};
use crate::credits_parse::{
    CreditLead, CreditPair, CreditRoles, NameSegment, ParseCreditError, pairs_view, role_set,
    segments_view,
};
use crate::descriptors::{
    contains_name, find_language, language_code, lookup, lookup_language, CreditsDesc, Language,
    LineMarkersDesc, VoiceName,
};
use crate::escape::{escape_html, Escaped};
use crate::parse::{CuePart, SubtitleCue, lines_view, parts_view, split_lines};
use crate::parse_model::{lines_of, PartModel};
use crate::render_common::{
    between_of, credit_failure, credit_failure_text, failure_message, finish_output, lead_suffix, lead_text, parse_block_line,
    push_between, push_lead_suffix, RenderFailure,
};
use crate::styles::{
    class_lookup, Color, MissingStyle, Style, StyleGap, StylePalette,
};
use crate::text::{chars_of, is_ws, lemma_suffix_len, push_char, push_str, suffix_len, trim_end, trim_start, ws};
use crate::timestamp::{decimal, decimal_padded, digit_char, render_hh_mm_ss, Timestamp, VttTime};
use vstd::prelude::*;

verus! {

/// Which built-in credit classes the cues use.
#[derive(Clone, Copy, Debug, PartialEq, Eq, Structural)]
pub struct Features {
    /// Some credit cell opens with a role.
    pub used_credit_role: bool,
    /// Some credit cell has a name.
    pub used_credit_name: bool,
    /// Some credit cell has a bracketed lead or a bracketed span in its
    /// name.
    pub used_credit_special: bool,
}

/// No credit class used.
pub open spec fn no_features() -> Features {
    Features { used_credit_role: false, used_credit_name: false, used_credit_special: false }
}

/// The classes that `a` or `b` uses.
pub open spec fn either(a: Features, b: Features) -> Features {
    Features {
        used_credit_role: a.used_credit_role || b.used_credit_role,
        used_credit_name: a.used_credit_name || b.used_credit_name,
        used_credit_special: a.used_credit_special || b.used_credit_special,
    }
}

/// Whether some segment is a bracketed span.
pub open spec fn has_bracketed(segments: Seq<SegmentModel>) -> bool {
    exists|i: int| 0 <= i < segments.len() && segments[i] is Bracketed
}

/// The classes one credit cell uses.
pub open spec fn pair_features(pair: PairModel) -> Features {
    Features {
        used_credit_role: pair.lead is Role,
        used_credit_name: pair.name_segments.len() > 0,
        used_credit_special: pair.lead is Special || has_bracketed(pair.name_segments),
    }
}

/// The name segments of a credit cell: plain text escaped, bracketed spans
/// in the `creditSpecial` class.
pub open spec fn vtt_segments(segments: Seq<SegmentModel>) -> Seq<char>
    decreases segments.len(),
{
    if segments.len() == 0 {
        Seq::empty()
    } else {
        vtt_segments(segments.drop_last()) + match segments.last() {
            SegmentModel::Unbracketed(text) => escape_html(text),
            SegmentModel::Bracketed(text) => "<c.creditSpecial>"@ + escape_html(text) + "</c>"@,
        }
    }
}

/// One credit cell: the lead in the `creditRole` class (or, for a
/// bracketed lead, `creditSpecial`), then, when the cell has a name, the
/// separator and the name in the `creditName` class.
pub open spec fn vtt_pair(pair: PairModel) -> Seq<char> {
    let class = match pair.lead {
        LeadModel::Role(_) => "creditRole"@,
        LeadModel::Special(_) => "creditSpecial"@,
    };
    "<c."@ + class + ">"@ + escape_html(lead_text(pair.lead)) + lead_suffix(pair.separator) + "</c>"@
        + if pair.name_segments.len() == 0 {
        Seq::empty()
    } else {
        between_of(pair.separator) + "<c.creditName>"@ + vtt_segments(pair.name_segments) + "</c>"@
    }
}

/// The cells of a credit line, separated by spaces, and the classes they
/// use.
pub open spec fn vtt_credit_line(pairs: Seq<PairModel>) -> (Seq<char>, Features)
    decreases pairs.len(),
{
    if pairs.len() == 0 {
        (Seq::empty(), no_features())
    } else {
        let (done, used) = vtt_credit_line(pairs.drop_last());
        (
            done + (if pairs.len() > 1 {
                seq![' ']
            } else {
                Seq::empty()
            }) + vtt_pair(pairs.last()),
            either(used, pair_features(pairs.last())),
        )
    }
}

/// The lines of a credit block, each parsed after its leading whitespace
/// and rendered on a line of its own, and the classes they use.
pub open spec fn vtt_credit_block(lines: Seq<Seq<char>>, start: Timestamp, roles: Seq<Seq<char>>) -> Result<
    (Seq<char>, Features),
    RenderFailure,
>
    decreases lines.len(),
{
    if lines.len() == 0 {
        Ok((Seq::empty(), no_features()))
    } else {
        match vtt_credit_block(lines.drop_last(), start, roles) {
            Err(failure) => Err(failure),
            Ok((done, used)) => {
                let line = trim_start(lines.last());
                match parse_credit_model(roles, line) {
                    Err(pos) => Err(credit_failure(start, line, pos)),
                    Ok(pairs) => Ok(
                        (
                            done + (if lines.len() > 1 {
                                seq!['\n']
                            } else {
                                Seq::empty()
                            }) + vtt_credit_line(pairs).0,
                            either(used, vtt_credit_line(pairs).1),
                        ),
                    ),
                }
            },
        }
    }
}

/// The voice name of `marker` in `language`, when the song declares the
/// marker as a voice with a name in that language.
pub open spec fn voice_of(marker: Seq<char>, markers: LineMarkersDesc, language: Language) -> Option<
    VoiceName,
> {
    match lookup(markers.voices@, marker) {
        Some(by_language) => lookup_language(by_language@, language),
        None => None,
    }
}

/// One part of a cue, inside its voice tag when it has a voice name, and
/// the classes it uses.
pub open spec fn vtt_part(
    part: PartModel,
    start: Timestamp,
    markers: LineMarkersDesc,
    roles: Seq<Seq<char>>,
    language: Language,
) -> Result<(Seq<char>, Features), RenderFailure> {
    let voice = voice_of(part.marker, markers, language);
    let open = match voice {
        Some(name) => "<v "@ + name@ + ">"@,
        None => Seq::empty(),
    };
    let close = if voice is Some {
        "</v>"@
    } else {
        Seq::empty()
    };
    if contains_name(markers.credits@, part.marker) {
        match vtt_credit_block(lines_of(part.text), start, roles) {
            Err(failure) => Err(failure),
            Ok((body, used)) => Ok((open + body + close, used)),
        }
    } else {
        match lookup(markers.classes@, part.marker) {
            Some(class_name) => Ok(
                (
                    open + "<c."@ + class_name@ + ">"@ + escape_html(part.text) + "</c>"@ + close,
                    no_features(),
                ),
            ),
            None => Ok((open + escape_html(part.text) + close, no_features())),
        }
    }
}

/// The parts of a cue, one line each, and the classes they use.
pub open spec fn vtt_parts(
    parts: Seq<PartModel>,
    start: Timestamp,
    markers: LineMarkersDesc,
    roles: Seq<Seq<char>>,
    language: Language,
) -> Result<(Seq<char>, Features), RenderFailure>
    decreases parts.len(),
{
    if parts.len() == 0 {
        Ok((Seq::empty(), no_features()))
    } else {
        match vtt_parts(parts.drop_last(), start, markers, roles, language) {
            Err(failure) => Err(failure),
            Ok((done, used)) => match vtt_part(parts.last(), start, markers, roles, language) {
                Err(failure) => Err(failure),
                Ok((text, more)) => Ok(
                    (
                        done + (if parts.len() > 1 {
                            seq!['\n']
                        } else {
                            Seq::empty()
                        }) + text,
                        either(used, more),
                    ),
                ),
            },
        }
    }
}

/// The cues: each its time range, its content and a blank line; and the
/// classes they use.
pub open spec fn vtt_cues(
    cues: Seq<SubtitleCue>,
    markers: LineMarkersDesc,
    roles: Seq<Seq<char>>,
    language: Language,
) -> Result<(Seq<char>, Features), RenderFailure>
    decreases cues.len(),
{
    if cues.len() == 0 {
        Ok((Seq::empty(), no_features()))
    } else {
        match vtt_cues(cues.drop_last(), markers, roles, language) {
            Err(failure) => Err(failure),
            Ok((done, used)) => {
                let cue = cues.last();
                match vtt_parts(parts_view(cue.parts@), cue.start, markers, roles, language) {
                    Err(failure) => Err(failure),
                    Ok((content, more)) => Ok(
                        (
                            done + render_hh_mm_ss(cue.start@, '.') + " --> "@ + render_hh_mm_ss(
                                cue.end@,
                                '.',
                            ) + seq!['\n'] + content + "\n\n"@,
                            either(used, more),
                        ),
                    ),
                }
            },
        }
    }
}

/// The declarations of a style rule.
pub open spec fn style_body(style: Style) -> Seq<char> {
    (match style.color {
        Some(color) => "  color: "@ + color@ + ";\n"@,
        None => Seq::empty(),
    }) + (if style.italic {
        "  font-style: italic;\n"@
    } else {
        Seq::empty()
    }) + (if style.bold {
        "  font-weight: bold;\n"@
    } else {
        Seq::empty()
    })
}

/// The style rule of a voice name.
pub open spec fn voice_rule(name: Seq<char>, style: Style) -> Seq<char> {
    "::cue(v[voice=\""@ + name + "\"]) {\n"@ + style_body(style) + "}\n"@
}

/// The style rule of a class.
pub open spec fn class_rule(class_name: Seq<char>, style: Style) -> Seq<char> {
    "::cue(c."@ + class_name + ") {\n"@ + style_body(style) + "}\n"@
}

/// The style rule of a built-in credit class, which has a color only.
pub open spec fn credit_rule(class_name: Seq<char>, color: Color) -> Seq<char> {
    "::cue(c."@ + class_name + ") {\n"@ + "  color: "@ + color@ + ";\n"@ + "}\n"@
}

/// The voice rules, in the order of `names`: every voice marker must have
/// a style, and a rule is written when the voice has a name in
/// `language`.
pub open spec fn voice_rules(
    names: Seq<Seq<char>>,
    markers: LineMarkersDesc,
    palette: StylePalette,
    language: Language,
) -> Result<Seq<char>, StyleGap>
    decreases names.len(),
{
    if names.len() == 0 {
        Ok(Seq::empty())
    } else {
        match voice_rules(names.drop_last(), markers, palette, language) {
            Err(gap) => Err(gap),
            Ok(done) => {
                let marker = names.last();
                match lookup(markers.voices@, marker) {
                    None => Ok(done),
                    Some(by_language) => match lookup(palette.voices@, marker) {
                        None => Err(StyleGap::Voice(marker)),
                        Some(style) => match lookup_language(by_language@, language) {
                            None => Ok(done),
                            Some(name) => Ok(done + voice_rule(name@, style)),
                        },
                    },
                }
            },
        }
    }
}

/// The class rules, in the order of `names`: every class marker's class
/// must have a style.
pub open spec fn class_rules(names: Seq<Seq<char>>, markers: LineMarkersDesc, palette: StylePalette) -> Result<
    Seq<char>,
    StyleGap,
>
    decreases names.len(),
{
    if names.len() == 0 {
        Ok(Seq::empty())
    } else {
        match class_rules(names.drop_last(), markers, palette) {
            Err(gap) => Err(gap),
            Ok(done) => match lookup(markers.classes@, names.last()) {
                None => Ok(done),
                Some(class_name) => match class_lookup(palette.classes@, class_name@) {
                    None => Err(StyleGap::Class(class_name@)),
                    Some(style) => Ok(done + class_rule(class_name@, style)),
                },
            },
        }
    }
}

/// The texts of a list of marker names.
pub open spec fn marker_texts(names: Seq<crate::descriptors::MarkerName>) -> Seq<Seq<char>> {
    names.map_values(|name: crate::descriptors::MarkerName| name@)
}

/// The `STYLE` block: the cue defaults, the voice rules, the rules of the
/// credit classes in use, and the class rules.
pub open spec fn vtt_style_block(
    markers: LineMarkersDesc,
    palette: StylePalette,
    used: Features,
    language: Language,
) -> Result<Seq<char>, StyleGap> {
    let names = marker_texts(markers.markers@);
    match voice_rules(names, markers, palette, language) {
        Err(gap) => Err(gap),
        Ok(voices) => match class_rules(names, markers, palette) {
            Err(gap) => Err(gap),
            Ok(classes) => Ok(
                "STYLE\n::cue {\n  background-color: transparent;\n  text-shadow: 2px 2px 2px black;\n}\n"@
                    + voices + (if used.used_credit_role {
                    credit_rule("creditRole"@, palette.credit.role)
                } else {
                    Seq::empty()
                }) + (if used.used_credit_name {
                    credit_rule("creditName"@, palette.credit.name)
                } else {
                    Seq::empty()
                }) + (if used.used_credit_special {
                    credit_rule("creditSpecial"@, palette.credit.special)
                } else {
                    Seq::empty()
                }) + classes,
            ),
        },
    }
}

/// The WebVTT file of `cues` in `language`: the header, the style block,
/// a blank line and the cues, without trailing whitespace and ending in
/// one line break. A credit line that does not parse fails the render
/// before a missing style does.
pub open spec fn vtt_file(
    cues: Seq<SubtitleCue>,
    markers: LineMarkersDesc,
    credits: CreditsDesc,
    palette: StylePalette,
    language: Language,
) -> Result<Seq<char>, RenderFailure> {
    match vtt_cues(cues, markers, role_set(credits.credit_roles@, language), language) {
        Err(failure) => Err(failure),
        Ok((section, used)) => match vtt_style_block(markers, palette, used, language) {
            Err(gap) => Err(RenderFailure::Style(gap)),
            Ok(block) => Ok(
                trim_end(
                    "WEBVTT\nLanguage: "@ + language_code(language) + "\n\n"@ + block + seq!['\n']
                        + section,
                ) + seq!['\n'],
            ),
        },
    }
}

/// Why a cue could not be rendered as a credit line.
#[derive(Debug, PartialEq, Eq)]
pub struct RenderVttErrorCreditsPayload {
    /// The start of the cue.
    pub start: Timestamp,
    /// Why its credit line did not parse.
    pub cause: ParseCreditError,
}

/// Why a WebVTT render failed.
#[derive(Debug, PartialEq, Eq)]
#[non_exhaustive]
pub enum RenderVttError {
    /// A credit line did not parse.
    Credits(RenderVttErrorCreditsPayload),
    /// A declared marker has no style in the palette.
    Style(MissingStyle),
}

impl View for RenderVttError {
    type V = RenderFailure;

    open spec fn view(&self) -> RenderFailure {
        match self {
            RenderVttError::Credits(payload) => match payload.cause {
                ParseCreditError::UnknownRole(e) => RenderFailure::Credits(
                    payload.start,
                    e.line@,
                    e.offset,
                ),
            },
            RenderVttError::Style(missing) => RenderFailure::Style(missing@),
        }
    }
}

/// The CSS attribute selector `v[voice="name"]` of a voice name. A voice
/// name holds none of the characters that would end the quoted value.
pub struct VoiceSelector<'a>(pub &'a VoiceName);

impl<'a> VoiceSelector<'a> {
    /// The selector text.
    pub fn to_string(&self) -> (result: String)
        ensures
            result@ == "v[voice=\""@ + self.0@ + "\"]"@,
    {
        let mut output = String::new();
        push_str(&mut output, "v[voice=\"");
        push_str(&mut output, self.0.as_str());
        push_str(&mut output, "\"]");
        output
    }
}

/// The classes that name segments use.
pub open spec fn segments_features(segments: Seq<SegmentModel>) -> Features {
    Features {
        used_credit_role: false,
        used_credit_name: false,
        used_credit_special: has_bracketed(segments),
    }
}

/// Appends the name segments of a credit cell.
fn write_name_segments(output: &mut String, features: &mut Features, segments: &Vec<NameSegment>)
    ensures
        final(output)@ == old(output)@ + vtt_segments(segments_view(segments@)),
        *final(features) == either(*old(features), segments_features(segments_view(segments@))),
{
    let ghost start = output@;
    let ghost used = *features;
    let ghost all = segments_view(segments@);
    let mut i: usize = 0;
    proof {
        assert(all.take(0) =~= Seq::<SegmentModel>::empty());
        assert(output@ =~= start + vtt_segments(all.take(0)));
        assert(*features == either(used, segments_features(all.take(0))));
    }
    while i < segments.len()
        invariant
            i <= segments@.len(),
            all == segments_view(segments@),
            output@ == start + vtt_segments(all.take(i as int)),
            *features == either(used, segments_features(all.take(i as int))),
        decreases segments@.len() - i,
    {
        let ghost t = all.take(i + 1);
        proof {
            assert(t.drop_last() =~= all.take(i as int));
            assert(t.last() == segments@[i as int]@);
        }
        match &segments[i] {
            NameSegment::Unbracketed(text) => {
                Escaped(text.as_str()).write_to(output);
                proof {
                    if has_bracketed(t) {
                        let j = choose|j: int| 0 <= j < t.len() && t[j] is Bracketed;
                        assert(all.take(i as int)[j] == t[j]);
                    }
                    if has_bracketed(all.take(i as int)) {
                        let j = choose|j: int| 0 <= j < i && all.take(i as int)[j] is Bracketed;
                        assert(t[j] == all.take(i as int)[j]);
                    }
                }
            },
            NameSegment::Bracketed(text) => {
                features.used_credit_special = true;
                push_str(output, "<c.creditSpecial>");
                Escaped(text.as_str()).write_to(output);
                push_str(output, "</c>");
                proof {
                    assert(t[i as int] is Bracketed);
                }
            },
        }
        proof {
            assert(output@ =~= start + vtt_segments(t));
        }
        i = i + 1;
    }
    proof {
        assert(all.take(segments@.len() as int) =~= all);
    }
}

/// Appends one credit cell.
fn render_credit_pair(output: &mut String, features: &mut Features, pair: &CreditPair)
    ensures
        final(output)@ == old(output)@ + vtt_pair(pair@),
        *final(features) == either(*old(features), pair_features(pair@)),
{
    let ghost start = output@;
    let ghost used = *features;
    match &pair.lead {
        CreditLead::Role(role) => {
            features.used_credit_role = true;
            push_str(output, "<c.creditRole>");
            Escaped(role.as_str()).write_to(output);
        },
        CreditLead::Special(span) => {
            features.used_credit_special = true;
            push_str(output, "<c.creditSpecial>");
            Escaped(span.as_str()).write_to(output);
        },
    }
    push_lead_suffix(output, pair);
    push_str(output, "</c>");
    proof {
        reveal_strlit("<c.creditRole>");
        reveal_strlit("<c.creditSpecial>");
        reveal_strlit("<c.");
        reveal_strlit("creditRole");
        reveal_strlit("creditSpecial");
        reveal_strlit(">");
    }
    if pair.name_segments.len() == 0 {
        proof {
            assert(output@ =~= start + vtt_pair(pair@));
            assert(!has_bracketed(pair@.name_segments));
        }
        return;
    }
    features.used_credit_name = true;
    push_between(output, pair);
    push_str(output, "<c.creditName>");
    write_name_segments(output, features, &pair.name_segments);
    push_str(output, "</c>");
    proof {
        assert(output@ =~= start + vtt_pair(pair@));
    }
}

/// Appends the cells of a credit line, separated by spaces.
fn render_credit_line(output: &mut String, features: &mut Features, pairs: &Vec<CreditPair>)
    ensures
        final(output)@ == old(output)@ + vtt_credit_line(pairs_view(pairs@)).0,
        *final(features) == either(*old(features), vtt_credit_line(pairs_view(pairs@)).1),
{
    let ghost start = output@;
    let ghost used = *features;
    let ghost all = pairs_view(pairs@);
    let mut i: usize = 0;
    proof {
        assert(all.take(0) =~= Seq::<PairModel>::empty());
        assert(output@ =~= start + vtt_credit_line(all.take(0)).0);
    }
    while i < pairs.len()
        invariant
            i <= pairs@.len(),
            all == pairs_view(pairs@),
            output@ == start + vtt_credit_line(all.take(i as int)).0,
            *features == either(used, vtt_credit_line(all.take(i as int)).1),
        decreases pairs@.len() - i,
    {
        if i > 0 {
            push_char(output, ' ');
        }
        render_credit_pair(output, features, &pairs[i]);
        proof {
            let t = all.take(i + 1);
            assert(t.drop_last() =~= all.take(i as int));
            assert(t.last() == pairs@[i as int]@);
            assert(vtt_credit_line(t).1 == either(
                vtt_credit_line(all.take(i as int)).1,
                pair_features(pairs@[i as int]@),
            ));
            assert(output@ =~= start + vtt_credit_line(t).0);
        }
        i = i + 1;
    }
    proof {
        assert(all.take(pairs@.len() as int) =~= all);
    }
}

/// Once a prefix of a credit block fails, the whole block fails the same
/// way.
proof fn lemma_credit_block_failure_stays(
    lines: Seq<Seq<char>>,
    k: int,
    start: Timestamp,
    roles: Seq<Seq<char>>,
)
    requires
        0 <= k <= lines.len(),
        vtt_credit_block(lines.take(k), start, roles) is Err,
    ensures
        vtt_credit_block(lines, start, roles) == vtt_credit_block(lines.take(k), start, roles),
    decreases lines.len() - k,
{
    if k < lines.len() {
        let t = lines.take(k + 1);
        assert(t.drop_last() =~= lines.take(k));
        lemma_credit_block_failure_stays(lines, k + 1, start, roles);
    } else {
        assert(lines.take(k) =~= lines);
    }
}

/// Appends a credit block: each line parsed and rendered on a line of its
/// own.
fn render_credit_block(
    output: &mut String,
    features: &mut Features,
    cue_start: Timestamp,
    text: &str,
    roles: &CreditRoles,
) -> (result: Result<(), RenderVttError>)
    ensures
        match vtt_credit_block(lines_of(text@), cue_start, roles@) {
            Ok((rendered, used)) => result is Ok && final(output)@ == old(output)@ + rendered
                && *final(features) == either(*old(features), used),
            Err(failure) => result matches Err(e) && e@ == failure,
        },
{
    let ghost start = output@;
    let ghost used = *features;
    let chars = chars_of(text);
    let lines = split_lines(&chars);
    let ghost all = lines_view(lines@);
    let mut i: usize = 0;
    proof {
        assert(all.take(0) =~= Seq::<Seq<char>>::empty());
        assert(output@ =~= start + Seq::<char>::empty());
        assert(*features == either(used, no_features()));
    }
    while i < lines.len()
        invariant
            i <= lines@.len(),
            all == lines_view(lines@),
            all == lines_of(text@),
            vtt_credit_block(all.take(i as int), cue_start, roles@) matches Ok((done, more))
                && output@ == start + done && *features == either(used, more),
        decreases lines@.len() - i,
    {
        let ghost t = all.take(i + 1);
        proof {
            assert(t.drop_last() =~= all.take(i as int));
            assert(t.last() == lines@[i as int]@);
        }
        let (line, parsed) = parse_block_line(&lines[i], roles);
        match parsed {
            Err(cause) => {
                let failure = RenderVttError::Credits(
                    RenderVttErrorCreditsPayload { start: cue_start, cause },
                );
                proof {
                    lemma_credit_block_failure_stays(all, i + 1, cue_start, roles@);
                }
                return Err(failure);
            },
            Ok(pairs) => {
                if i > 0 {
                    push_char(output, '\n');
                }
                render_credit_line(output, features, &pairs);
            },
        }
        i = i + 1;
    }
    proof {
        assert(all.take(lines@.len() as int) =~= all);
    }
    Ok(())
}

/// Appends one part of a cue, inside its voice tag when it has a voice
/// name.
fn render_cue_part(
    output: &mut String,
    features: &mut Features,
    cue_start: Timestamp,
    part: &CuePart,
    markers: &LineMarkersDesc,
    roles: &CreditRoles,
    language: &Language,
) -> (result: Result<(), RenderVttError>)
    ensures
        match vtt_part(part@, cue_start, *markers, roles@, *language) {
            Ok((rendered, used)) => result is Ok && final(output)@ == old(output)@ + rendered
                && *final(features) == either(*old(features), used),
            Err(failure) => result matches Err(e) && e@ == failure,
        },
{
    let ghost start = output@;
    let ghost used = *features;
    let marker = part.marker.as_str();
    let voice_name = match markers.voice_entry(marker) {
        Some(by_language) => find_language(by_language, *language),
        None => None,
    };
    match voice_name {
        Some(name) => {
            push_str(output, "<v ");
            push_str(output, name.as_str());
            push_char(output, '>');
        },
        None => {},
    }
    proof {
        reveal_strlit(">");
    }
    let ghost opened = output@;
    if markers.is_credit(marker) {
        match render_credit_block(output, features, cue_start, part.text.as_str(), roles) {
            Err(error) => {
                return Err(error);
            },
            Ok(()) => {},
        }
    } else {
        match markers.class_entry(marker) {
            Some(class_name) => {
                push_str(output, "<c.");
                push_str(output, class_name.as_str());
                push_char(output, '>');
                Escaped(part.text.as_str()).write_to(output);
                push_str(output, "</c>");
            },
            None => {
                Escaped(part.text.as_str()).write_to(output);
            },
        }
        proof {
            assert(*features == either(used, no_features()));
        }
    }
    if voice_name.is_some() {
        push_str(output, "</v>");
    }
    proof {
        match vtt_part(part@, cue_start, *markers, roles@, *language) {
            Ok((rendered, _)) => {
                assert(output@ =~= start + rendered);
            },
            Err(_) => {},
        }
    }
    Ok(())
}

/// Once a prefix of a cue's parts fails, the whole cue fails the same way.
proof fn lemma_parts_failure_stays(
    parts: Seq<PartModel>,
    k: int,
    start: Timestamp,
    markers: LineMarkersDesc,
    roles: Seq<Seq<char>>,
    language: Language,
)
    requires
        0 <= k <= parts.len(),
        vtt_parts(parts.take(k), start, markers, roles, language) is Err,
    ensures
        vtt_parts(parts, start, markers, roles, language) == vtt_parts(
            parts.take(k),
            start,
            markers,
            roles,
            language,
        ),
    decreases parts.len() - k,
{
    if k < parts.len() {
        let t = parts.take(k + 1);
        assert(t.drop_last() =~= parts.take(k));
        lemma_parts_failure_stays(parts, k + 1, start, markers, roles, language);
    } else {
        assert(parts.take(k) =~= parts);
    }
}

/// Appends one cue: its time range, its parts one line each, and a blank
/// line.
fn render_cue(
    output: &mut String,
    features: &mut Features,
    cue: &SubtitleCue,
    markers: &LineMarkersDesc,
    roles: &CreditRoles,
    language: &Language,
) -> (result: Result<(), RenderVttError>)
    ensures
        match vtt_parts(parts_view(cue.parts@), cue.start, *markers, roles@, *language) {
            Ok((content, used)) => result is Ok && final(output)@ == old(output)@ + render_hh_mm_ss(
                cue.start@,
                '.',
            ) + " --> "@ + render_hh_mm_ss(cue.end@, '.') + seq!['\n'] + content + "\n\n"@
                && *final(features) == either(*old(features), used),
            Err(failure) => result matches Err(e) && e@ == failure,
        },
{
    let ghost before = output@;
    let ghost used = *features;
    let start_text = VttTime::from(cue.start).to_string();
    push_str(output, start_text.as_str());
    push_str(output, " --> ");
    let end_text = VttTime::from(cue.end).to_string();
    push_str(output, end_text.as_str());
    push_char(output, '\n');
    let ghost start = output@;
    let ghost all = parts_view(cue.parts@);
    let mut i: usize = 0;
    proof {
        assert(all.take(0) =~= Seq::<PartModel>::empty());
        assert(output@ =~= start + Seq::<char>::empty());
        assert(*features == either(used, no_features()));
    }
    while i < cue.parts.len()
        invariant
            i <= cue.parts@.len(),
            all == parts_view(cue.parts@),
            vtt_parts(all.take(i as int), cue.start, *markers, roles@, *language) matches Ok(
                (done, more),
            ) && output@ == start + done && *features == either(used, more),
        decreases cue.parts@.len() - i,
    {
        let ghost t = all.take(i + 1);
        proof {
            assert(t.drop_last() =~= all.take(i as int));
            assert(t.last() == cue.parts@[i as int]@);
        }
        if i > 0 {
            push_char(output, '\n');
        }
        match render_cue_part(output, features, cue.start, &cue.parts[i], markers, roles, language) {
            Err(error) => {
                proof {
                    lemma_parts_failure_stays(all, i + 1, cue.start, *markers, roles@, *language);
                }
                return Err(error);
            },
            Ok(()) => {},
        }
        i = i + 1;
    }
    proof {
        assert(all.take(cue.parts@.len() as int) =~= all);
    }
    push_str(output, "\n\n");
    Ok(())
}

/// Once a prefix of the cues fails, all of them fail the same way.
proof fn lemma_cues_failure_stays(
    cues: Seq<SubtitleCue>,
    k: int,
    markers: LineMarkersDesc,
    roles: Seq<Seq<char>>,
    language: Language,
)
    requires
        0 <= k <= cues.len(),
        vtt_cues(cues.take(k), markers, roles, language) is Err,
    ensures
        vtt_cues(cues, markers, roles, language) == vtt_cues(cues.take(k), markers, roles, language),
    decreases cues.len() - k,
{
    if k < cues.len() {
        let t = cues.take(k + 1);
        assert(t.drop_last() =~= cues.take(k));
        lemma_cues_failure_stays(cues, k + 1, markers, roles, language);
    } else {
        assert(cues.take(k) =~= cues);
    }
}

/// Renders the cues into their section of the file, and reports the
/// credit classes they use.
fn render_cues(
    cues: &Vec<SubtitleCue>,
    markers: &LineMarkersDesc,
    roles: &CreditRoles,
    language: &Language,
) -> (result: Result<(String, Features), RenderVttError>)
    ensures
        match vtt_cues(cues@, *markers, roles@, *language) {
            Ok((section, used)) => result matches Ok((text, f)) && text@ == section && f == used,
            Err(failure) => result matches Err(e) && e@ == failure,
        },
{
    let mut section = String::new();
    let mut features = Features {
        used_credit_role: false,
        used_credit_name: false,
        used_credit_special: false,
    };
    let mut i: usize = 0;
    proof {
        assert(cues@.take(0) =~= Seq::<SubtitleCue>::empty());
        assert(features == either(no_features(), no_features()));
    }
    while i < cues.len()
        invariant
            i <= cues@.len(),
            vtt_cues(cues@.take(i as int), *markers, roles@, *language) matches Ok((done, used))
                && section@ == done && features == used,
        decreases cues@.len() - i,
    {
        let ghost t = cues@.take(i + 1);
        proof {
            assert(t.drop_last() =~= cues@.take(i as int));
            assert(t.last() == cues@[i as int]);
        }
        match render_cue(&mut section, &mut features, &cues[i], markers, roles, language) {
            Err(error) => {
                proof {
                    lemma_cues_failure_stays(cues@, i + 1, *markers, roles@, *language);
                }
                return Err(error);
            },
            Ok(()) => {},
        }
        i = i + 1;
    }
    proof {
        assert(cues@.take(cues@.len() as int) =~= cues@);
    }
    Ok((section, features))
}

/// Appends the declarations of `style`.
fn write_style_body(output: &mut String, style: &Style)
    ensures
        final(output)@ == old(output)@ + style_body(*style),
{
    let ghost start = output@;
    match &style.color {
        Some(color) => {
            push_str(output, "  color: ");
            push_str(output, color.as_str());
            push_str(output, ";\n");
        },
        None => {},
    }
    if style.italic {
        push_str(output, "  font-style: italic;\n");
    }
    if style.bold {
        push_str(output, "  font-weight: bold;\n");
    }
    proof {
        assert(output@ =~= start + style_body(*style));
    }
}

/// Appends the style rule of a voice name.
fn write_voice_rule(output: &mut String, voice_name: &VoiceName, style: &Style)
    ensures
        final(output)@ == old(output)@ + voice_rule(voice_name@, *style),
{
    let ghost start = output@;
    push_str(output, "::cue(");
    let selector = VoiceSelector(voice_name).to_string();
    push_str(output, selector.as_str());
    push_str(output, ") {\n");
    write_style_body(output, style);
    push_str(output, "}\n");
    proof {
        reveal_strlit("::cue(");
        reveal_strlit("v[voice=\"");
        reveal_strlit("::cue(v[voice=\"");
        reveal_strlit("\"]");
        reveal_strlit(") {\n");
        reveal_strlit("\"]) {\n");
        assert(output@ =~= start + voice_rule(voice_name@, *style));
    }
}

/// Appends the style rule of a class.
fn write_class_rule(output: &mut String, class_name: &str, style: &Style)
    ensures
        final(output)@ == old(output)@ + class_rule(class_name@, *style),
{
    let ghost start = output@;
    push_str(output, "::cue(c.");
    push_str(output, class_name);
    push_str(output, ") {\n");
    write_style_body(output, style);
    push_str(output, "}\n");
    proof {
        assert(output@ =~= start + class_rule(class_name@, *style));
    }
}

/// Appends the style rule of a built-in credit class.
fn write_credit_rule(output: &mut String, class_name: &str, color: &Color)
    ensures
        final(output)@ == old(output)@ + credit_rule(class_name@, *color),
{
    let ghost start = output@;
    push_str(output, "::cue(c.");
    push_str(output, class_name);
    push_str(output, ") {\n");
    push_str(output, "  color: ");
    push_str(output, color.as_str());
    push_str(output, ";\n");
    push_str(output, "}\n");
    proof {
        assert(output@ =~= start + credit_rule(class_name@, *color));
    }
}

/// Once a prefix of the markers fails, the voice rules fail the same way.
proof fn lemma_voice_rules_failure_stays(
    names: Seq<Seq<char>>,
    k: int,
    markers: LineMarkersDesc,
    palette: StylePalette,
    language: Language,
)
    requires
        0 <= k <= names.len(),
        voice_rules(names.take(k), markers, palette, language) is Err,
    ensures
        voice_rules(names, markers, palette, language) == voice_rules(
            names.take(k),
            markers,
            palette,
            language,
        ),
    decreases names.len() - k,
{
    if k < names.len() {
        let t = names.take(k + 1);
        assert(t.drop_last() =~= names.take(k));
        lemma_voice_rules_failure_stays(names, k + 1, markers, palette, language);
    } else {
        assert(names.take(k) =~= names);
    }
}

/// Once a prefix of the markers fails, the class rules fail the same way.
proof fn lemma_class_rules_failure_stays(
    names: Seq<Seq<char>>,
    k: int,
    markers: LineMarkersDesc,
    palette: StylePalette,
)
    requires
        0 <= k <= names.len(),
        class_rules(names.take(k), markers, palette) is Err,
    ensures
        class_rules(names, markers, palette) == class_rules(names.take(k), markers, palette),
    decreases names.len() - k,
{
    if k < names.len() {
        let t = names.take(k + 1);
        assert(t.drop_last() =~= names.take(k));
        lemma_class_rules_failure_stays(names, k + 1, markers, palette);
    } else {
        assert(names.take(k) =~= names);
    }
}

/// Appends the voice rules.
fn write_voice_rules(
    output: &mut String,
    markers: &LineMarkersDesc,
    palette: &StylePalette,
    language: &Language,
) -> (result: Result<(), RenderVttError>)
    ensures
        match voice_rules(marker_texts(markers.markers@), *markers, *palette, *language) {
            Ok(rules) => result is Ok && final(output)@ == old(output)@ + rules,
            Err(gap) => result matches Err(e) && e@ == RenderFailure::Style(gap),
        },
{
    let ghost start = output@;
    let ghost names = marker_texts(markers.markers@);
    let mut i: usize = 0;
    proof {
        assert(names.take(0) =~= Seq::<Seq<char>>::empty());
        assert(output@ =~= start + Seq::<char>::empty());
    }
    while i < markers.markers.len()
        invariant
            i <= markers.markers@.len(),
            names == marker_texts(markers.markers@),
            voice_rules(names.take(i as int), *markers, *palette, *language) matches Ok(done)
                && output@ == start + done,
        decreases markers.markers@.len() - i,
    {
        let ghost t = names.take(i + 1);
        proof {
            assert(t.drop_last() =~= names.take(i as int));
            assert(t.last() == markers.markers@[i as int]@);
        }
        let marker = markers.markers[i].as_str();
        match markers.voice_entry(marker) {
            None => {},
            Some(by_language) => {
                let style = match palette.voice_style(marker) {
                    Ok(style) => style,
                    Err(missing) => {
                        proof {
                            lemma_voice_rules_failure_stays(
                                names,
                                i + 1,
                                *markers,
                                *palette,
                                *language,
                            );
                        }
                        return Err(RenderVttError::Style(missing));
                    },
                };
                match find_language(by_language, *language) {
                    None => {},
                    Some(voice_name) => {
                        write_voice_rule(output, voice_name, style);
                    },
                }
            },
        }
        i = i + 1;
    }
    proof {
        assert(names.take(markers.markers@.len() as int) =~= names);
    }
    Ok(())
}

/// Appends the class rules.
fn write_class_rules(output: &mut String, markers: &LineMarkersDesc, palette: &StylePalette) -> (result:
    Result<(), RenderVttError>)
    ensures
        match class_rules(marker_texts(markers.markers@), *markers, *palette) {
            Ok(rules) => result is Ok && final(output)@ == old(output)@ + rules,
            Err(gap) => result matches Err(e) && e@ == RenderFailure::Style(gap),
        },
{
    let ghost start = output@;
    let ghost names = marker_texts(markers.markers@);
    let mut i: usize = 0;
    proof {
        assert(names.take(0) =~= Seq::<Seq<char>>::empty());
        assert(output@ =~= start + Seq::<char>::empty());
    }
    while i < markers.markers.len()
        invariant
            i <= markers.markers@.len(),
            names == marker_texts(markers.markers@),
            class_rules(names.take(i as int), *markers, *palette) matches Ok(done) && output@
                == start + done,
        decreases markers.markers@.len() - i,
    {
        let ghost t = names.take(i + 1);
        proof {
            assert(t.drop_last() =~= names.take(i as int));
            assert(t.last() == markers.markers@[i as int]@);
        }
        let marker = markers.markers[i].as_str();
        match markers.class_entry(marker) {
            None => {},
            Some(class_name) => {
                let style = match palette.class_style(class_name) {
                    Ok(style) => style,
                    Err(missing) => {
                        proof {
                            lemma_class_rules_failure_stays(names, i + 1, *markers, *palette);
                        }
                        return Err(RenderVttError::Style(missing));
                    },
                };
                write_class_rule(output, class_name.as_str(), style);
            },
        }
        i = i + 1;
    }
    proof {
        assert(names.take(markers.markers@.len() as int) =~= names);
    }
    Ok(())
}

/// Appends the `STYLE` block.
fn write_style_block(
    output: &mut String,
    markers: &LineMarkersDesc,
    palette: &StylePalette,
    features: &Features,
    language: &Language,
) -> (result: Result<(), RenderVttError>)
    ensures
        match vtt_style_block(*markers, *palette, *features, *language) {
            Ok(block) => result is Ok && final(output)@ == old(output)@ + block,
            Err(gap) => result matches Err(e) && e@ == RenderFailure::Style(gap),
        },
{
    let ghost start = output@;
    push_str(
        output,
        "STYLE\n::cue {\n  background-color: transparent;\n  text-shadow: 2px 2px 2px black;\n}\n",
    );
    match write_voice_rules(output, markers, palette, language) {
        Err(error) => {
            return Err(error);
        },
        Ok(()) => {},
    }
    if features.used_credit_role {
        write_credit_rule(output, "creditRole", &palette.credit.role);
    }
    if features.used_credit_name {
        write_credit_rule(output, "creditName", &palette.credit.name);
    }
    if features.used_credit_special {
        write_credit_rule(output, "creditSpecial", &palette.credit.special);
    }
    match write_class_rules(output, markers, palette) {
        Err(error) => {
            return Err(error);
        },
        Ok(()) => {},
    }
    proof {
        match vtt_style_block(*markers, *palette, *features, *language) {
            Ok(block) => {
                assert(output@ =~= start + block);
            },
            Err(_) => {},
        }
    }
    Ok(())
}

/// Renders the cues of one language into a complete WebVTT file: the
/// header with the language code, the style block, and the cues, the file
/// ending in one line break.
pub fn render_vtt(
    cues: &Vec<SubtitleCue>,
    markers: &LineMarkersDesc,
    credits: &CreditsDesc,
    palette: &StylePalette,
    language: &Language,
) -> (result: Result<String, RenderVttError>)
    requires
        markers.wf(),
        credits.wf(),
        palette.wf(),
    ensures
        match vtt_file(cues@, *markers, *credits, *palette, *language) {
            Ok(text) => result matches Ok(s) && s@ == text,
            Err(failure) => result matches Err(e) && e@ == failure,
        },
{
    let roles = CreditRoles::from_descriptor(credits, language);
    let (section, features) = match render_cues(cues, markers, &roles, language) {
        Ok(rendered) => rendered,
        Err(error) => {
            return Err(error);
        },
    };
    let mut output = String::new();
    push_str(&mut output, "WEBVTT\nLanguage: ");
    push_str(&mut output, language.code());
    push_str(&mut output, "\n\n");
    let ghost header = output@;
    proof {
        assert(header =~= "WEBVTT\nLanguage: "@ + language_code(*language) + "\n\n"@);
    }
    match write_style_block(&mut output, markers, palette, &features, language) {
        Err(error) => {
            return Err(error);
        },
        Ok(()) => {},
    }
    let ghost styled = output@;
    push_char(&mut output, '\n');
    push_str(&mut output, section.as_str());
    proof {
        let block = styled.subrange(header.len() as int, styled.len() as int);
        assert(styled =~= header + block);
        assert(output@ =~= "WEBVTT\nLanguage: "@ + language_code(*language) + "\n\n"@ + block
            + seq!['\n'] + section@);
    }
    Ok(finish_output(output))
}

impl RenderVttError {
    /// What the error says.
    pub fn to_string(&self) -> (result: String)
        ensures
            result@ == failure_message(self@),
    {
        match self {
            RenderVttError::Credits(payload) => credit_failure_text(payload.start, &payload.cause),
            RenderVttError::Style(missing) => missing.to_string(),
        }
    }
}


/// The time line of a cue: its start and its end as `HH:MM:SS.mmm`,
/// joined by an arrow.
pub open spec fn vtt_time_line(cue: SubtitleCue) -> Seq<char> {
    render_hh_mm_ss(cue.start@, '.') + " --> "@ + render_hh_mm_ss(cue.end@, '.')
}

/// What every WebVTT file in `language` opens with: the header with the
/// language code, a blank line, and the cue defaults of the style block.
pub open spec fn vtt_header(language: Language) -> Seq<char> {
    "WEBVTT\nLanguage: "@ + language_code(language) + "\n\n"@
        + "STYLE\n::cue {\n  background-color: transparent;\n  text-shadow: 2px 2px 2px black;\n}\n"@
}

/// Where the time line of cue `k` starts in the WebVTT file of `cues`:
/// after the header, the style block and a blank line, and after the
/// blocks of the cues before it.
pub open spec fn vtt_time_line_at(
    cues: Seq<SubtitleCue>,
    markers: LineMarkersDesc,
    credits: CreditsDesc,
    palette: StylePalette,
    language: Language,
    k: int,
) -> int {
    let roles = role_set(credits.credit_roles@, language);
    let used = vtt_cues(cues, markers, roles, language)->Ok_0.1;
    let block = vtt_style_block(markers, palette, used, language)->Ok_0;
    ("WEBVTT\nLanguage: "@ + language_code(language) + "\n\n"@ + block + seq!['\n']).len()
        + vtt_cues(cues.take(k), markers, roles, language)->Ok_0.0.len() as int
}

/// A decimal numeral ends in a digit.
proof fn lemma_numeral_ends_in_digit(v: nat, width: nat)
    ensures
        decimal_padded(v, width).len() >= 1,
        !is_ws(decimal_padded(v, width).last()),
{
    let d = decimal(v);
    let x = (v % 10) as int;
    assert(d.len() >= 1 && d.last() == digit_char(x));
    assert(digit_char(x) as u32 == x + 48);
    if d.len() < width {
        let pad = Seq::new((width - d.len()) as nat, |i: int| '0');
        assert((pad + d).last() == d.last());
    }
}

/// Removing trailing whitespace keeps every character up to one that is
/// not whitespace, and leaves a text that does not end in whitespace.
proof fn lemma_trim_end_keeps(x: Seq<char>, i: int)
    requires
        0 <= i < x.len(),
        !is_ws(x[i]),
    ensures
        i < trim_end(x).len() <= x.len(),
        trim_end(x) == x.take(trim_end(x).len() as int),
        !is_ws(trim_end(x).last()),
{
    lemma_suffix_len(x, ws());
    let n = x.len() - suffix_len(x, ws());
    if i >= n {
        assert(ws()(x[i]));
    }
    assert(!ws()(x[n - 1]));
    assert(trim_end(x).last() == x[n - 1]);
}

/// The text of the first `k` cues opens the text of all of them.
#[verifier::spinoff_prover]
#[verifier::rlimit(50)]
proof fn lemma_vtt_cues_prefix(
    cues: Seq<SubtitleCue>,
    markers: LineMarkersDesc,
    roles: Seq<Seq<char>>,
    language: Language,
    k: int,
)
    requires
        0 <= k <= cues.len(),
        vtt_cues(cues, markers, roles, language) is Ok,
    ensures
        vtt_cues(cues.take(k), markers, roles, language) is Ok,
        ({
            let whole = vtt_cues(cues, markers, roles, language)->Ok_0.0;
            let part = vtt_cues(cues.take(k), markers, roles, language)->Ok_0.0;
            part.len() <= whole.len() && whole.take(part.len() as int) == part
        }),
    decreases cues.len(),
{
    if k < cues.len() {
        let init = cues.drop_last();
        lemma_vtt_cues_prefix(init, markers, roles, language, k);
        assert(init.take(k) =~= cues.take(k));
        let inner = vtt_cues(init, markers, roles, language)->Ok_0.0;
        let whole = vtt_cues(cues, markers, roles, language)->Ok_0.0;
        let part = vtt_cues(cues.take(k), markers, roles, language)->Ok_0.0;
        assert(whole.take(inner.len() as int) =~= inner);
        assert(whole.take(part.len() as int) =~= inner.take(part.len() as int));
    } else {
        assert(cues.take(k) =~= cues);
    }
}

/// The block of cue `k`: its time line on a line of its own right after
/// the blocks before it, the block ending in a line break.
#[verifier::spinoff_prover]
#[verifier::rlimit(50)]
proof fn lemma_vtt_cues_step(
    cues: Seq<SubtitleCue>,
    markers: LineMarkersDesc,
    roles: Seq<Seq<char>>,
    language: Language,
    k: int,
)
    requires
        0 <= k < cues.len(),
        vtt_cues(cues.take(k + 1), markers, roles, language) is Ok,
    ensures
        vtt_cues(cues.take(k), markers, roles, language) is Ok,
        ({
            let before = vtt_cues(cues.take(k), markers, roles, language)->Ok_0.0;
            let after = vtt_cues(cues.take(k + 1), markers, roles, language)->Ok_0.0;
            let line = vtt_time_line(cues[k]);
            &&& before.len() + line.len() + 1 < after.len()
            &&& after.subrange(before.len() as int, (before.len() + line.len()) as int) == line
            &&& after[(before.len() + line.len()) as int] == '\n'
            &&& after.last() == '\n'
        }),
{
    let t = cues.take(k + 1);
    assert(t.drop_last() =~= cues.take(k));
    assert(t.last() == cues[k]);
    let cue = cues[k];
    let before = vtt_cues(cues.take(k), markers, roles, language)->Ok_0.0;
    let after = vtt_cues(t, markers, roles, language)->Ok_0.0;
    let content = vtt_parts(parts_view(cue.parts@), cue.start, markers, roles, language)->Ok_0.0;
    let line = vtt_time_line(cue);
    reveal_strlit("\n\n");
    assert(after =~= before + line + seq!['\n'] + content + "\n\n"@);
    assert(after.subrange(before.len() as int, (before.len() + line.len()) as int) =~= line);
}

/// The shape of every WebVTT file the renderer writes: it opens with the
/// header and the style block's cue defaults, it ends in exactly one
/// line break, and each cue's time line stands on a line of its own, in
/// the order of the cues.
pub proof fn lemma_vtt_shape(
    cues: Seq<SubtitleCue>,
    markers: LineMarkersDesc,
    credits: CreditsDesc,
    palette: StylePalette,
    language: Language,
)
    ensures
        vtt_file(cues, markers, credits, palette, language) matches Ok(s) ==> {
            let header = vtt_header(language);
            &&& header.len() <= s.len()
            &&& s.take(header.len() as int) == header
            &&& s.last() == '\n'
            &&& !is_ws(s[s.len() - 2])
            &&& forall|k: int|
                0 <= k < cues.len() ==> {
                    let at = #[trigger] vtt_time_line_at(cues, markers, credits, palette, language, k);
                    let line = vtt_time_line(cues[k]);
                    &&& 1 <= at
                    &&& at + line.len() < s.len()
                    &&& s[at - 1] == '\n'
                    &&& s.subrange(at, at + line.len()) == line
                    &&& s[at + line.len()] == '\n'
                }
            &&& forall|k: int|
                0 <= k && k + 1 < cues.len() ==> #[trigger] vtt_time_line_at(
                    cues,
                    markers,
                    credits,
                    palette,
                    language,
                    k,
                ) + vtt_time_line(cues[k]).len() < vtt_time_line_at(
                    cues,
                    markers,
                    credits,
                    palette,
                    language,
                    k + 1,
                )
        },
{
    if vtt_file(cues, markers, credits, palette, language) is Ok {
        lemma_vtt_shape_ok(cues, markers, credits, palette, language);
    }
}

/// Removing trailing whitespace and ending in one line break keeps an
/// opening that ends in a line break after a character that is not
/// whitespace, and the result ends in exactly one line break.
#[verifier::spinoff_prover]
#[verifier::rlimit(50)]
proof fn lemma_trimmed_opening(x: Seq<char>, opening: Seq<char>)
    requires
        opening.len() >= 2,
        opening.len() <= x.len(),
        x.take(opening.len() as int) == opening,
        opening.last() == '\n',
        !is_ws(opening[opening.len() - 2]),
    ensures
        ({
            let s = trim_end(x) + seq!['\n'];
            &&& opening.len() <= s.len()
            &&& s.take(opening.len() as int) == opening
            &&& s.last() == '\n'
            &&& !is_ws(s[s.len() - 2])
        }),
{
    let h = opening.len() as int;
    assert(x[h - 2] == opening[h - 2]);
    lemma_trim_end_keeps(x, h - 2);
    let s = trim_end(x) + seq!['\n'];
    assert forall|j: int| 0 <= j < h implies s.take(h)[j] == opening[j] by {
        if j < trim_end(x).len() {
            assert(s[j] == x[j]);
            assert(x.take(h)[j] == x[j]);
        }
    }
    assert(s.take(h) =~= opening);
    assert(s[s.len() - 2] == trim_end(x).last());
}

/// Removing trailing whitespace and ending in one line break keeps a line
/// of `x` that ends in a character that is not whitespace.
#[verifier::spinoff_prover]
#[verifier::rlimit(50)]
proof fn lemma_trimmed_line(x: Seq<char>, at: int, line: Seq<char>)
    requires
        1 <= at,
        line.len() >= 1,
        at + line.len() < x.len(),
        x[at - 1] == '\n',
        x.subrange(at, at + line.len()) == line,
        x[at + line.len()] == '\n',
        !is_ws(line.last()),
    ensures
        ({
            let s = trim_end(x) + seq!['\n'];
            &&& at + line.len() < s.len()
            &&& s[at - 1] == '\n'
            &&& s.subrange(at, at + line.len()) == line
            &&& s[at + line.len()] == '\n'
        }),
{
    let end = at + line.len();
    assert(x[end - 1] == line.last());
    lemma_trim_end_keeps(x, end - 1);
    let s = trim_end(x) + seq!['\n'];
    assert forall|j: int| 0 <= j < line.len() implies s.subrange(at, end)[j] == line[j] by {
        assert(s[at + j] == x[at + j]);
        assert(x.subrange(at, end)[j] == x[at + j]);
    }
    assert(s.subrange(at, end) =~= line);
    assert(s[at - 1] == x[at - 1]);
}

/// The text the WebVTT file of `cues` is trimmed from: the header, the
/// style block, a blank line and the cues.
spec fn vtt_untrimmed(
    cues: Seq<SubtitleCue>,
    markers: LineMarkersDesc,
    credits: CreditsDesc,
    palette: StylePalette,
    language: Language,
) -> Seq<char> {
    let roles = role_set(credits.credit_roles@, language);
    let (section, used) = vtt_cues(cues, markers, roles, language)->Ok_0;
    let block = vtt_style_block(markers, palette, used, language)->Ok_0;
    "WEBVTT\nLanguage: "@ + language_code(language) + "\n\n"@ + block + seq!['\n'] + section
}

/// Where the block of cue `k` starts in the text of the cues.
spec fn block_start(
    cues: Seq<SubtitleCue>,
    markers: LineMarkersDesc,
    roles: Seq<Seq<char>>,
    language: Language,
    k: int,
) -> int {
    vtt_cues(cues.take(k), markers, roles, language)->Ok_0.0.len() as int
}

/// In the text of the cues, the time line of cue `k` opens its block, on
/// a line of its own, and comes before the block of the next cue.
#[verifier::spinoff_prover]
#[verifier::rlimit(50)]
proof fn lemma_section_line(
    cues: Seq<SubtitleCue>,
    markers: LineMarkersDesc,
    roles: Seq<Seq<char>>,
    language: Language,
    k: int,
)
    requires
        vtt_cues(cues, markers, roles, language) is Ok,
        0 <= k < cues.len(),
    ensures
        ({
            let section = vtt_cues(cues, markers, roles, language)->Ok_0.0;
            let b = block_start(cues, markers, roles, language, k);
            let line = vtt_time_line(cues[k]);
            &&& 0 <= b
            &&& b + line.len() < section.len()
            &&& k > 0 ==> section[b - 1] == '\n'
            &&& section.subrange(b, b + line.len()) == line
            &&& section[b + line.len()] == '\n'
            &&& k + 1 < cues.len() ==> b + line.len() < block_start(
                cues,
                markers,
                roles,
                language,
                k + 1,
            )
        }),
{
    let section = vtt_cues(cues, markers, roles, language)->Ok_0.0;
    let line = vtt_time_line(cues[k]);
    lemma_vtt_cues_prefix(cues, markers, roles, language, k + 1);
    lemma_vtt_cues_step(cues, markers, roles, language, k);
    let before = vtt_cues(cues.take(k), markers, roles, language)->Ok_0.0;
    let after = vtt_cues(cues.take(k + 1), markers, roles, language)->Ok_0.0;
    let b = before.len() as int;
    assert forall|j: int| 0 <= j < after.len() implies section[j] == #[trigger] after[j] by {
        assert(section.take(after.len() as int)[j] == section[j]);
    }
    assert forall|j: int| 0 <= j < line.len() implies section.subrange(b, b + line.len())[j]
        == line[j] by {
        assert(after.subrange(b, b + line.len())[j] == after[b + j]);
    }
    assert(section.subrange(b, b + line.len()) =~= line);
    if k > 0 {
        lemma_vtt_cues_step(cues, markers, roles, language, k - 1);
        assert(cues.take(k - 1 + 1) =~= cues.take(k));
        lemma_vtt_cues_prefix(cues.take(k + 1), markers, roles, language, k);
        assert(cues.take(k + 1).take(k) =~= cues.take(k));
        assert(after.take(b)[b - 1] == after[b - 1]);
    }
}

/// The time line of cue `k` stands on a line of its own in the text the
/// file is trimmed from.
#[verifier::spinoff_prover]
#[verifier::rlimit(50)]
proof fn lemma_untrimmed_line(
    cues: Seq<SubtitleCue>,
    markers: LineMarkersDesc,
    credits: CreditsDesc,
    palette: StylePalette,
    language: Language,
    k: int,
)
    requires
        vtt_file(cues, markers, credits, palette, language) is Ok,
        0 <= k < cues.len(),
    ensures
        ({
            let x = vtt_untrimmed(cues, markers, credits, palette, language);
            let at = vtt_time_line_at(cues, markers, credits, palette, language, k);
            let line = vtt_time_line(cues[k]);
            &&& 1 <= at
            &&& line.len() >= 1
            &&& at + line.len() < x.len()
            &&& x[at - 1] == '\n'
            &&& x.subrange(at, at + line.len()) == line
            &&& x[at + line.len()] == '\n'
            &&& !is_ws(line.last())
        }),
        k + 1 < cues.len() ==> vtt_time_line_at(cues, markers, credits, palette, language, k)
            + vtt_time_line(cues[k]).len() < vtt_time_line_at(
            cues,
            markers,
            credits,
            palette,
            language,
            k + 1,
        ),
{
    let roles = role_set(credits.credit_roles@, language);
    let (section, used) = vtt_cues(cues, markers, roles, language)->Ok_0;
    let block = vtt_style_block(markers, palette, used, language)->Ok_0;
    let lead = "WEBVTT\nLanguage: "@ + language_code(language) + "\n\n"@ + block + seq!['\n'];
    let x = vtt_untrimmed(cues, markers, credits, palette, language);
    assert(x =~= lead + section);
    let p = lead.len() as int;
    let line = vtt_time_line(cues[k]);
    lemma_section_line(cues, markers, roles, language, k);
    let b = block_start(cues, markers, roles, language, k);
    let at = p + b;
    assert(at == vtt_time_line_at(cues, markers, credits, palette, language, k));
    assert forall|j: int| 0 <= j < line.len() implies x.subrange(at, at + line.len())[j]
        == line[j] by {
        assert(x[at + j] == section[b + j]);
        assert(section.subrange(b, b + line.len())[j] == section[b + j]);
    }
    assert(x.subrange(at, at + line.len()) =~= line);
    assert(x[at + line.len()] == section[b + line.len()]);
    if k > 0 {
        assert(x[at - 1] == section[b - 1]);
    } else {
        assert(x[at - 1] == lead[p - 1]);
    }
    lemma_numeral_ends_in_digit((cues[k].end@ % 1_000) as nat, 3);
    assert(line.last() == decimal_padded((cues[k].end@ % 1_000) as nat, 3).last());
}

#[verifier::spinoff_prover]
#[verifier::rlimit(50)]
proof fn lemma_vtt_shape_ok(
    cues: Seq<SubtitleCue>,
    markers: LineMarkersDesc,
    credits: CreditsDesc,
    palette: StylePalette,
    language: Language,
)
    requires
        vtt_file(cues, markers, credits, palette, language) is Ok,
    ensures
        ({
            let s = vtt_file(cues, markers, credits, palette, language)->Ok_0;
            let header = vtt_header(language);
            &&& header.len() <= s.len()
            &&& s.take(header.len() as int) == header
            &&& s.last() == '\n'
            &&& !is_ws(s[s.len() - 2])
            &&& forall|k: int|
                0 <= k < cues.len() ==> {
                    let at = #[trigger] vtt_time_line_at(cues, markers, credits, palette, language, k);
                    let line = vtt_time_line(cues[k]);
                    &&& 1 <= at
                    &&& at + line.len() < s.len()
                    &&& s[at - 1] == '\n'
                    &&& s.subrange(at, at + line.len()) == line
                    &&& s[at + line.len()] == '\n'
                }
            &&& forall|k: int|
                0 <= k && k + 1 < cues.len() ==> #[trigger] vtt_time_line_at(
                    cues,
                    markers,
                    credits,
                    palette,
                    language,
                    k,
                ) + vtt_time_line(cues[k]).len() < vtt_time_line_at(
                    cues,
                    markers,
                    credits,
                    palette,
                    language,
                    k + 1,
                )
        }),
{
    let roles = role_set(credits.credit_roles@, language);
    let (section, used) = vtt_cues(cues, markers, roles, language)->Ok_0;
    let block = vtt_style_block(markers, palette, used, language)->Ok_0;
    let defaults = "STYLE\n::cue {\n  background-color: transparent;\n  text-shadow: 2px 2px 2px black;\n}\n"@;
    let opening = "WEBVTT\nLanguage: "@ + language_code(language) + "\n\n"@;
    let x = vtt_untrimmed(cues, markers, credits, palette, language);
    let s = vtt_file(cues, markers, credits, palette, language)->Ok_0;
    let header = vtt_header(language);
    reveal_strlit("STYLE\n::cue {\n  background-color: transparent;\n  text-shadow: 2px 2px 2px black;\n}\n");
    assert(s == trim_end(x) + seq!['\n']);
    let rest = block.skip(defaults.len() as int);
    assert(block =~= defaults + rest);
    assert(header =~= opening + defaults);
    assert(x =~= header + (rest + seq!['\n'] + section));
    assert(x.take(header.len() as int) =~= header);
    lemma_trimmed_opening(x, header);
    assert forall|k: int| 0 <= k < cues.len() implies {
        let at = #[trigger] vtt_time_line_at(cues, markers, credits, palette, language, k);
        let line = vtt_time_line(cues[k]);
        &&& 1 <= at
        &&& at + line.len() < s.len()
        &&& s[at - 1] == '\n'
        &&& s.subrange(at, at + line.len()) == line
        &&& s[at + line.len()] == '\n'
    } by {
        lemma_untrimmed_line(cues, markers, credits, palette, language, k);
        lemma_trimmed_line(
            x,
            vtt_time_line_at(cues, markers, credits, palette, language, k),
            vtt_time_line(cues[k]),
        );
    }
    assert forall|k: int| 0 <= k && k + 1 < cues.len() implies #[trigger] vtt_time_line_at(
        cues,
        markers,
        credits,
        palette,
        language,
        k,
    ) + vtt_time_line(cues[k]).len() < vtt_time_line_at(
        cues,
        markers,
        credits,
        palette,
        language,
        k + 1,
    ) by {
        lemma_untrimmed_line(cues, markers, credits, palette, language, k);
    }
}



/// Whether `marker` is declared a voice that the palette does not style.
pub open spec fn voice_gap(marker: Seq<char>, markers: LineMarkersDesc, palette: StylePalette) -> bool {
    lookup(markers.voices@, marker) is Some && lookup(palette.voices@, marker) is None
}

/// The voice rules fail exactly when some listed marker is a voice gap,
/// and then with the first one.
#[verifier::spinoff_prover]
#[verifier::rlimit(50)]
proof fn lemma_voice_rules_first_gap(
    names: Seq<Seq<char>>,
    markers: LineMarkersDesc,
    palette: StylePalette,
    language: Language,
)
    ensures
        (voice_rules(names, markers, palette, language) is Ok) <==> forall|j: int|
            0 <= j < names.len() ==> !voice_gap(#[trigger] names[j], markers, palette),
        forall|i: int|
            0 <= i < names.len() && voice_gap(#[trigger] names[i], markers, palette) && (forall|j: int|
                0 <= j < i ==> !voice_gap(names[j], markers, palette)) ==> voice_rules(
                names,
                markers,
                palette,
                language,
            ) == Err::<Seq<char>, StyleGap>(StyleGap::Voice(names[i])),
    decreases names.len(),
{
    if names.len() > 0 {
        let init = names.drop_last();
        let last = names.len() - 1;
        lemma_voice_rules_first_gap(init, markers, palette, language);
        assert forall|j: int| 0 <= j < init.len() implies #[trigger] init[j] == names[j] by {}
        if voice_rules(names, markers, palette, language) is Ok {
            assert forall|j: int| 0 <= j < names.len() implies !voice_gap(
                #[trigger] names[j],
                markers,
                palette,
            ) by {
                if j < last {
                    assert(init[j] == names[j]);
                }
            }
        } else if voice_rules(init, markers, palette, language) is Ok {
            assert forall|j: int| 0 <= j < init.len() implies !voice_gap(
                #[trigger] names[j],
                markers,
                palette,
            ) by {
                assert(init[j] == names[j]);
                assert(!voice_gap(init[j], markers, palette));
            }
        } else {
            let j = choose|j: int| 0 <= j < init.len() && voice_gap(#[trigger] init[j], markers, palette);
            assert(init[j] == names[j]);
        }
        assert forall|i: int|
            0 <= i < names.len() && voice_gap(#[trigger] names[i], markers, palette) && (forall|j: int|
                0 <= j < i ==> !voice_gap(names[j], markers, palette)) implies voice_rules(
            names,
            markers,
            palette,
            language,
        ) == Err::<Seq<char>, StyleGap>(StyleGap::Voice(names[i])) by {
            if i < last {
                assert(init[i] == names[i]);
                assert(voice_gap(init[i], markers, palette));
                assert forall|j: int| 0 <= j < i implies !voice_gap(#[trigger] init[j], markers, palette) by {
                    assert(init[j] == names[j]);
                }
            } else {
                assert forall|j: int| 0 <= j < init.len() implies !voice_gap(
                    #[trigger] init[j],
                    markers,
                    palette,
                ) by {
                    assert(init[j] == names[j]);
                }
            }
        }
    }
}

/// The style block fails on a missing voice style before anything else:
/// when some marker of the `markers` list is declared a voice that the
/// palette does not style, the block fails with the first such marker,
/// whether or not the voice has a name in `language` and whatever class
/// styles are missing.
pub proof fn lemma_style_block_voice_first(
    markers: LineMarkersDesc,
    palette: StylePalette,
    used: Features,
    language: Language,
    i: int,
)
    requires
        0 <= i < markers.markers@.len(),
        voice_gap(markers.markers@[i]@, markers, palette),
        forall|j: int| 0 <= j < i ==> !voice_gap(#[trigger] markers.markers@[j]@, markers, palette),
    ensures
        vtt_style_block(markers, palette, used, language) == Err::<Seq<char>, StyleGap>(
            StyleGap::Voice(markers.markers@[i]@),
        ),
{
    let names = marker_texts(markers.markers@);
    lemma_voice_rules_first_gap(names, markers, palette, language);
    assert(names[i] == markers.markers@[i]@);
    assert forall|j: int| 0 <= j < i implies !voice_gap(names[j], markers, palette) by {
        assert(names[j] == markers.markers@[j]@);
    }
}

} // verus!
