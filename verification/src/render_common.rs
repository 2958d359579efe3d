//! What the SubRip and WebVTT renderers share: how a credit cell's
//! separator is laid out, how a credit block's lines are read, how a
//! finished file ends, and the failures a render can meet.

use crate::credits_model::{parse_credit_model, LeadModel};
use crate::credits_parse::{
    parse_credit_line, CreditPair, CreditRoles, ParseCreditError,
};
use crate::escape::separator_output;
use crate::credits_parse::unknown_role_message;
use crate::styles::{style_gap_message, MissingStyle, StyleGap};
use crate::timestamp::render_mm_ss_mmm;
use crate::text::{
    back_over_whitespace, chars_of, has_char, push_char, saturate, skip_whitespace, string_of,
    trim_end, trim_start, ws,
};
use crate::timestamp::Timestamp;
use vstd::prelude::*;
use vstd::utf8::encode_utf8;

verus! {

/// Why a render fails: a credit line holds text no role opens (the start
/// of its cue, the line, and the byte offset of the text), or a marker
/// has no style in the palette.
pub enum RenderFailure {
    Credits(Timestamp, Seq<char>, usize),
    Style(StyleGap),
}

/// The failure for the credit line `line` of the cue starting at `start`,
/// whose unrecognized text begins at character `pos`.
pub open spec fn credit_failure(start: Timestamp, line: Seq<char>, pos: nat) -> RenderFailure {
    RenderFailure::Credits(start, line, saturate(encode_utf8(line.take(pos as int)).len() as int))
}

/// The text of a cell's lead.
pub open spec fn lead_text(lead: LeadModel) -> Seq<char> {
    match lead {
        LeadModel::Role(role) => role,
        LeadModel::Special(span) => span,
    }
}

/// The colon that goes inside the lead's span for the separator `sep`: an
/// ASCII colon when `sep` holds one and no full-width colon.
pub open spec fn lead_suffix(sep: Seq<char>) -> Seq<char> {
    if !has_char(sep, '：') && has_char(sep, ':') {
        seq![':']
    } else {
        Seq::empty()
    }
}

/// What goes between the lead span and the name span for the separator
/// `sep`: a full-width colon, one space after an ASCII colon, or the
/// colon-free separator.
pub open spec fn between_of(sep: Seq<char>) -> Seq<char> {
    if has_char(sep, '：') {
        seq!['：']
    } else if has_char(sep, ':') {
        seq![' ']
    } else {
        separator_output(sep)
    }
}

/// Appends the colon that goes inside the lead's span of `pair`.
pub fn push_lead_suffix(output: &mut String, pair: &CreditPair)
    ensures
        final(output)@ == old(output)@ + lead_suffix(pair.separator@),
{
    let style = pair.separator_style();
    let suffix = style.lead_span_suffix();
    crate::text::push_str(output, suffix);
}

/// Appends what goes between the lead span and the name span of `pair`.
pub fn push_between(output: &mut String, pair: &CreditPair)
    ensures
        final(output)@ == old(output)@ + between_of(pair.separator@),
{
    let style = pair.separator_style();
    style.append_between_spans(output);
}

/// Parses one line of a credit block, after its leading whitespace.
pub fn parse_block_line(line: &Vec<char>, roles: &CreditRoles) -> (result: (
    String,
    Result<Vec<CreditPair>, ParseCreditError>,
))
    ensures
        result.0@ == trim_start(line@),
        match parse_credit_model(roles@, trim_start(line@)) {
            Ok(pairs) => result.1 matches Ok(v) && crate::credits_parse::pairs_view(v@) == pairs,
            Err(pos) => result.1 matches Err(ParseCreditError::UnknownRole(e)) && e.line@
                == trim_start(line@) && e.offset == saturate(
                encode_utf8(trim_start(line@).take(pos as int)).len() as int,
            ),
        },
{
    let start = skip_whitespace(line, 0);
    proof {
        assert(line@.skip(0) =~= line@);
        assert(line@.subrange(start as int, line@.len() as int) =~= trim_start(line@));
    }
    let text = string_of(line, start, line.len());
    let parsed = parse_credit_line(text.as_str(), roles);
    (text, parsed)
}

/// `output` as a finished file: without trailing whitespace, ending in one
/// line break.
pub fn finish_output(output: String) -> (result: String)
    ensures
        result@ == trim_end(output@) + seq!['\n'],
{
    let chars = chars_of(output.as_str());
    let end = back_over_whitespace(&chars, 0, chars.len());
    proof {
        assert(chars@.subrange(0, chars@.len() as int) =~= chars@);
        assert(chars@.subrange(0, end as int) =~= trim_end(output@));
    }
    let mut result = string_of(&chars, 0, end);
    push_char(&mut result, '\n');
    result
}

/// What a render failure says.
pub open spec fn failure_message(failure: RenderFailure) -> Seq<char> {
    match failure {
        RenderFailure::Credits(start, line, offset) => "cue at "@ + render_mm_ss_mmm(start@)
            + " failed to render as a credit line: "@ + unknown_role_message(line, offset),
        RenderFailure::Style(gap) => style_gap_message(gap),
    }
}

/// What a credit-line failure of the cue starting at `start` says.
pub fn credit_failure_text(start: Timestamp, cause: &ParseCreditError) -> (result: String)
    ensures
        match cause {
            ParseCreditError::UnknownRole(e) => result@ == failure_message(
                RenderFailure::Credits(start, e.line@, e.offset),
            ),
        },
{
    let mut output = String::new();
    crate::text::push_str(&mut output, "cue at ");
    let start_text = start.to_string();
    crate::text::push_str(&mut output, start_text.as_str());
    crate::text::push_str(&mut output, " failed to render as a credit line: ");
    let cause_text = cause.to_string();
    crate::text::push_str(&mut output, cause_text.as_str());
    output
}

} // verus!
