//! Credit blocks keep their lines: each line of a credit part renders on a
//! line of its own, in order, in SubRip and in WebVTT alike.

use crate::credits_model::{
    lead_at, lemma_lead_len, lemma_until_role_bound, name_segments, parse_cells,
    parse_credit_model, segment_text, separator, take_role, role_misses, role_matches,
    first_bracket_from, until_role, LeadModel, PairModel, SegmentModel,
};
use crate::escape::{escape_char, escape_html, separator_output};
use crate::parse_model::lines_of;
use crate::render_common::{between_of, lead_suffix, lead_text};
use crate::render_srt::{font, srt_credit_block, srt_credit_line, srt_pair, srt_segments};
use crate::render_vtt::{vtt_credit_block, vtt_credit_line, vtt_pair, vtt_segments};
use crate::styles::{allowed_color_char, color_error, CreditPalette};
use crate::text::{
    find_char, lemma_prefix_len, lemma_single_line_concat, lemma_single_line_subrange, not_char,
    prefix_len, single_line, suffix_len, trim_start, ws,
};
use crate::timestamp::Timestamp;
use vstd::prelude::*;

verus! {

/// `lines` joined by line breaks: each on a line of its own.
pub open spec fn joined_lines(lines: Seq<Seq<char>>) -> Seq<char>
    decreases lines.len(),
{
    if lines.len() == 0 {
        Seq::empty()
    } else if lines.len() == 1 {
        lines[0]
    } else {
        joined_lines(lines.drop_last()) + seq!['\n'] + lines.last()
    }
}

/// How many line breaks `s` holds.
pub open spec fn line_breaks(s: Seq<char>) -> nat
    decreases s.len(),
{
    if s.len() == 0 {
        0
    } else {
        line_breaks(s.drop_last()) + if s.last() == '\n' {
            1nat
        } else {
            0nat
        }
    }
}

/// Line breaks add up over a concatenation.
proof fn lemma_line_breaks_concat(a: Seq<char>, b: Seq<char>)
    ensures
        line_breaks(a + b) == line_breaks(a) + line_breaks(b),
    decreases b.len(),
{
    if b.len() == 0 {
        assert(a + b =~= a);
    } else {
        lemma_line_breaks_concat(a, b.drop_last());
        assert((a + b).drop_last() =~= a + b.drop_last());
    }
}

/// A text without a line break counts none.
proof fn lemma_line_breaks_single(s: Seq<char>)
    requires
        single_line(s),
    ensures
        line_breaks(s) == 0,
    decreases s.len(),
{
    if s.len() > 0 {
        assert forall|i: int| 0 <= i < s.drop_last().len() implies s.drop_last()[i] != '\n' by {
            assert(s.drop_last()[i] == s[i]);
        }
        lemma_line_breaks_single(s.drop_last());
    }
}

/// Lines without line breaks, joined, hold one break fewer than lines.
proof fn lemma_joined_breaks(lines: Seq<Seq<char>>)
    requires
        lines.len() > 0,
        forall|i: int| 0 <= i < lines.len() ==> single_line(#[trigger] lines[i]),
    ensures
        line_breaks(joined_lines(lines)) == lines.len() - 1,
    decreases lines.len(),
{
    lemma_line_breaks_single(lines.last());
    if lines.len() == 1 {
        lemma_line_breaks_single(lines[0]);
    } else {
        let init = lines.drop_last();
        assert forall|i: int| 0 <= i < init.len() implies single_line(#[trigger] init[i]) by {
            assert(init[i] == lines[i]);
        }
        lemma_joined_breaks(init);
        lemma_line_breaks_concat(joined_lines(init), seq!['\n']);
        lemma_line_breaks_concat(joined_lines(init) + seq!['\n'], lines.last());
        assert(seq!['\n'].drop_last() =~= Seq::<char>::empty());
        assert(line_breaks(Seq::<char>::empty()) == 0);
        assert(line_breaks(seq!['\n']) == 1);
    }
}

/// The lines of a text hold no line break.
pub proof fn lemma_lines_single(s: Seq<char>)
    ensures
        forall|i: int| 0 <= i < lines_of(s).len() ==> single_line(#[trigger] lines_of(s)[i]),
    decreases s.len(),
{
    if s.len() > 0 {
        let k = find_char(s, '\n');
        lemma_prefix_len(s, not_char('\n'));
        if k < s.len() {
            lemma_lines_single(s.skip(k + 1 as int));
            let first = s.take(k as int);
            assert forall|j: int| 0 <= j < first.len() implies first[j] != '\n' by {
                assert(not_char('\n')(s[j]));
            }
            let head = crate::parse_model::strip_cr(first);
            assert(single_line(head)) by {
                if first.len() > 0 && first.last() == '\r' {
                    lemma_single_line_subrange(first, 0, first.len() - 1);
                    assert(first.drop_last() =~= first.subrange(0, first.len() - 1));
                }
            }
            assert forall|i: int| 0 <= i < lines_of(s).len() implies single_line(#[trigger] lines_of(s)[i]) by {
                if i > 0 {
                    assert(lines_of(s)[i] == lines_of(s.skip(k + 1 as int))[i - 1]);
                }
            }
        } else {
            assert forall|j: int| 0 <= j < s.len() implies s[j] != '\n' by {
                assert(not_char('\n')(s[j]));
            }
        }
    }
}

/// Escaping adds no line break.
proof fn lemma_escape_single(s: Seq<char>)
    requires
        single_line(s),
    ensures
        single_line(escape_html(s)),
    decreases s.len(),
{
    if s.len() > 0 {
        lemma_single_line_subrange(s, 0, s.len() - 1);
        assert(s.drop_last() =~= s.subrange(0, s.len() - 1));
        lemma_escape_single(s.drop_last());
        let c = s.last();
        assert(single_line(escape_char(c)));
        lemma_single_line_concat(escape_html(s.drop_last()), escape_char(c));
    }
}

/// The segments of a name region without line breaks hold none.
proof fn lemma_segments_single(region: Seq<char>)
    requires
        single_line(region),
    ensures
        forall|i: int|
            0 <= i < name_segments(region).len() ==> single_line(
                segment_text(#[trigger] name_segments(region)[i]),
            ),
    decreases region.len(),
{
    match first_bracket_from(region, 0) {
        Some((p, len)) => if p + len <= region.len() && len > 0 {
            let rest = region.skip((p + len) as int);
            lemma_single_line_subrange(region, (p + len) as int, region.len() as int);
            assert(rest =~= region.subrange((p + len) as int, region.len() as int));
            lemma_segments_single(rest);
            lemma_single_line_subrange(region, 0, p as int);
            assert(region.take(p as int) =~= region.subrange(0, p as int));
            lemma_single_line_subrange(region, p as int, (p + len) as int);
            let before: Seq<SegmentModel> = if p > 0 {
                seq![SegmentModel::Unbracketed(region.take(p as int))]
            } else {
                Seq::empty()
            };
            let span = seq![SegmentModel::Bracketed(region.subrange(p as int, (p + len) as int))];
            let segments = name_segments(region);
            assert(segments == before + span + name_segments(rest));
            assert forall|i: int| 0 <= i < segments.len() implies single_line(
                segment_text(#[trigger] segments[i]),
            ) by {
                if i >= before.len() + 1 {
                    assert(segments[i] == name_segments(rest)[i - before.len() - 1]);
                }
            }
        },
        None => {},
    }
}

/// Whether every text of a credit cell holds no line break.
pub open spec fn pair_single_line(pair: PairModel) -> bool {
    &&& single_line(lead_text(pair.lead))
    &&& single_line(pair.separator)
    &&& forall|i: int|
        0 <= i < pair.name_segments.len() ==> single_line(
            segment_text(#[trigger] pair.name_segments[i]),
        )
}

/// The cells read from a line without line breaks hold none.
proof fn lemma_cells_single(roles: Seq<Seq<char>>, line: Seq<char>, pos: nat)
    requires
        single_line(line),
    ensures
        parse_cells(roles, line, pos) matches Ok(pairs) ==> forall|i: int|
            0 <= i < pairs.len() ==> pair_single_line(#[trigger] pairs[i]),
    decreases line.len() - pos,
{
    if pos < line.len() {
        let s = line.skip(pos as int);
        lemma_single_line_subrange(line, pos as int, line.len() as int);
        assert(s =~= line.subrange(pos as int, line.len() as int));
        if let Some((lead, lead_len)) = lead_at(roles, s) {
            lemma_lead_len(roles, s);
            let after_lead = pos + lead_len;
            let sep_end = after_lead + prefix_len(line.skip(after_lead as int), separator());
            let region = line.skip(sep_end as int);
            lemma_prefix_len(line.skip(after_lead as int), separator());
            lemma_until_role_bound(roles, region, 0);
            let name_end = sep_end + until_role(roles, region, 0);
            lemma_prefix_len(line.skip(name_end as int), separator());
            let next = name_end + prefix_len(line.skip(name_end as int), separator());
            let raw_name = line.subrange(sep_end as int, name_end as int);
            let trimmed = raw_name.take(raw_name.len() - suffix_len(raw_name, separator()));
            crate::text::lemma_suffix_len(raw_name, separator());
            lemma_cells_single(roles, line, next);
            // The lead is the text at the start of the cell.
            match take_role(roles, s) {
                Some(role) => {
                    let k = prefix_len(roles, role_misses(s));
                    lemma_prefix_len(roles, role_misses(s));
                    assert(!role_misses(s)(roles[k as int]));
                    assert(role_matches(role, s));
                    lemma_single_line_subrange(s, 0, role.len() as int);
                    assert(s.take(role.len() as int) =~= s.subrange(0, role.len() as int));
                },
                None => {
                    lemma_single_line_subrange(s, 0, lead_len as int);
                    assert(s.take(lead_len as int) =~= s.subrange(0, lead_len as int));
                },
            }
            lemma_single_line_subrange(line, after_lead as int, sep_end as int);
            lemma_single_line_subrange(line, sep_end as int, name_end as int);
            lemma_single_line_subrange(raw_name, 0, trimmed.len() as int);
            assert(trimmed =~= raw_name.subrange(0, trimmed.len() as int));
            lemma_segments_single(trimmed);
            if let Ok(pairs) = parse_cells(roles, line, pos) {
                let rest = parse_cells(roles, line, next)->Ok_0;
                assert forall|i: int| 0 <= i < pairs.len() implies pair_single_line(
                    #[trigger] pairs[i],
                ) by {
                    if i > 0 {
                        assert(pairs[i] == rest[i - 1]);
                    }
                }
            }
        }
    }
}

/// Whether the credit colors of `credit` are valid colors.
pub open spec fn credit_colors_valid(credit: CreditPalette) -> bool {
    &&& color_error(credit.role@) is None
    &&& color_error(credit.name@) is None
    &&& color_error(credit.special@) is None
}

/// A valid color holds no line break.
proof fn lemma_color_single(c: Seq<char>)
    requires
        color_error(c) is None,
    ensures
        single_line(c),
{
    lemma_prefix_len(c, allowed_color_char());
    assert forall|i: int| 0 <= i < c.len() implies c[i] != '\n' by {
        assert(allowed_color_char()(c[i]));
    }
}

/// What goes between a lead and a name, and after a lead, holds no line
/// break when the separator holds none.
proof fn lemma_separator_pieces_single(sep: Seq<char>)
    requires
        single_line(sep),
    ensures
        single_line(lead_suffix(sep)),
        single_line(between_of(sep)),
{
}

/// A font span holds no line break when its color and text hold none.
proof fn lemma_font_single(color: Seq<char>, inner: Seq<char>)
    requires
        single_line(color),
        single_line(inner),
    ensures
        single_line(font(color, inner)),
{
    reveal_strlit("<font color=\"");
    reveal_strlit("\">");
    reveal_strlit("</font>");
    lemma_single_line_concat("<font color=\""@, color);
    lemma_single_line_concat("<font color=\""@ + color, "\">"@);
    lemma_single_line_concat("<font color=\""@ + color + "\">"@, inner);
    lemma_single_line_concat("<font color=\""@ + color + "\">"@ + inner, "</font>"@);
}

proof fn lemma_srt_segments_single(segments: Seq<SegmentModel>, special: Seq<char>)
    requires
        single_line(special),
        forall|i: int| 0 <= i < segments.len() ==> single_line(segment_text(#[trigger] segments[i])),
    ensures
        single_line(srt_segments(segments, special)),
    decreases segments.len(),
{
    if segments.len() > 0 {
        let init = segments.drop_last();
        assert forall|i: int| 0 <= i < init.len() implies single_line(segment_text(#[trigger] init[i])) by {
            assert(init[i] == segments[i]);
        }
        lemma_srt_segments_single(init, special);
        let last = segments.last();
        assert(single_line(segment_text(segments[segments.len() - 1])));
        lemma_escape_single(segment_text(last));
        lemma_font_single(special, escape_html(segment_text(last)));
        let piece = match last {
            SegmentModel::Unbracketed(text) => escape_html(text),
            SegmentModel::Bracketed(text) => font(special, escape_html(text)),
        };
        lemma_single_line_concat(srt_segments(init, special), piece);
    }
}

proof fn lemma_srt_pair_single(pair: PairModel, credit: CreditPalette)
    requires
        credit_colors_valid(credit),
        pair_single_line(pair),
    ensures
        single_line(srt_pair(pair, credit)),
{
    lemma_color_single(credit.role@);
    lemma_color_single(credit.name@);
    lemma_color_single(credit.special@);
    lemma_separator_pieces_single(pair.separator);
    lemma_escape_single(lead_text(pair.lead));
    let lead_color = match pair.lead {
        LeadModel::Role(_) => credit.role@,
        LeadModel::Special(_) => credit.special@,
    };
    lemma_single_line_concat(escape_html(lead_text(pair.lead)), lead_suffix(pair.separator));
    lemma_font_single(lead_color, escape_html(lead_text(pair.lead)) + lead_suffix(pair.separator));
    lemma_srt_segments_single(pair.name_segments, credit.special@);
    lemma_font_single(credit.name@, srt_segments(pair.name_segments, credit.special@));
    let name_part = between_of(pair.separator) + font(
        credit.name@,
        srt_segments(pair.name_segments, credit.special@),
    );
    lemma_single_line_concat(
        between_of(pair.separator),
        font(credit.name@, srt_segments(pair.name_segments, credit.special@)),
    );
    let lead_part = font(lead_color, escape_html(lead_text(pair.lead)) + lead_suffix(pair.separator));
    lemma_single_line_concat(lead_part, name_part);
    lemma_single_line_concat(lead_part, Seq::empty());
    assert(lead_part + Seq::<char>::empty() =~= lead_part);
}

/// A SubRip credit line holds no line break.
proof fn lemma_srt_line_single(pairs: Seq<PairModel>, credit: CreditPalette)
    requires
        credit_colors_valid(credit),
        forall|i: int| 0 <= i < pairs.len() ==> pair_single_line(#[trigger] pairs[i]),
    ensures
        single_line(srt_credit_line(pairs, credit)),
    decreases pairs.len(),
{
    if pairs.len() > 0 {
        let init = pairs.drop_last();
        assert forall|i: int| 0 <= i < init.len() implies pair_single_line(#[trigger] init[i]) by {
            assert(init[i] == pairs[i]);
        }
        lemma_srt_line_single(init, credit);
        assert(pair_single_line(pairs[pairs.len() - 1]));
        lemma_srt_pair_single(pairs.last(), credit);
        let gap: Seq<char> = if pairs.len() > 1 {
            seq![' ']
        } else {
            Seq::empty()
        };
        lemma_single_line_concat(srt_credit_line(init, credit), gap);
        lemma_single_line_concat(srt_credit_line(init, credit) + gap, srt_pair(pairs.last(), credit));
    }
}

/// The SubRip rendering of one credit line.
pub open spec fn srt_rendered_line(
    line: Seq<char>,
    credit: CreditPalette,
    roles: Seq<Seq<char>>,
) -> Seq<char> {
    srt_credit_line(parse_credit_model(roles, trim_start(line))->Ok_0, credit)
}

/// Each line of a SubRip credit block renders on a line of its own: a
/// block of `k` lines that renders is the `k` rendered lines, in order,
/// joined by line breaks, none of them holding a line break itself, so
/// the block holds `k - 1` line breaks, as its lines do when joined.
pub proof fn lemma_srt_credit_block_lines(
    lines: Seq<Seq<char>>,
    start: Timestamp,
    credit: CreditPalette,
    roles: Seq<Seq<char>>,
)
    requires
        credit_colors_valid(credit),
        forall|i: int| 0 <= i < lines.len() ==> single_line(#[trigger] lines[i]),
    ensures
        srt_credit_block(lines, start, credit, roles) matches Ok(text) ==> {
            let rendered = Seq::new(
                lines.len(),
                |i: int| srt_rendered_line(lines[i], credit, roles),
            );
            &&& text == joined_lines(rendered)
            &&& forall|i: int| 0 <= i < rendered.len() ==> single_line(#[trigger] rendered[i])
            &&& lines.len() > 0 ==> line_breaks(text) == lines.len() - 1
        },
    decreases lines.len(),
{
    if lines.len() > 0 {
        let init = lines.drop_last();
        assert forall|i: int| 0 <= i < init.len() implies single_line(#[trigger] init[i]) by {
            assert(init[i] == lines[i]);
        }
        lemma_srt_credit_block_lines(init, start, credit, roles);
        if let Ok(text) = srt_credit_block(lines, start, credit, roles) {
            let rendered = Seq::new(
                lines.len(),
                |i: int| srt_rendered_line(lines[i], credit, roles),
            );
            let before = Seq::new(init.len(), |i: int| srt_rendered_line(init[i], credit, roles));
            assert(rendered.drop_last() =~= before);
            let last = lines.last();
            let line = trim_start(last);
            assert(single_line(lines[lines.len() - 1]));
            crate::text::lemma_prefix_len(last, ws());
            lemma_single_line_subrange(last, prefix_len(last, ws()) as int, last.len() as int);
            assert(line =~= last.subrange(prefix_len(last, ws()) as int, last.len() as int));
            lemma_cells_single(roles, line, prefix_len(line, ws()));
            let pairs = parse_credit_model(roles, line)->Ok_0;
            lemma_srt_line_single(pairs, credit);
            assert forall|i: int| 0 <= i < rendered.len() implies single_line(#[trigger] rendered[i]) by {
                if i < init.len() {
                    assert(rendered[i] == before[i]);
                }
            }
            if lines.len() == 1 {
                assert(init.len() == 0);
            }
            lemma_joined_breaks(rendered);
        }
    }
}

/// Each line of a credit part's text renders on a line of its own in
/// SubRip: the block of a credit part with `k` lines is its `k` rendered
/// lines, in order, joined by line breaks.
pub proof fn lemma_srt_credit_part_lines(
    text: Seq<char>,
    start: Timestamp,
    credit: CreditPalette,
    roles: Seq<Seq<char>>,
)
    requires
        credit_colors_valid(credit),
    ensures
        srt_credit_block(lines_of(text), start, credit, roles) matches Ok(block) ==> {
            let lines = lines_of(text);
            let rendered = Seq::new(
                lines.len(),
                |i: int| srt_rendered_line(lines[i], credit, roles),
            );
            &&& block == joined_lines(rendered)
            &&& forall|i: int| 0 <= i < rendered.len() ==> single_line(#[trigger] rendered[i])
            &&& lines.len() > 0 ==> line_breaks(block) == lines.len() - 1
        },
{
    lemma_lines_single(text);
    lemma_srt_credit_block_lines(lines_of(text), start, credit, roles);
}


proof fn lemma_vtt_segments_single(segments: Seq<SegmentModel>)
    requires
        forall|i: int| 0 <= i < segments.len() ==> single_line(segment_text(#[trigger] segments[i])),
    ensures
        single_line(vtt_segments(segments)),
    decreases segments.len(),
{
    if segments.len() > 0 {
        let init = segments.drop_last();
        assert forall|i: int| 0 <= i < init.len() implies single_line(segment_text(#[trigger] init[i])) by {
            assert(init[i] == segments[i]);
        }
        lemma_vtt_segments_single(init);
        let last = segments.last();
        assert(single_line(segment_text(segments[segments.len() - 1])));
        lemma_escape_single(segment_text(last));
        reveal_strlit("<c.creditSpecial>");
        reveal_strlit("</c>");
        let text = escape_html(segment_text(last));
        lemma_single_line_concat("<c.creditSpecial>"@, text);
        lemma_single_line_concat("<c.creditSpecial>"@ + text, "</c>"@);
        let piece = match last {
            SegmentModel::Unbracketed(t) => escape_html(t),
            SegmentModel::Bracketed(t) => "<c.creditSpecial>"@ + escape_html(t) + "</c>"@,
        };
        lemma_single_line_concat(vtt_segments(init), piece);
    }
}

proof fn lemma_vtt_pair_single(pair: PairModel)
    requires
        pair_single_line(pair),
    ensures
        single_line(vtt_pair(pair)),
{
    reveal_strlit("<c.");
    reveal_strlit(">");
    reveal_strlit("</c>");
    reveal_strlit("creditRole");
    reveal_strlit("creditSpecial");
    reveal_strlit("<c.creditName>");
    lemma_separator_pieces_single(pair.separator);
    lemma_escape_single(lead_text(pair.lead));
    let class = match pair.lead {
        LeadModel::Role(_) => "creditRole"@,
        LeadModel::Special(_) => "creditSpecial"@,
    };
    let a = "<c."@ + class;
    lemma_single_line_concat("<c."@, class);
    lemma_single_line_concat(a, ">"@);
    lemma_single_line_concat(a + ">"@, escape_html(lead_text(pair.lead)));
    let b = a + ">"@ + escape_html(lead_text(pair.lead));
    lemma_single_line_concat(b, lead_suffix(pair.separator));
    lemma_single_line_concat(b + lead_suffix(pair.separator), "</c>"@);
    let lead_part = b + lead_suffix(pair.separator) + "</c>"@;
    lemma_vtt_segments_single(pair.name_segments);
    let c = between_of(pair.separator);
    lemma_single_line_concat(c, "<c.creditName>"@);
    lemma_single_line_concat(c + "<c.creditName>"@, vtt_segments(pair.name_segments));
    lemma_single_line_concat(c + "<c.creditName>"@ + vtt_segments(pair.name_segments), "</c>"@);
    let name_part = c + "<c.creditName>"@ + vtt_segments(pair.name_segments) + "</c>"@;
    lemma_single_line_concat(lead_part, name_part);
    assert(lead_part + Seq::<char>::empty() =~= lead_part);
}

/// A WebVTT credit line holds no line break.
proof fn lemma_vtt_line_single(pairs: Seq<PairModel>)
    requires
        forall|i: int| 0 <= i < pairs.len() ==> pair_single_line(#[trigger] pairs[i]),
    ensures
        single_line(vtt_credit_line(pairs).0),
    decreases pairs.len(),
{
    if pairs.len() > 0 {
        let init = pairs.drop_last();
        assert forall|i: int| 0 <= i < init.len() implies pair_single_line(#[trigger] init[i]) by {
            assert(init[i] == pairs[i]);
        }
        lemma_vtt_line_single(init);
        assert(pair_single_line(pairs[pairs.len() - 1]));
        lemma_vtt_pair_single(pairs.last());
        let gap: Seq<char> = if pairs.len() > 1 {
            seq![' ']
        } else {
            Seq::empty()
        };
        lemma_single_line_concat(vtt_credit_line(init).0, gap);
        lemma_single_line_concat(vtt_credit_line(init).0 + gap, vtt_pair(pairs.last()));
    }
}

/// The WebVTT rendering of one credit line.
pub open spec fn vtt_rendered_line(line: Seq<char>, roles: Seq<Seq<char>>) -> Seq<char> {
    vtt_credit_line(parse_credit_model(roles, trim_start(line))->Ok_0).0
}

/// Each line of a WebVTT credit block renders on a line of its own: a
/// block of `k` lines that renders is the `k` rendered lines, in order,
/// joined by line breaks, none of them holding a line break itself, so
/// the block holds `k - 1` line breaks.
pub proof fn lemma_vtt_credit_block_lines(
    lines: Seq<Seq<char>>,
    start: Timestamp,
    roles: Seq<Seq<char>>,
)
    requires
        forall|i: int| 0 <= i < lines.len() ==> single_line(#[trigger] lines[i]),
    ensures
        vtt_credit_block(lines, start, roles) matches Ok((text, _)) ==> {
            let rendered = Seq::new(lines.len(), |i: int| vtt_rendered_line(lines[i], roles));
            &&& text == joined_lines(rendered)
            &&& forall|i: int| 0 <= i < rendered.len() ==> single_line(#[trigger] rendered[i])
            &&& lines.len() > 0 ==> line_breaks(text) == lines.len() - 1
        },
    decreases lines.len(),
{
    if lines.len() > 0 {
        let init = lines.drop_last();
        assert forall|i: int| 0 <= i < init.len() implies single_line(#[trigger] init[i]) by {
            assert(init[i] == lines[i]);
        }
        lemma_vtt_credit_block_lines(init, start, roles);
        if let Ok((text, _)) = vtt_credit_block(lines, start, roles) {
            let rendered = Seq::new(lines.len(), |i: int| vtt_rendered_line(lines[i], roles));
            let before = Seq::new(init.len(), |i: int| vtt_rendered_line(init[i], roles));
            assert(rendered.drop_last() =~= before);
            let last = lines.last();
            let line = trim_start(last);
            assert(single_line(lines[lines.len() - 1]));
            crate::text::lemma_prefix_len(last, ws());
            lemma_single_line_subrange(last, prefix_len(last, ws()) as int, last.len() as int);
            assert(line =~= last.subrange(prefix_len(last, ws()) as int, last.len() as int));
            lemma_cells_single(roles, line, prefix_len(line, ws()));
            let pairs = parse_credit_model(roles, line)->Ok_0;
            lemma_vtt_line_single(pairs);
            assert forall|i: int| 0 <= i < rendered.len() implies single_line(#[trigger] rendered[i]) by {
                if i < init.len() {
                    assert(rendered[i] == before[i]);
                }
            }
            lemma_joined_breaks(rendered);
        }
    }
}

/// Each line of a credit part's text renders on a line of its own in
/// WebVTT: the block of a credit part with `k` lines is its `k` rendered
/// lines, in order, joined by line breaks.
pub proof fn lemma_vtt_credit_part_lines(text: Seq<char>, start: Timestamp, roles: Seq<Seq<char>>)
    ensures
        vtt_credit_block(lines_of(text), start, roles) matches Ok((block, _)) ==> {
            let lines = lines_of(text);
            let rendered = Seq::new(lines.len(), |i: int| vtt_rendered_line(lines[i], roles));
            &&& block == joined_lines(rendered)
            &&& forall|i: int| 0 <= i < rendered.len() ==> single_line(#[trigger] rendered[i])
            &&& lines.len() > 0 ==> line_breaks(block) == lines.len() - 1
        },
{
    lemma_lines_single(text);
    lemma_vtt_credit_block_lines(lines_of(text), start, roles);
}

} // verus!
