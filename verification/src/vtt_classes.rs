//! Which built-in credit classes a WebVTT render uses, and why: the
//! credit rules of the style block follow from the credit cells of the
//! cues.

use crate::credits_model::{parse_credit_model, PairModel};
use crate::descriptors::{contains_name, Language, LineMarkersDesc};
use crate::parse::{SubtitleCue, parts_view};
use crate::parse_model::{lines_of, PartModel};
use crate::render_vtt::{pair_features, vtt_credit_block, vtt_credit_line, vtt_cues, vtt_part, vtt_parts, Features};
use crate::text::trim_start;
use crate::timestamp::Timestamp;
use vstd::prelude::*;

verus! {

/// A built-in credit class.
pub enum CreditClass {
    /// `creditRole`, of a cell that opens with a role.
    Role,
    /// `creditName`, of a cell with a name.
    Name,
    /// `creditSpecial`, of a bracketed lead or a bracketed span of a name.
    Special,
}

/// Whether `used` marks `class` as used.
pub open spec fn class_used(used: Features, class: CreditClass) -> bool {
    match class {
        CreditClass::Role => used.used_credit_role,
        CreditClass::Name => used.used_credit_name,
        CreditClass::Special => used.used_credit_special,
    }
}

/// Whether cell `q` of the credit line `line` (read after its leading
/// whitespace) uses `class`.
pub open spec fn line_uses(line: Seq<char>, roles: Seq<Seq<char>>, q: int, class: CreditClass) -> bool {
    match parse_credit_model(roles, trim_start(line)) {
        Ok(pairs) => 0 <= q < pairs.len() && class_used(pair_features(pairs[q]), class),
        Err(_) => false,
    }
}

/// Whether cell `q` of line `j` of `part`, a part with a credit marker,
/// uses `class`.
pub open spec fn part_uses(
    part: PartModel,
    markers: LineMarkersDesc,
    roles: Seq<Seq<char>>,
    j: int,
    q: int,
    class: CreditClass,
) -> bool {
    let lines = lines_of(part.text);
    &&& contains_name(markers.credits@, part.marker)
    &&& 0 <= j < lines.len()
    &&& line_uses(lines[j], roles, q, class)
}

/// Whether cell `q` of line `j` of part `b` of cue `a` is a credit cell
/// that uses `class`.
pub open spec fn cue_uses(
    cues: Seq<SubtitleCue>,
    markers: LineMarkersDesc,
    roles: Seq<Seq<char>>,
    a: int,
    b: int,
    j: int,
    q: int,
    class: CreditClass,
) -> bool {
    &&& 0 <= a < cues.len()
    &&& 0 <= b < cues[a].parts@.len()
    &&& part_uses(parts_view(cues[a].parts@)[b], markers, roles, j, q, class)
}

proof fn lemma_line_classes(pairs: Seq<PairModel>, class: CreditClass)
    ensures
        class_used(vtt_credit_line(pairs).1, class) <==> exists|q: int|
            0 <= q < pairs.len() && class_used(pair_features(#[trigger] pairs[q]), class),
    decreases pairs.len(),
{
    if pairs.len() > 0 {
        let init = pairs.drop_last();
        lemma_line_classes(init, class);
        if exists|q: int| 0 <= q < init.len() && class_used(pair_features(#[trigger] init[q]), class) {
            let q = choose|q: int|
                0 <= q < init.len() && class_used(pair_features(#[trigger] init[q]), class);
            assert(pairs[q] == init[q]);
        }
        if exists|q: int| 0 <= q < pairs.len() && class_used(pair_features(#[trigger] pairs[q]), class) {
            let q = choose|q: int|
                0 <= q < pairs.len() && class_used(pair_features(#[trigger] pairs[q]), class);
            if q < init.len() {
                assert(pairs[q] == init[q]);
            }
        }
    }
}

proof fn lemma_block_classes(
    lines: Seq<Seq<char>>,
    start: Timestamp,
    roles: Seq<Seq<char>>,
    class: CreditClass,
)
    ensures
        vtt_credit_block(lines, start, roles) matches Ok((_, used)) ==> (class_used(used, class)
            <==> exists|j: int, q: int|
            0 <= j < lines.len() && #[trigger] line_uses(lines[j], roles, q, class)),
    decreases lines.len(),
{
    if lines.len() > 0 {
        let init = lines.drop_last();
        lemma_block_classes(init, start, roles, class);
        if vtt_credit_block(lines, start, roles) is Ok {
            let last = lines.len() - 1;
            let pairs = parse_credit_model(roles, trim_start(lines[last]))->Ok_0;
            lemma_line_classes(pairs, class);
            if exists|j: int, q: int| 0 <= j < init.len() && #[trigger] line_uses(init[j], roles, q, class) {
                let (j, q) = choose|j: int, q: int|
                    0 <= j < init.len() && #[trigger] line_uses(init[j], roles, q, class);
                assert(lines[j] == init[j]);
            }
            if exists|q: int| 0 <= q < pairs.len() && class_used(pair_features(#[trigger] pairs[q]), class) {
                let q = choose|q: int|
                    0 <= q < pairs.len() && class_used(pair_features(#[trigger] pairs[q]), class);
                assert(line_uses(lines[last], roles, q, class));
            }
            if exists|j: int, q: int| 0 <= j < lines.len() && #[trigger] line_uses(lines[j], roles, q, class) {
                let (j, q) = choose|j: int, q: int|
                    0 <= j < lines.len() && #[trigger] line_uses(lines[j], roles, q, class);
                if j < last {
                    assert(lines[j] == init[j]);
                    assert(line_uses(init[j], roles, q, class));
                } else {
                    assert(class_used(pair_features(pairs[q]), class));
                }
            }
        }
    }
}

proof fn lemma_parts_classes(
    parts: Seq<PartModel>,
    start: Timestamp,
    markers: LineMarkersDesc,
    roles: Seq<Seq<char>>,
    language: Language,
    class: CreditClass,
)
    ensures
        vtt_parts(parts, start, markers, roles, language) matches Ok((_, used)) ==> (class_used(
            used,
            class,
        ) <==> exists|b: int, j: int, q: int|
            0 <= b < parts.len() && #[trigger] part_uses(parts[b], markers, roles, j, q, class)),
    decreases parts.len(),
{
    if parts.len() > 0 {
        let init = parts.drop_last();
        lemma_parts_classes(init, start, markers, roles, language, class);
        if vtt_parts(parts, start, markers, roles, language) is Ok {
            let last = parts.len() - 1;
            let part = parts[last];
            let lines = lines_of(part.text);
            lemma_block_classes(lines, start, roles, class);
            let more = vtt_part(part, start, markers, roles, language)->Ok_0.1;
            assert(class_used(more, class) <==> exists|j: int, q: int|
                #[trigger] part_uses(part, markers, roles, j, q, class)) by {
                if contains_name(markers.credits@, part.marker) {
                    if exists|j: int, q: int| 0 <= j < lines.len() && #[trigger] line_uses(lines[j], roles, q, class) {
                        let (j, q) = choose|j: int, q: int|
                            0 <= j < lines.len() && #[trigger] line_uses(lines[j], roles, q, class);
                        assert(part_uses(part, markers, roles, j, q, class));
                    }
                }
            }
            if exists|b: int, j: int, q: int| 0 <= b < init.len() && #[trigger] part_uses(init[b], markers, roles, j, q, class) {
                let (b, j, q) = choose|b: int, j: int, q: int|
                    0 <= b < init.len() && #[trigger] part_uses(init[b], markers, roles, j, q, class);
                assert(parts[b] == init[b]);
            }
            if exists|j: int, q: int| #[trigger] part_uses(part, markers, roles, j, q, class) {
                let (j, q) = choose|j: int, q: int| #[trigger] part_uses(part, markers, roles, j, q, class);
                assert(part_uses(parts[last], markers, roles, j, q, class));
            }
            if exists|b: int, j: int, q: int| 0 <= b < parts.len() && #[trigger] part_uses(parts[b], markers, roles, j, q, class) {
                let (b, j, q) = choose|b: int, j: int, q: int|
                    0 <= b < parts.len() && #[trigger] part_uses(parts[b], markers, roles, j, q, class);
                if b < last {
                    assert(parts[b] == init[b]);
                    assert(part_uses(init[b], markers, roles, j, q, class));
                } else {
                    assert(part_uses(part, markers, roles, j, q, class));
                }
            }
        }
    }
}

/// The built-in credit classes the cues use, and so the credit rules the
/// style block writes, follow from the credit cells: a class is used
/// exactly when some cell of some credit line of some cue uses it
/// (`creditRole` a cell that opens with a role, `creditName` a cell with
/// a name, `creditSpecial` a bracketed lead or a bracketed span of a
/// name).
pub proof fn lemma_vtt_credit_classes(
    cues: Seq<SubtitleCue>,
    markers: LineMarkersDesc,
    roles: Seq<Seq<char>>,
    language: Language,
    class: CreditClass,
)
    ensures
        vtt_cues(cues, markers, roles, language) matches Ok((_, used)) ==> (class_used(used, class)
            <==> exists|a: int, b: int, j: int, q: int|
            #[trigger] cue_uses(cues, markers, roles, a, b, j, q, class)),
    decreases cues.len(),
{
    if cues.len() > 0 {
        let init = cues.drop_last();
        lemma_vtt_credit_classes(init, markers, roles, language, class);
        if vtt_cues(cues, markers, roles, language) is Ok {
            let last = cues.len() - 1;
            let cue = cues[last];
            let parts = parts_view(cue.parts@);
            lemma_parts_classes(parts, cue.start, markers, roles, language, class);
            assert(parts.len() == cue.parts@.len());
            if exists|a: int, b: int, j: int, q: int| #[trigger] cue_uses(init, markers, roles, a, b, j, q, class) {
                let (a, b, j, q) = choose|a: int, b: int, j: int, q: int|
                    #[trigger] cue_uses(init, markers, roles, a, b, j, q, class);
                assert(cues[a] == init[a]);
                assert(cue_uses(cues, markers, roles, a, b, j, q, class));
            }
            if exists|b: int, j: int, q: int| 0 <= b < parts.len() && #[trigger] part_uses(parts[b], markers, roles, j, q, class) {
                let (b, j, q) = choose|b: int, j: int, q: int|
                    0 <= b < parts.len() && #[trigger] part_uses(parts[b], markers, roles, j, q, class);
                assert(cue_uses(cues, markers, roles, last, b, j, q, class));
            }
            if exists|a: int, b: int, j: int, q: int| #[trigger] cue_uses(cues, markers, roles, a, b, j, q, class) {
                let (a, b, j, q) = choose|a: int, b: int, j: int, q: int|
                    #[trigger] cue_uses(cues, markers, roles, a, b, j, q, class);
                if a < last {
                    assert(cues[a] == init[a]);
                    assert(cue_uses(init, markers, roles, a, b, j, q, class));
                } else {
                    assert(part_uses(parts[b], markers, roles, j, q, class));
                }
            }
        }
    }
}


} // verus!
