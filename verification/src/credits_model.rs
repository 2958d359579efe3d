//! What the credit-line parser computes, stated over character sequences.
//!
//! A credit line is read left to right. At each cell boundary the longest
//! registered role that is followed by a separator (or the end of the
//! line) opens a cell; on a role-less line a bracketed span may open it
//! instead. The separator after the lead is kept verbatim; the name
//! region runs up to the next registered role at a cell boundary, and is
//! split into bracketed spans and the unbracketed text between them.

use crate::text::{lemma_prefix_len, lemma_prefix_len_is, prefix_len, saturate, suffix_len, ws};
use vstd::prelude::*;
use vstd::utf8::encode_utf8;

verus! {

/// Whether `c` separates the cells of a credit line: an ASCII or
/// full-width colon, or whitespace.
pub open spec fn is_separator_char(c: char) -> bool {
    c == ':' || c == '：' || crate::text::is_ws(c)
}

/// The separator predicate as a value.
pub open spec fn separator() -> spec_fn(char) -> bool {
    |c: char| is_separator_char(c)
}

/// Whether `c` is one of the eight bracket characters.
pub open spec fn is_bracket_char(c: char) -> bool {
    c == '【' || c == '】' || c == '[' || c == ']' || c == '(' || c == ')' || c == '（' || c == '）'
}

/// The predicate that holds of every character but a bracket.
pub open spec fn not_bracket() -> spec_fn(char) -> bool {
    |c: char| !is_bracket_char(c)
}

/// The closing bracket that matches the opening bracket `open`, if `open`
/// is one.
pub open spec fn matching_close(open: char) -> Option<char> {
    if open == '【' {
        Some('】')
    } else if open == '[' {
        Some(']')
    } else if open == '(' {
        Some(')')
    } else if open == '（' {
        Some('）')
    } else {
        None
    }
}

/// The length of the bracketed span that `s` opens with, if it opens with
/// one: an opening bracket, no bracket in between, and its matching
/// closing bracket.
pub open spec fn bracketed_len(s: Seq<char>) -> Option<nat> {
    if s.len() == 0 {
        None
    } else {
        match matching_close(s[0]) {
            None => None,
            Some(close) => {
                let k = prefix_len(s.drop_first(), not_bracket());
                if k < s.len() - 1 && s[k + 1 as int] == close {
                    Some(k + 2)
                } else {
                    None
                }
            },
        }
    }
}

/// What a name region decomposes into.
pub enum SegmentModel {
    Unbracketed(Seq<char>),
    Bracketed(Seq<char>),
}

/// The first position at or after `p` where a bracketed span opens in
/// `s`, with the span's length.
pub open spec fn first_bracket_from(s: Seq<char>, p: nat) -> Option<(nat, nat)>
    decreases s.len() - p,
{
    if p >= s.len() {
        None
    } else {
        match bracketed_len(s.skip(p as int)) {
            Some(len) => Some((p, len)),
            None => first_bracket_from(s, p + 1),
        }
    }
}

/// The segments of a name region: bracketed spans and the non-empty runs
/// of text before them, then the non-empty text after the last span.
pub open spec fn name_segments(region: Seq<char>) -> Seq<SegmentModel>
    decreases region.len(),
{
    match first_bracket_from(region, 0) {
        Some((p, len)) => if p + len <= region.len() && len > 0 {
            (if p > 0 {
                seq![SegmentModel::Unbracketed(region.take(p as int))]
            } else {
                Seq::empty()
            }) + seq![SegmentModel::Bracketed(region.subrange(p as int, (p + len) as int))]
                + name_segments(region.skip((p + len) as int))
        } else {
            Seq::empty()
        },
        None => if region.len() > 0 {
            seq![SegmentModel::Unbracketed(region)]
        } else {
            Seq::empty()
        },
    }
}

/// The key roles are ordered by: byte length first, longest first.
pub open spec fn role_len(role: Seq<char>) -> int {
    saturate(encode_utf8(role).len() as int) as int
}

/// Lexicographic order of character sequences by code point.
pub open spec fn text_less(a: Seq<char>, b: Seq<char>) -> bool
    decreases a.len(),
{
    if b.len() == 0 {
        false
    } else if a.len() == 0 {
        true
    } else if a[0] != b[0] {
        (a[0] as u32) < (b[0] as u32)
    } else {
        text_less(a.drop_first(), b.drop_first())
    }
}

/// The order of a role set: longer roles first, equal lengths in
/// ascending lexicographic order.
pub open spec fn role_before(a: Seq<char>, b: Seq<char>) -> bool {
    role_len(a) > role_len(b) || (role_len(a) == role_len(b) && text_less(a, b))
}

/// Whether `roles` is strictly ordered by [`role_before`], which also
/// rules out duplicates.
pub open spec fn roles_ordered(roles: Seq<Seq<char>>) -> bool {
    forall|i: int, j: int| 0 <= i < j < roles.len() ==> role_before(#[trigger] roles[i], #[trigger] roles[j])
}

/// Whether `role` opens `s` and is followed there by a separator or the
/// end.
pub open spec fn role_matches(role: Seq<char>, s: Seq<char>) -> bool {
    &&& role.len() <= s.len()
    &&& s.take(role.len() as int) == role
    &&& (role.len() == s.len() || is_separator_char(s[role.len() as int]))
}

/// The predicate that holds of a role that does not match `s`.
pub open spec fn role_misses(s: Seq<char>) -> spec_fn(Seq<char>) -> bool {
    |role: Seq<char>| !role_matches(role, s)
}

/// The first role of `roles` (in their order) that matches `s`.
pub open spec fn take_role(roles: Seq<Seq<char>>, s: Seq<char>) -> Option<Seq<char>> {
    let k = prefix_len(roles, role_misses(s));
    if k < roles.len() {
        Some(roles[k as int])
    } else {
        None
    }
}

/// Whether position `c` of `s` is a cell boundary: the start, or right
/// after a separator.
pub open spec fn at_cell_boundary(s: Seq<char>, c: int) -> bool {
    c == 0 || is_separator_char(s[c - 1])
}

/// The first position at or after `c` in `s` where a registered role
/// opens a new cell, or the end of `s`.
pub open spec fn until_role(roles: Seq<Seq<char>>, s: Seq<char>, c: nat) -> nat
    decreases s.len() - c,
{
    if c >= s.len() {
        s.len()
    } else if at_cell_boundary(s, c as int) && take_role(roles, s.skip(c as int)) is Some {
        c
    } else {
        until_role(roles, s, c + 1)
    }
}

/// What opens a cell.
pub enum LeadModel {
    Role(Seq<char>),
    Special(Seq<char>),
}

/// One cell of a credit line.
pub struct PairModel {
    pub lead: LeadModel,
    pub separator: Seq<char>,
    pub name_segments: Seq<SegmentModel>,
}

/// The lead of the cell starting at `s`, with its length.
pub open spec fn lead_at(roles: Seq<Seq<char>>, s: Seq<char>) -> Option<(LeadModel, nat)> {
    match take_role(roles, s) {
        Some(role) => Some((LeadModel::Role(role), role.len())),
        None => match bracketed_len(s) {
            Some(len) => Some((LeadModel::Special(s.take(len as int)), len)),
            None => None,
        },
    }
}

/// The cells of `line` from position `pos` on (a cell boundary after the
/// separators), or the position of unrecognized text.
pub open spec fn parse_cells(roles: Seq<Seq<char>>, line: Seq<char>, pos: nat) -> Result<
    Seq<PairModel>,
    nat,
>
    decreases line.len() - pos,
{
    if pos >= line.len() {
        Ok(Seq::empty())
    } else {
        match lead_at(roles, line.skip(pos as int)) {
            None => Err(pos),
            Some((lead, lead_len)) => {
                let after_lead = pos + lead_len;
                let sep_end = after_lead + prefix_len(line.skip(after_lead as int), separator());
                let region = line.skip(sep_end as int);
                let name_end = sep_end + until_role(roles, region, 0);
                let raw_name = line.subrange(sep_end as int, name_end as int);
                let trimmed = raw_name.take(raw_name.len() - suffix_len(raw_name, separator()));
                let next = name_end + prefix_len(line.skip(name_end as int), separator());
                let pair = PairModel {
                    lead,
                    separator: line.subrange(after_lead as int, sep_end as int),
                    name_segments: name_segments(trimmed),
                };
                proof {
                    lemma_lead_len(roles, line.skip(pos as int));
                    lemma_prefix_len(line.skip(after_lead as int), separator());
                    lemma_until_role_bound(roles, region, 0);
                    lemma_prefix_len(line.skip(name_end as int), separator());
                }
                match parse_cells(roles, line, next) {
                    Ok(rest) => Ok(seq![pair] + rest),
                    Err(p) => Err(p),
                }
            },
        }
    }
}

/// A lead never runs past the text it was read from, and never is empty
/// where the text does not open with a separator.
pub proof fn lemma_lead_len(roles: Seq<Seq<char>>, s: Seq<char>)
    ensures
        lead_at(roles, s) matches Some((lead, len)) ==> len <= s.len() && (len > 0 || s.len() == 0
            || is_separator_char(s[0])),
{
    let k = prefix_len(roles, role_misses(s));
    lemma_prefix_len(roles, role_misses(s));
    lemma_prefix_len(s.drop_first(), not_bracket());
    if k < roles.len() {
        assert(!role_misses(s)(roles[k as int]));
        assert(role_matches(roles[k as int], s));
    }
}

/// The position [`until_role`] finds lies between its start and the end.
pub proof fn lemma_until_role_bound(roles: Seq<Seq<char>>, s: Seq<char>, c: nat)
    ensures
        c <= s.len() ==> c <= until_role(roles, s, c) <= s.len(),
        c > s.len() ==> until_role(roles, s, c) == s.len(),
    decreases s.len() - c,
{
    if c < s.len() {
        lemma_until_role_bound(roles, s, c + 1);
    }
}

/// Whether a registered role opens a new cell at position `c` of `s`: `c`
/// is a cell boundary and a role matches there.
pub open spec fn role_opens_at(roles: Seq<Seq<char>>, s: Seq<char>, c: int) -> bool {
    at_cell_boundary(s, c) && take_role(roles, s.skip(c)) is Some
}

/// [`until_role`] from `c` stops at the first position from `c` on where a
/// role opens a cell, or at the end when there is none.
proof fn lemma_until_role_first_from(roles: Seq<Seq<char>>, s: Seq<char>, c: nat)
    requires
        c <= s.len(),
    ensures
        ({
            let end = until_role(roles, s, c);
            &&& c <= end <= s.len()
            &&& end == s.len() || role_opens_at(roles, s, end as int)
            &&& forall|d: int| c <= d < end ==> !#[trigger] role_opens_at(roles, s, d)
        }),
    decreases s.len() - c,
{
    if c < s.len() && !role_opens_at(roles, s, c as int) {
        lemma_until_role_first_from(roles, s, c + 1);
    }
}

/// The name region of a cell ends at the first cell boundary of the text
/// after it where a registered role opens a new cell, or at the end of
/// the text when no role does: the text splits there into the name
/// region and the rest, the rest is empty or opens with a role at a cell
/// boundary, and no shorter split has that property (so a role inside a
/// name, not at a cell boundary, does not end it).
pub proof fn lemma_until_role_first(roles: Seq<Seq<char>>, s: Seq<char>)
    ensures
        ({
            let end = until_role(roles, s, 0);
            &&& end <= s.len()
            &&& s.take(end as int) + s.skip(end as int) == s
            &&& end == s.len() || role_opens_at(roles, s, end as int)
            &&& forall|d: int| 0 <= d < end ==> !#[trigger] role_opens_at(roles, s, d)
        }),
{
    lemma_until_role_first_from(roles, s, 0);
    let end = until_role(roles, s, 0);
    assert(s.take(end as int) + s.skip(end as int) =~= s);
}

/// The cells of a credit line, after its leading whitespace, or the
/// position of the first unrecognized text.
pub open spec fn parse_credit_model(roles: Seq<Seq<char>>, line: Seq<char>) -> Result<
    Seq<PairModel>,
    nat,
> {
    parse_cells(roles, line, prefix_len(line, ws()))
}

/// The closing bracket of a pair is itself a bracket character.
pub proof fn lemma_close_is_bracket(open: char)
    ensures
        matching_close(open) matches Some(close) ==> is_bracket_char(close),
{
}

/// A bracketed span lies within its text, is at least two characters
/// long, and is still the bracketed span of its own text.
pub proof fn lemma_bracketed_take(s: Seq<char>)
    ensures
        bracketed_len(s) matches Some(n) ==> 2 <= n <= s.len() && bracketed_len(s.take(n as int))
            == Some(n),
{
    if let Some(n) = bracketed_len(s) {
        let close = matching_close(s[0]).unwrap();
        let k = prefix_len(s.drop_first(), not_bracket());
        lemma_prefix_len(s.drop_first(), not_bracket());
        lemma_close_is_bracket(s[0]);
        let t = s.take(n as int);
        let td = t.drop_first();
        assert forall|j: int| 0 <= j < k implies not_bracket()(#[trigger] td[j]) by {
            assert(td[j] == s.drop_first()[j]);
        }
        assert(td[k as int] == s[k + 1 as int]);
        lemma_prefix_len_is(td, not_bracket(), k as int);
    }
}

/// No text comes before itself.
pub proof fn lemma_text_less_irreflexive(a: Seq<char>)
    ensures
        !text_less(a, a),
    decreases a.len(),
{
    if a.len() > 0 {
        lemma_text_less_irreflexive(a.drop_first());
    }
}

/// Of two texts, at most one comes before the other.
pub proof fn lemma_text_less_asymmetric(a: Seq<char>, b: Seq<char>)
    ensures
        text_less(a, b) ==> !text_less(b, a),
    decreases a.len(),
{
    if a.len() > 0 && b.len() > 0 && a[0] == b[0] {
        lemma_text_less_asymmetric(a.drop_first(), b.drop_first());
    }
}

/// Of two different texts, one comes before the other.
pub proof fn lemma_text_less_total(a: Seq<char>, b: Seq<char>)
    ensures
        a != b ==> text_less(a, b) || text_less(b, a),
    decreases a.len(),
{
    if a.len() > 0 && b.len() > 0 && a[0] == b[0] {
        if a.drop_first() == b.drop_first() {
            assert(a =~= seq![a[0]] + a.drop_first());
            assert(b =~= seq![b[0]] + b.drop_first());
        }
        lemma_text_less_total(a.drop_first(), b.drop_first());
    } else if a.len() == 0 && b.len() == 0 {
        assert(a =~= b);
    } else if a.len() > 0 && b.len() > 0 {
        vstd::utf8::char_u32_cast(a[0], a[0] as u32);
        vstd::utf8::char_u32_cast(b[0], b[0] as u32);
    }
}

/// The order of texts is transitive.
pub proof fn lemma_text_less_transitive(a: Seq<char>, b: Seq<char>, c: Seq<char>)
    ensures
        text_less(a, b) && text_less(b, c) ==> text_less(a, c),
    decreases a.len(),
{
    if a.len() > 0 && b.len() > 0 && c.len() > 0 && a[0] == b[0] && b[0] == c[0] {
        lemma_text_less_transitive(a.drop_first(), b.drop_first(), c.drop_first());
    }
}

/// The order of a role set is a strict total order.
pub proof fn lemma_role_before_order(a: Seq<char>, b: Seq<char>, c: Seq<char>)
    ensures
        !role_before(a, a),
        role_before(a, b) ==> !role_before(b, a),
        a != b ==> role_before(a, b) || role_before(b, a),
        role_before(a, b) && role_before(b, c) ==> role_before(a, c),
{
    lemma_text_less_irreflexive(a);
    lemma_text_less_asymmetric(a, b);
    lemma_text_less_total(a, b);
    lemma_text_less_transitive(a, b, c);
}

/// The text a segment stands for.
pub open spec fn segment_text(segment: SegmentModel) -> Seq<char> {
    match segment {
        SegmentModel::Unbracketed(text) => text,
        SegmentModel::Bracketed(text) => text,
    }
}

/// The texts of `segments`, one after another.
pub open spec fn segments_text(segments: Seq<SegmentModel>) -> Seq<char>
    decreases segments.len(),
{
    if segments.len() == 0 {
        Seq::empty()
    } else {
        segment_text(segments[0]) + segments_text(segments.drop_first())
    }
}

/// The texts of two lists of segments put together are the text of the
/// lists put together.
pub proof fn lemma_segments_text_append(a: Seq<SegmentModel>, b: Seq<SegmentModel>)
    ensures
        segments_text(a + b) == segments_text(a) + segments_text(b),
    decreases a.len(),
{
    if a.len() == 0 {
        assert(a + b =~= b);
    } else {
        assert((a + b).drop_first() =~= a.drop_first() + b);
        lemma_segments_text_append(a.drop_first(), b);
        assert(segment_text(a[0]) + (segments_text(a.drop_first()) + segments_text(b))
            =~= (segment_text(a[0]) + segments_text(a.drop_first())) + segments_text(b));
    }
}

/// What [`first_bracket_from`] finds is a bracketed span that lies within
/// the text, at or after where the search started.
pub proof fn lemma_first_bracket_from(s: Seq<char>, q: nat)
    ensures
        first_bracket_from(s, q) matches Some((p, len)) ==> q <= p < s.len() && bracketed_len(
            s.skip(p as int),
        ) == Some(len) && 2 <= len && p + len <= s.len(),
    decreases s.len() - q,
{
    if q < s.len() {
        lemma_bracketed_take(s.skip(q as int));
        if bracketed_len(s.skip(q as int)) is None {
            lemma_first_bracket_from(s, q + 1);
        }
    }
}

/// A name region splits into segments without losing or adding text: the
/// segments' texts, one after another, are the region.
pub proof fn lemma_name_segments_cover(region: Seq<char>)
    ensures
        segments_text(name_segments(region)) == region,
    decreases region.len(),
{
    lemma_first_bracket_from(region, 0);
    match first_bracket_from(region, 0) {
        Some((p, len)) => {
            let lead = if p > 0 {
                seq![SegmentModel::Unbracketed(region.take(p as int))]
            } else {
                Seq::empty()
            };
            let span = seq![SegmentModel::Bracketed(region.subrange(p as int, (p + len) as int))];
            let rest = region.skip((p + len) as int);
            lemma_name_segments_cover(rest);
            lemma_segments_text_append(lead, span);
            lemma_segments_text_append(lead + span, name_segments(rest));
            assert(segments_text(span) =~= region.subrange(p as int, (p + len) as int)) by {
                reveal_with_fuel(segments_text, 2);
                assert(span.drop_first() =~= Seq::<SegmentModel>::empty());
            }
            if p > 0 {
                assert(segments_text(lead) =~= region.take(p as int)) by {
                    reveal_with_fuel(segments_text, 2);
                    assert(lead.drop_first() =~= Seq::<SegmentModel>::empty());
                }
            }
            assert(region.take(p as int) + region.subrange(p as int, (p + len) as int) + rest
                =~= region);
        },
        None => {
            if region.len() > 0 {
                let one = seq![SegmentModel::Unbracketed(region)];
                reveal_with_fuel(segments_text, 2);
                assert(one.drop_first() =~= Seq::<SegmentModel>::empty());
                assert(segments_text(one) =~= region);
            }
        },
    }
}

/// A role set that is ordered longest first opens each cell with the
/// longest role that matches there: no matching role is longer than the
/// one chosen.
pub proof fn lemma_longest_role_wins(roles: Seq<Seq<char>>, s: Seq<char>, other: Seq<char>)
    requires
        roles_ordered(roles),
        roles.contains(other),
        role_matches(other, s),
    ensures
        take_role(roles, s) matches Some(role) && role_len(other) <= role_len(role),
{
    let k = prefix_len(roles, role_misses(s));
    lemma_prefix_len(roles, role_misses(s));
    let i = choose|i: int| 0 <= i < roles.len() && roles[i] == other;
    if i < k {
        assert(role_misses(s)(roles[i]));
    }
    if k < i {
        assert(role_before(roles[k as int], roles[i]));
    }
}

/// A role set is determined by its roles: two ordered lists of the same
/// roles are the same list.
pub proof fn lemma_ordered_roles_unique(a: Seq<Seq<char>>, b: Seq<Seq<char>>)
    requires
        roles_ordered(a),
        roles_ordered(b),
        forall|r: Seq<char>| a.contains(r) <==> b.contains(r),
    ensures
        a == b,
    decreases a.len(),
{
    if a.len() == 0 {
        if b.len() > 0 {
            assert(b.contains(b[0]));
        }
        assert(a =~= b);
    } else {
        assert(a.contains(a[0]));
        assert(b.len() > 0);
        assert(b.contains(b[0]));
        let j = choose|j: int| 0 <= j < b.len() && b[j] == a[0];
        let k = choose|k: int| 0 <= k < a.len() && a[k] == b[0];
        lemma_role_before_order(a[0], b[0], b[0]);
        if j > 0 && k > 0 {
            assert(role_before(b[0], b[j]));
            assert(role_before(a[0], a[k]));
        }
        assert(a[0] == b[0]);
        let a1 = a.drop_first();
        let b1 = b.drop_first();
        assert forall|r: Seq<char>| a1.contains(r) <==> b1.contains(r) by {
            if a1.contains(r) {
                let i = choose|i: int| 0 <= i < a1.len() && a1[i] == r;
                assert(role_before(a[0], a[i + 1]));
                lemma_role_before_order(r, r, r);
                assert(a.contains(r));
                let t = choose|t: int| 0 <= t < b.len() && b[t] == r;
                assert(b1[t - 1] == r);
            }
            if b1.contains(r) {
                let i = choose|i: int| 0 <= i < b1.len() && b1[i] == r;
                assert(role_before(b[0], b[i + 1]));
                lemma_role_before_order(r, r, r);
                assert(b.contains(r));
                let t = choose|t: int| 0 <= t < a.len() && a[t] == r;
                assert(a1[t - 1] == r);
            }
        }
        lemma_ordered_roles_unique(a1, b1);
        assert(a =~= seq![a[0]] + a1);
        assert(b =~= seq![b[0]] + b1);
    }
}

} // verus!
