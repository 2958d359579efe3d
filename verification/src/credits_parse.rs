//! The role-driven credit-line parser.
//!
//! The parser takes the [`CreditRoles`] of one language and walks a credit
//! line left to right, matching the longest registered role at each cell
//! boundary. The text between a role and the next role at a cell boundary
//! (or the end of the line) is that role's name region, which splits into
//! bracketed spans and the unbracketed text around them. A role-less line
//! may open with a bracketed span in place of a role; a line that opens
//! with neither is refused with the position of the unrecognized text.
//!
//! What the parser computes is stated in [`crate::credits_model`].

use crate::credits_model::{
    bracketed_len, is_bracket_char, is_separator_char, lemma_bracketed_take, lemma_lead_len,
    lemma_ordered_roles_unique, lemma_role_before_order, lemma_until_role_bound, matching_close, name_segments, not_bracket,
    parse_cells, parse_credit_model, role_before, role_len, role_matches, role_misses, roles_ordered,
    separator, take_role, text_less, until_role, LeadModel, PairModel, SegmentModel,
};
use crate::debug_text::{debug_char, debug_quoted, debug_quoted_char, debug_str};
use crate::escape::{append_separator_for_output, separator_output};
use crate::text::push_str;
use crate::timestamp::{decimal, decimal_padded, push_decimal};
use crate::descriptors::{find_language, lookup_language, CreditRole, CreditsDesc, Language};
use crate::text::{
    chars_of, has_char, lemma_prefix_len, lemma_prefix_len_is, lemma_suffix_len_is, saturate,
    skip_whitespace, span_while, string_of, suffix_len, utf8_len, vec_of,
};
use vstd::prelude::*;
use vstd::utf8::encode_utf8;

verus! {

/// Whether `c` separates the cells of a credit line.
pub fn is_separator(c: char) -> (result: bool)
    ensures
        result == is_separator_char(c),
{
    c == ':' || c == '：' || crate::text::is_whitespace(c)
}

fn is_bracket(c: char) -> (result: bool)
    ensures
        result == is_bracket_char(c),
{
    c == '【' || c == '】' || c == '[' || c == ']' || c == '(' || c == ')' || c == '（' || c == '）'
}

fn closing_bracket(open: char) -> (result: Option<char>)
    ensures
        result == matching_close(open),
{
    if open == '【' {
        Some('】')
    } else if open == '[' {
        Some(']')
    } else if open == '(' {
        Some(')')
    } else if open == '（' {
        Some('）')
    } else {
        None
    }
}

/// The length of the bracketed span that `chars[start..end]` opens with.
fn bracketed_in(chars: &Vec<char>, start: usize, end: usize) -> (result: Option<usize>)
    requires
        start <= end <= chars@.len(),
    ensures
        match bracketed_len(chars@.subrange(start as int, end as int)) {
            Some(n) => result == Some(n as usize),
            None => result is None,
        },
{
    let ghost s = chars@.subrange(start as int, end as int);
    if start >= end {
        return None;
    }
    let close = match closing_bracket(chars[start]) {
        Some(c) => c,
        None => {
            assert(s[0] == chars@[start as int]);
            return None;
        },
    };
    let mut i = start + 1;
    while i < end && !is_bracket(chars[i])
        invariant
            start < i <= end <= chars@.len(),
            forall|j: int| start < j < i ==> !is_bracket_char(#[trigger] chars@[j]),
        decreases end - i,
    {
        i = i + 1;
    }
    proof {
        let d = s.drop_first();
        assert forall|j: int| 0 <= j < i - start - 1 implies not_bracket()(#[trigger] d[j]) by {
            assert(d[j] == chars@[start + 1 + j]);
        }
        if i < end {
            assert(d[i - start - 1] == chars@[i as int]);
        }
        lemma_prefix_len_is(d, not_bracket(), i - start - 1);
        assert(s[0] == chars@[start as int]);
    }
    if i < end && chars[i] == close {
        proof {
            assert(s[i - start] == chars@[i as int]);
        }
        Some(i + 1 - start)
    } else {
        proof {
            if i < end {
                assert(s[i - start] == chars@[i as int]);
            }
        }
        None
    }
}

/// A bracketed span: an opening bracket of `【`, `[`, `(` or `（`, its
/// matching closing bracket at the end, and no bracket in between.
#[derive(Debug, PartialEq, Eq)]
pub struct Bracketed {
    text: String,
}

impl Bracketed {
    #[verifier::type_invariant]
    spec fn well_formed(self) -> bool {
        bracketed_len(self.text@) == Some(self.text@.len())
    }
}

impl View for Bracketed {
    type V = Seq<char>;

    closed spec fn view(&self) -> Seq<char> {
        self.text@
    }
}

/// Why a text is not a single bracketed span.
#[derive(Clone, Copy, Debug, PartialEq, Eq)]
#[non_exhaustive]
pub enum ParseBracketedError {
    /// The text does not open with a bracketed span: it is empty, opens
    /// with no opening bracket, holds another bracket before the matching
    /// close, or ends before it.
    ShapeMismatch,
    /// The text opens with a bracketed span and goes on with this
    /// character.
    UnexpectedCharacter(char),
}

impl Bracketed {
    /// The span `chars[start..start + len]`, which is the bracketed span
    /// of `chars[start..end]`.
    fn from_chars(chars: &Vec<char>, start: usize, len: usize, Ghost(end): Ghost<int>) -> (result:
        Bracketed)
        requires
            start <= end <= chars@.len(),
            bracketed_len(chars@.subrange(start as int, end)) == Some(len as nat),
        ensures
            result@ == chars@.subrange(start as int, start + len),
            start + len <= end,
    {
        let ghost s = chars@.subrange(start as int, end);
        let total = chars.len();
        proof {
            lemma_bracketed_take(s);
            assert(len <= s.len());
            assert(s.take(len as int) =~= chars@.subrange(start as int, start + len));
        }
        Bracketed { text: string_of(chars, start, start + len) }
    }

    /// Splits a leading bracketed span off `input`: the span, brackets
    /// included, and the rest of the text.
    pub fn take(input: &str) -> (result: Option<(Bracketed, String)>)
        ensures
            match bracketed_len(input@) {
                Some(n) => result matches Some((span, rest)) && span@ == input@.take(n as int)
                    && rest@ == input@.skip(n as int),
                None => result is None,
            },
    {
        let chars = chars_of(input);
        proof {
            assert(chars@.subrange(0, chars@.len() as int) =~= chars@);
        }
        match bracketed_in(&chars, 0, chars.len()) {
            Some(n) => {
                let span = Bracketed::from_chars(&chars, 0, n, Ghost(chars@.len() as int));
                let rest = string_of(&chars, n, chars.len());
                proof {
                    assert(chars@.subrange(0, n as int) =~= input@.take(n as int));
                    assert(chars@.subrange(n as int, chars@.len() as int) =~= input@.skip(n as int));
                }
                Some((span, rest))
            },
            None => None,
        }
    }

    /// The bracketed span that makes up the whole of `value`.
    pub fn new(value: &str) -> (result: Result<Bracketed, ParseBracketedError>)
        ensures
            match bracketed_len(value@) {
                None => result == Err::<Bracketed, ParseBracketedError>(
                    ParseBracketedError::ShapeMismatch,
                ),
                Some(n) => if n == value@.len() {
                    result matches Ok(span) && span@ == value@
                } else {
                    result == Err::<Bracketed, ParseBracketedError>(
                        ParseBracketedError::UnexpectedCharacter(value@[n as int]),
                    )
                },
            },
    {
        let chars = chars_of(value);
        proof {
            assert(chars@.subrange(0, chars@.len() as int) =~= chars@);
        }
        match bracketed_in(&chars, 0, chars.len()) {
            Some(n) => {
                proof {
                    lemma_bracketed_take(chars@);
                }
                if n == chars.len() {
                    let span = Bracketed::from_chars(&chars, 0, n, Ghost(chars@.len() as int));
                    proof {
                        assert(chars@.subrange(0, n as int) =~= value@);
                    }
                    Ok(span)
                } else {
                    Err(ParseBracketedError::UnexpectedCharacter(chars[n]))
                }
            },
            None => Err(ParseBracketedError::ShapeMismatch),
        }
    }

    /// The bracketed text, brackets included.
    pub fn as_str(&self) -> (result: &str)
        ensures
            result@ == self@,
            bracketed_len(self@) == Some(self@.len()),
    {
        proof {
            use_type_invariant(self);
        }
        self.text.as_str()
    }
}

/// A run of a name region that holds no bracketed span.
#[derive(Debug, PartialEq, Eq)]
pub struct Unbracketed(pub String);

impl View for Unbracketed {
    type V = Seq<char>;

    open spec fn view(&self) -> Seq<char> {
        self.0@
    }
}

impl Unbracketed {
    /// The text, as it stands in the credit line.
    pub fn as_str(&self) -> (result: &str)
        ensures
            result@ == self@,
    {
        self.0.as_str()
    }
}

/// A unit of the name region of a credit pair.
#[derive(Debug, PartialEq, Eq)]
pub enum NameSegment {
    /// Text that holds no bracketed span.
    Unbracketed(Unbracketed),
    /// A bracketed span, brackets included.
    Bracketed(Bracketed),
}

impl View for NameSegment {
    type V = SegmentModel;

    open spec fn view(&self) -> SegmentModel {
        match self {
            NameSegment::Unbracketed(u) => SegmentModel::Unbracketed(u@),
            NameSegment::Bracketed(b) => SegmentModel::Bracketed(b@),
        }
    }
}

/// The models of a list of segments.
pub open spec fn segments_view(segments: Seq<NameSegment>) -> Seq<SegmentModel> {
    segments.map_values(|segment: NameSegment| segment@)
}

/// The first bracketed span in `chars[cur..hi]`: where it starts, and
/// its length.
fn first_bracket(chars: &Vec<char>, cur: usize, hi: usize) -> (result: Option<(usize, usize)>)
    requires
        cur <= hi <= chars@.len(),
    ensures
        match crate::credits_model::first_bracket_from(chars@.subrange(cur as int, hi as int), 0) {
            Some((p, n)) => result == Some(((cur + p) as usize, n as usize)) && cur + p < hi
                && bracketed_len(chars@.subrange(cur + p, hi as int)) == Some(n),
            None => result is None,
        },
{
    let ghost region = chars@.subrange(cur as int, hi as int);
    let mut q = cur;
    while q < hi
        invariant
            cur <= q <= hi <= chars@.len(),
            region == chars@.subrange(cur as int, hi as int),
            crate::credits_model::first_bracket_from(region, 0)
                == crate::credits_model::first_bracket_from(region, (q - cur) as nat),
        decreases hi - q,
    {
        assert(region.skip(q - cur) =~= chars@.subrange(q as int, hi as int));
        match bracketed_in(chars, q, hi) {
            Some(n) => {
                return Some((q, n));
            },
            None => {
                q = q + 1;
            },
        }
    }
    None
}

/// The segments of the name region `chars[lo..hi]`.
fn parse_name_region(chars: &Vec<char>, lo: usize, hi: usize) -> (result: Vec<NameSegment>)
    requires
        lo <= hi <= chars@.len(),
    ensures
        segments_view(result@) == name_segments(chars@.subrange(lo as int, hi as int)),
{
    let mut segments: Vec<NameSegment> = Vec::new();
    let mut cur = lo;
    while cur < hi
        invariant
            lo <= cur <= hi <= chars@.len(),
            segments_view(segments@) + name_segments(chars@.subrange(cur as int, hi as int))
                == name_segments(chars@.subrange(lo as int, hi as int)),
        decreases hi - cur,
    {
        let ghost region = chars@.subrange(cur as int, hi as int);
        let ghost old_view = segments_view(segments@);
        match first_bracket(chars, cur, hi) {
            Some((q, n)) => {
                proof {
                    lemma_bracketed_take(chars@.subrange(q as int, hi as int));
                    assert(region.take(q - cur) =~= chars@.subrange(cur as int, q as int));
                    assert(region.subrange(q - cur, q - cur + n) =~= chars@.subrange(
                        q as int,
                        q + n,
                    ));
                    assert(region.skip(q - cur + n) =~= chars@.subrange(q + n, hi as int));
                }
                if q > cur {
                    segments.push(NameSegment::Unbracketed(Unbracketed(string_of(chars, cur, q))));
                }
                let span = Bracketed::from_chars(chars, q, n, Ghost(hi as int));
                segments.push(NameSegment::Bracketed(span));
                proof {
                    let lead = if q > cur {
                        seq![SegmentModel::Unbracketed(chars@.subrange(cur as int, q as int))]
                    } else {
                        Seq::empty()
                    };
                    assert(segments_view(segments@) =~= old_view + lead + seq![
                        SegmentModel::Bracketed(chars@.subrange(q as int, q + n)),
                    ]);
                    assert(segments_view(segments@) + name_segments(
                        chars@.subrange(q + n, hi as int),
                    ) =~= old_view + name_segments(region));
                }
                cur = q + n;
            },
            None => {
                segments.push(NameSegment::Unbracketed(Unbracketed(string_of(chars, cur, hi))));
                proof {
                    assert(chars@.subrange(hi as int, hi as int) =~= Seq::<char>::empty());
                    assert(segments_view(segments@) =~= old_view + seq![
                        SegmentModel::Unbracketed(region),
                    ]);
                }
                cur = hi;
            },
        }
    }
    proof {
        assert(chars@.subrange(cur as int, hi as int) =~= Seq::<char>::empty());
        assert(segments_view(segments@) + Seq::<SegmentModel>::empty() =~= segments_view(
            segments@,
        ));
    }
    segments
}

/// What opens a credit line's cell.
#[derive(Debug, PartialEq, Eq)]
pub enum CreditLead {
    /// A registered role.
    Role(String),
    /// A bracketed span that opens a role-less line in place of a role.
    Special(Bracketed),
}

impl View for CreditLead {
    type V = LeadModel;

    open spec fn view(&self) -> LeadModel {
        match self {
            CreditLead::Role(role) => LeadModel::Role(role@),
            CreditLead::Special(span) => LeadModel::Special(span@),
        }
    }
}

/// One cell of a credit line: its lead, the separator text after the
/// lead, and the segments of its name region.
#[derive(Debug, PartialEq, Eq)]
pub struct CreditPair {
    /// What opens the cell.
    pub lead: CreditLead,
    /// The separator between the lead and the name, as written.
    pub separator: String,
    /// The name region, split into bracketed and unbracketed segments;
    /// empty for a role-only header.
    pub name_segments: Vec<NameSegment>,
}

impl View for CreditPair {
    type V = PairModel;

    open spec fn view(&self) -> PairModel {
        PairModel {
            lead: self.lead@,
            separator: self.separator@,
            name_segments: segments_view(self.name_segments@),
        }
    }
}

/// The models of a list of credit pairs.
pub open spec fn pairs_view(pairs: Seq<CreditPair>) -> Seq<PairModel> {
    pairs.map_values(|pair: CreditPair| pair@)
}

/// How a credit pair's separator is laid out when rendered.
#[derive(Debug, PartialEq, Eq)]
pub enum SeparatorStyle {
    /// The separator holds a full-width colon: a full-width colon goes
    /// between the lead and the name, with no spaces.
    FullWidthColon,
    /// The separator holds an ASCII colon and no full-width one: the colon
    /// goes inside the lead's span, followed by one space.
    AsciiColon,
    /// The separator holds no colon; its text is kept.
    Spaces(String),
}

/// What goes between the lead span and the name span for `style`.
pub open spec fn between_spans(style: SeparatorStyle) -> Seq<char> {
    match style {
        SeparatorStyle::AsciiColon => seq![' '],
        SeparatorStyle::FullWidthColon => seq!['：'],
        SeparatorStyle::Spaces(raw) => separator_output(raw@),
    }
}

impl CreditPair {
    /// The layout that this pair's separator selects: a full-width colon
    /// wins, then an ASCII colon, and a colon-free separator is kept.
    pub fn separator_style(&self) -> (result: SeparatorStyle)
        ensures
            has_char(self.separator@, '：') ==> result == SeparatorStyle::FullWidthColon,
            !has_char(self.separator@, '：') && has_char(self.separator@, ':') ==> result
                == SeparatorStyle::AsciiColon,
            !has_char(self.separator@, '：') && !has_char(self.separator@, ':') ==> (result matches
                SeparatorStyle::Spaces(raw) && raw@ == self.separator@),
    {
        let chars = chars_of(self.separator.as_str());
        let mut i: usize = 0;
        let mut ascii = false;
        while i < chars.len()
            invariant
                i <= chars@.len(),
                chars@ == self.separator@,
                forall|j: int| 0 <= j < i ==> chars@[j] != '：',
                ascii == exists|j: int| 0 <= j < i && chars@[j] == ':',
            decreases chars@.len() - i,
        {
            if chars[i] == '：' {
                return SeparatorStyle::FullWidthColon;
            }
            if chars[i] == ':' {
                ascii = true;
            }
            i = i + 1;
        }
        if ascii {
            SeparatorStyle::AsciiColon
        } else {
            SeparatorStyle::Spaces(string_of(&chars, 0, chars.len()))
        }
    }
}

impl SeparatorStyle {
    /// The colon that belongs inside the lead's span: an ASCII colon for
    /// the Latin layout, nothing otherwise.
    pub fn lead_span_suffix(&self) -> (result: &'static str)
        ensures
            result@ == (if *self == SeparatorStyle::AsciiColon {
                seq![':']
            } else {
                Seq::empty()
            }),
    {
        proof {
            reveal_strlit(":");
            reveal_strlit("");
        }
        match self {
            SeparatorStyle::AsciiColon => ":",
            _ => "",
        }
    }

    /// Appends the separator that goes between the lead span and the name
    /// span: one space after a Latin colon, a full-width colon, or the
    /// colon-free separator as [`append_separator_for_output`] writes it.
    pub fn append_between_spans(&self, output: &mut String)
        ensures
            final(output)@ == old(output)@ + between_spans(*self),
    {
        match self {
            SeparatorStyle::AsciiColon => crate::text::push_char(output, ' '),
            SeparatorStyle::FullWidthColon => crate::text::push_char(output, '：'),
            SeparatorStyle::Spaces(raw) => append_separator_for_output(output, raw.as_str()),
        }
    }
}

/// The models of a list of character vectors.
pub open spec fn chars_view(v: Seq<Vec<char>>) -> Seq<Seq<char>> {
    v.map_values(|r: Vec<char>| r@)
}

/// The models of a list of strings.
pub open spec fn strings_view(v: Seq<String>) -> Seq<Seq<char>> {
    v.map_values(|r: String| r@)
}

/// The label that one credit-role entry gives for `language`, if any.
pub open spec fn role_label(entry: Seq<(Language, CreditRole)>, language: Language) -> Option<
    Seq<char>,
> {
    match lookup_language(entry, language) {
        Some(role) => Some(role@),
        None => None,
    }
}

/// Whether some entry of `entries` gives `role` as its label for
/// `language`.
pub open spec fn declares_role(
    entries: Seq<Vec<(Language, CreditRole)>>,
    language: Language,
    role: Seq<char>,
) -> bool {
    exists|k: int| 0 <= k < entries.len() && #[trigger] role_label(entries[k]@, language) == Some(role)
}

/// The role set that `entries` declare for `language`: their labels in
/// that language, ordered as a role set.
pub open spec fn role_set(entries: Seq<Vec<(Language, CreditRole)>>, language: Language) -> Seq<
    Seq<char>,
> {
    choose|roles: Seq<Seq<char>>|
        roles_ordered(roles) && forall|r: Seq<char>| #[trigger] roles.contains(r) <==> declares_role(
            entries,
            language,
            r,
        )
}

/// The role set of one language: the labels of the descriptor's credit
/// roles in that language, longest first (in UTF-8 bytes), equal lengths
/// in ascending order, each once.
#[derive(Debug)]
pub struct CreditRoles {
    roles: Vec<Vec<char>>,
}

impl CreditRoles {
    #[verifier::type_invariant]
    spec fn ordered(self) -> bool {
        roles_ordered(chars_view(self.roles@))
    }
}

impl View for CreditRoles {
    type V = Seq<Seq<char>>;

    closed spec fn view(&self) -> Seq<Seq<char>> {
        chars_view(self.roles@)
    }
}

/// Whether `a` comes before `b` in code point order.
fn text_precedes(a: &Vec<char>, b: &Vec<char>) -> (result: bool)
    ensures
        result == text_less(a@, b@),
{
    let mut i: usize = 0;
    proof {
        assert(a@.skip(0) =~= a@);
        assert(b@.skip(0) =~= b@);
    }
    while i < a.len() && i < b.len() && a[i] == b[i]
        invariant
            i <= a@.len(),
            i <= b@.len(),
            text_less(a@, b@) == text_less(a@.skip(i as int), b@.skip(i as int)),
        decreases a@.len() - i,
    {
        proof {
            assert(a@.skip(i as int).drop_first() =~= a@.skip(i + 1));
            assert(b@.skip(i as int).drop_first() =~= b@.skip(i + 1));
        }
        i = i + 1;
    }
    if i == b.len() {
        false
    } else if i == a.len() {
        true
    } else {
        (a[i] as u32) < (b[i] as u32)
    }
}

/// Whether `a` and `b` hold the same characters.
fn same_chars(a: &Vec<char>, b: &Vec<char>) -> (result: bool)
    ensures
        result == (a@ == b@),
{
    if a.len() != b.len() {
        return false;
    }
    let mut i: usize = 0;
    while i < a.len()
        invariant
            i <= a@.len(),
            a@.len() == b@.len(),
            forall|j: int| 0 <= j < i ==> a@[j] == b@[j],
        decreases a@.len() - i,
    {
        if a[i] != b[i] {
            return false;
        }
        i = i + 1;
    }
    proof {
        assert(a@ =~= b@);
    }
    true
}

/// Whether role `a` comes before role `b` in a role set.
fn role_precedes(a: &Vec<char>, b: &Vec<char>) -> (result: bool)
    ensures
        result == role_before(a@, b@),
{
    let la = utf8_len(a);
    let lb = utf8_len(b);
    la > lb || (la == lb && text_precedes(a, b))
}

/// Adds `label` to the ordered role list `roles`, unless it is there.
fn insert_role(roles: &mut Vec<Vec<char>>, label: Vec<char>)
    requires
        roles_ordered(chars_view(old(roles)@)),
    ensures
        roles_ordered(chars_view(final(roles)@)),
        forall|r: Seq<char>| #[trigger] chars_view(final(roles)@).contains(r) <==> (chars_view(
            old(roles)@,
        ).contains(r) || r == label@),
{
    let ghost old_view = chars_view(roles@);
    let mut j: usize = 0;
    while j < roles.len() && role_precedes(&roles[j], &label)
        invariant
            j <= roles@.len(),
            roles@ == old(roles)@,
            old_view == chars_view(roles@),
            forall|t: int| 0 <= t < j ==> role_before(#[trigger] old_view[t], label@),
        decreases roles@.len() - j,
    {
        j = j + 1;
    }
    if j < roles.len() && same_chars(&roles[j], &label) {
        proof {
            assert(old_view[j as int] == label@);
        }
        return;
    }
    let ghost r = label@;
    roles.insert(j, label);
    proof {
        let new_view = chars_view(roles@);
        assert(new_view =~= old_view.insert(j as int, r));
        assert forall|a: int, b: int| 0 <= a < b < new_view.len() implies role_before(
            #[trigger] new_view[a],
            #[trigger] new_view[b],
        ) by {
            if a < j && b > j {
                assert(old_view[a] == new_view[a]);
                assert(old_view[b - 1] == new_view[b]);
            } else if a == j && b > j {
                lemma_role_before_order(r, old_view[j as int], old_view[b - 1]);
                lemma_role_before_order(old_view[j as int], r, r);
            } else if a > j {
                assert(old_view[a - 1] == new_view[a]);
            }
        }
        assert forall|x: Seq<char>| #[trigger] new_view.contains(x) <==> (old_view.contains(x) || x
            == r) by {
            if new_view.contains(x) {
                let k = choose|k: int| 0 <= k < new_view.len() && new_view[k] == x;
                if k < j {
                    assert(old_view[k] == x);
                } else if k > j {
                    assert(old_view[k - 1] == x);
                }
            }
            if old_view.contains(x) {
                let k = choose|k: int| 0 <= k < old_view.len() && old_view[k] == x;
                if k < j {
                    assert(new_view[k] == x);
                } else {
                    assert(new_view[k + 1] == x);
                }
            }
            if x == r {
                assert(new_view[j as int] == x);
            }
        }
    }
}

impl CreditRoles {
    /// The role set of `language`: the labels that the descriptor's credit
    /// roles give in that language, longest first, each once.
    pub fn from_descriptor(descriptor: &CreditsDesc, language: &Language) -> (result: CreditRoles)
        ensures
            result@ == role_set(descriptor.credit_roles@, *language),
            roles_ordered(result@),
            forall|r: Seq<char>| #[trigger] result@.contains(r) <==> declares_role(
                descriptor.credit_roles@,
                *language,
                r,
            ),
    {
        let ghost entries = descriptor.credit_roles@;
        let mut roles: Vec<Vec<char>> = Vec::new();
        let mut i: usize = 0;
        proof {
            assert(chars_view(roles@) =~= Seq::<Seq<char>>::empty());
        }
        while i < descriptor.credit_roles.len()
            invariant
                i <= entries.len(),
                entries == descriptor.credit_roles@,
                roles_ordered(chars_view(roles@)),
                forall|r: Seq<char>| #[trigger] chars_view(roles@).contains(r) <==> declares_role(
                    entries.take(i as int),
                    *language,
                    r,
                ),
            decreases entries.len() - i,
        {
            let ghost before = chars_view(roles@);
            let found = find_language(&descriptor.credit_roles[i], *language);
            proof {
                assert forall|r: Seq<char>| declares_role(entries.take(i + 1), *language, r) <==> (
                declares_role(entries.take(i as int), *language, r) || role_label(
                    entries[i as int]@,
                    *language,
                ) == Some(r)) by {
                    if declares_role(entries.take(i + 1), *language, r) {
                        let k = choose|k: int|
                            0 <= k < i + 1 && #[trigger] role_label(
                                entries.take(i + 1)[k]@,
                                *language,
                            ) == Some(r);
                        if k < i {
                            assert(entries.take(i as int)[k] == entries.take(i + 1)[k]);
                        }
                    }
                    if declares_role(entries.take(i as int), *language, r) {
                        let k = choose|k: int|
                            0 <= k < i && #[trigger] role_label(
                                entries.take(i as int)[k]@,
                                *language,
                            ) == Some(r);
                        assert(entries.take(i + 1)[k] == entries.take(i as int)[k]);
                    }
                    if role_label(entries[i as int]@, *language) == Some(r) {
                        assert(entries.take(i + 1)[i as int] == entries[i as int]);
                    }
                }
            }
            match found {
                Some(role) => {
                    let label = chars_of(role.as_str());
                    insert_role(&mut roles, label);
                    proof {
                        assert(role_label(entries[i as int]@, *language) == Some(label@));
                        assert forall|r: Seq<char>| #[trigger] chars_view(roles@).contains(r) <==> (
                        before.contains(r) || role_label(entries[i as int]@, *language) == Some(
                            r,
                        )) by {}
                    }
                },
                None => {
                    proof {
                        assert(role_label(entries[i as int]@, *language) is None);
                    }
                },
            }
            proof {
                assert forall|r: Seq<char>| #[trigger] chars_view(roles@).contains(r) <==> declares_role(
                    entries.take(i + 1),
                    *language,
                    r,
                ) by {
                    assert(before.contains(r) <==> declares_role(
                        entries.take(i as int),
                        *language,
                        r,
                    ));
                }
            }
            i = i + 1;
        }
        proof {
            assert(entries.take(entries.len() as int) =~= entries);
            let chosen = role_set(entries, *language);
            assert(roles_ordered(chosen) && forall|r: Seq<char>| #[trigger] chosen.contains(r)
                <==> declares_role(entries, *language, r));
            lemma_ordered_roles_unique(chars_view(roles@), chosen);
        }
        CreditRoles { roles }
    }

    /// The roles, in the set's order.
    pub fn labels(&self) -> (result: Vec<String>)
        ensures
            strings_view(result@) == self@,
    {
        let mut labels: Vec<String> = Vec::new();
        let mut i: usize = 0;
        while i < self.roles.len()
            invariant
                i <= self.roles@.len(),
                strings_view(labels@) =~= chars_view(self.roles@).take(i as int),
            decreases self.roles@.len() - i,
        {
            let label = string_of(&self.roles[i], 0, self.roles[i].len());
            proof {
                assert(self.roles@[i as int]@.subrange(0, self.roles@[i as int]@.len() as int)
                    =~= self.roles@[i as int]@);
            }
            assert(label@ == chars_view(self.roles@)[i as int]);
            let ghost before = labels@;
            labels.push(label);
            proof {
                assert(strings_view(labels@) =~= strings_view(before).push(label@));
                assert(strings_view(labels@) =~= chars_view(self.roles@).take(i + 1));
            }
            i = i + 1;
        }
        labels
    }
}

/// Whether `role` opens `chars[start..]` and is followed there by a
/// separator or the end.
fn role_matches_at(role: &Vec<char>, chars: &Vec<char>, start: usize) -> (result: bool)
    requires
        start <= chars@.len(),
    ensures
        result == role_matches(role@, chars@.skip(start as int)),
{
    let ghost s = chars@.skip(start as int);
    if role.len() > chars.len() - start {
        return false;
    }
    let total = chars.len();
    let mut i: usize = 0;
    while i < role.len()
        invariant
            i <= role@.len(),
            total == chars@.len(),
            start + role@.len() <= chars@.len(),
            s == chars@.skip(start as int),
            forall|j: int| 0 <= j < i ==> role@[j] == chars@[start + j],
        decreases role@.len() - i,
    {
        if role[i] != chars[start + i] {
            proof {
                assert(s.take(role@.len() as int)[i as int] == chars@[start + i]);
            }
            return false;
        }
        i = i + 1;
    }
    proof {
        assert(s.take(role@.len() as int) =~= role@);
    }
    let end = start + role.len();
    end == chars.len() || is_separator(chars[end])
}

/// Which role of `roles`, in their order, opens a cell at `chars[start..]`.
fn take_role_at(roles: &Vec<Vec<char>>, chars: &Vec<char>, start: usize) -> (result: Option<usize>)
    requires
        start <= chars@.len(),
    ensures
        match take_role(chars_view(roles@), chars@.skip(start as int)) {
            Some(role) => result matches Some(k) && k < roles@.len() && roles@[k as int]@ == role,
            None => result is None,
        },
{
    let ghost view = chars_view(roles@);
    let ghost p = role_misses(chars@.skip(start as int));
    let mut k: usize = 0;
    while k < roles.len()
        invariant
            k <= roles@.len(),
            view == chars_view(roles@),
            p == role_misses(chars@.skip(start as int)),
            start <= chars@.len(),
            forall|j: int| 0 <= j < k ==> p(#[trigger] view[j]),
        decreases roles@.len() - k,
    {
        if role_matches_at(&roles[k], chars, start) {
            proof {
                lemma_prefix_len_is(view, p, k as int);
            }
            return Some(k);
        }
        k = k + 1;
    }
    proof {
        lemma_prefix_len_is(view, p, k as int);
    }
    None
}

/// Where the name region that starts at `lo` ends: the next cell boundary
/// at which a role opens a cell, or the end of the line.
fn until_role_at(roles: &Vec<Vec<char>>, chars: &Vec<char>, lo: usize) -> (result: usize)
    requires
        lo <= chars@.len(),
    ensures
        result == lo + until_role(chars_view(roles@), chars@.skip(lo as int), 0),
        lo <= result <= chars@.len(),
{
    let ghost s = chars@.skip(lo as int);
    let ghost view = chars_view(roles@);
    let mut c: usize = lo;
    while c < chars.len()
        invariant
            lo <= c <= chars@.len(),
            s == chars@.skip(lo as int),
            view == chars_view(roles@),
            until_role(view, s, 0) == until_role(view, s, (c - lo) as nat),
        decreases chars@.len() - c,
    {
        let boundary = c == lo || is_separator(chars[c - 1]);
        proof {
            assert(s.skip(c - lo) =~= chars@.skip(c as int));
            if c > lo {
                assert(s[c - lo - 1] == chars@[c - 1]);
            }
        }
        if boundary {
            if take_role_at(roles, chars, c).is_some() {
                return c;
            }
        }
        c = c + 1;
    }
    c
}

/// The start of the run of separators that ends at `end`, looking no
/// further back than `floor`.
fn back_over_separators(chars: &Vec<char>, floor: usize, end: usize) -> (start: usize)
    requires
        floor <= end <= chars@.len(),
    ensures
        start == end - suffix_len(chars@.subrange(floor as int, end as int), separator()),
        floor <= start <= end,
{
    let mut start = end;
    while start > floor && is_separator(chars[start - 1])
        invariant
            floor <= start <= end <= chars@.len(),
            forall|j: int| start <= j < end ==> is_separator_char(#[trigger] chars@[j]),
        decreases start,
    {
        start = start - 1;
    }
    proof {
        let s = chars@.subrange(floor as int, end as int);
        assert forall|j: int| s.len() - (end - start) <= j < s.len() implies separator()(
            #[trigger] s[j],
        ) by {
            assert(s[j] == chars@[floor + j]);
        }
        if end - start < s.len() {
            assert(s[s.len() - (end - start) - 1] == chars@[start - 1]);
        }
        lemma_suffix_len_is(s, separator(), end - start);
    }
    start
}

/// A credit line that holds text no role or bracketed span opens.
#[derive(Debug, PartialEq, Eq)]
pub struct UnknownRole {
    /// The whole credit line.
    pub line: String,
    /// The byte offset of the unrecognized text.
    pub offset: usize,
}

/// Why a credit line cannot be parsed.
#[derive(Debug, PartialEq, Eq)]
#[non_exhaustive]
pub enum ParseCreditError {
    /// The line holds text that no known role opens.
    UnknownRole(UnknownRole),
}

/// The pairs of a parse so far, put before the outcome of the rest.
pub open spec fn after_pairs(done: Seq<PairModel>, rest: Result<Seq<PairModel>, nat>) -> Result<
    Seq<PairModel>,
    nat,
> {
    match rest {
        Ok(pairs) => Ok(done + pairs),
        Err(pos) => Err(pos),
    }
}

/// Parses a credit line into its cells with the role set `roles`: each
/// cell opens with the first role of `roles` (the longest) that the text
/// opens with and that a separator or the end follows, or on a role-less
/// line with a bracketed span.
pub fn parse_credit_line(line: &str, roles: &CreditRoles) -> (result: Result<
    Vec<CreditPair>,
    ParseCreditError,
>)
    ensures
        match parse_credit_model(roles@, line@) {
            Ok(pairs) => result matches Ok(v) && pairs_view(v@) == pairs,
            Err(pos) => result matches Err(ParseCreditError::UnknownRole(e)) && e.line@ == line@
                && e.offset == saturate(encode_utf8(line@.take(pos as int)).len() as int),
        },
{
    let ghost view = roles@;
    let chars = chars_of(line);
    let mut pos = skip_whitespace(&chars, 0);
    proof {
        assert(chars@.skip(0) =~= chars@);
    }
    let mut pairs: Vec<CreditPair> = Vec::new();
    while pos < chars.len()
        invariant
            pos <= chars@.len(),
            chars@ == line@,
            view == roles@,
            view == chars_view(roles.roles@),
            parse_credit_model(view, line@) == after_pairs(
                pairs_view(pairs@),
                parse_cells(view, line@, pos as nat),
            ),
        decreases chars@.len() - pos,
    {
        let ghost s = chars@.skip(pos as int);
        proof {
            lemma_lead_len(view, s);
        }
        let (lead, after_lead) = match take_role_at(&roles.roles, &chars, pos) {
            Some(k) => {
                let role = string_of(&roles.roles[k], 0, roles.roles[k].len());
                proof {
                    assert(roles.roles@[k as int]@.subrange(0, roles.roles@[k as int]@.len() as int)
                        =~= roles.roles@[k as int]@);
                }
                (CreditLead::Role(role), pos + roles.roles[k].len())
            },
            None => {
                proof {
                    assert(chars@.subrange(pos as int, chars@.len() as int) =~= s);
                }
                match bracketed_in(&chars, pos, chars.len()) {
                    Some(n) => {
                        let span = Bracketed::from_chars(&chars, pos, n, Ghost(chars@.len() as int));
                        proof {
                            assert(chars@.subrange(pos as int, pos + n) =~= s.take(n as int));
                        }
                        (CreditLead::Special(span), pos + n)
                    },
                    None => {
                        let head = vec_of(&chars, 0, pos);
                        let offset = utf8_len(&head);
                        proof {
                            assert(head@ =~= line@.take(pos as int));
                        }
                        let whole = string_of(&chars, 0, chars.len());
                        proof {
                            assert(chars@.subrange(0, chars@.len() as int) =~= line@);
                        }
                        return Err(ParseCreditError::UnknownRole(UnknownRole { line: whole, offset }));
                    },
                }
            },
        };
        let sep_end = span_while(&chars, after_lead, is_separator, Ghost(separator()));
        let name_end = until_role_at(&roles.roles, &chars, sep_end);
        let trim_end = back_over_separators(&chars, sep_end, name_end);
        let name_segments = parse_name_region(&chars, sep_end, trim_end);
        let next = span_while(&chars, name_end, is_separator, Ghost(separator()));
        let separator_text = string_of(&chars, after_lead, sep_end);
        let pair = CreditPair { lead, separator: separator_text, name_segments };
        proof {
            let raw = line@.subrange(sep_end as int, name_end as int);
            assert(raw.take(raw.len() - suffix_len(raw, separator())) =~= chars@.subrange(
                sep_end as int,
                trim_end as int,
            ));
            assert(line@.skip(sep_end as int) =~= chars@.skip(sep_end as int));
            if after_lead == pos {
                lemma_prefix_len(chars@.skip(after_lead as int), separator());
                assert(chars@.skip(after_lead as int)[0] == s[0]);
            }
            let old_done = pairs_view(pairs@);
            assert(after_pairs(old_done, parse_cells(view, line@, pos as nat)) == after_pairs(
                old_done.push(pair@),
                parse_cells(view, line@, next as nat),
            )) by {
                match parse_cells(view, line@, next as nat) {
                    Ok(rest) => {
                        assert(old_done + (seq![pair@] + rest) =~= old_done.push(pair@) + rest);
                    },
                    Err(p) => {},
                }
            }
        }
        let ghost before = pairs@;
        pairs.push(pair);
        proof {
            assert(pairs_view(pairs@) =~= pairs_view(before).push(pairs@.last()@));
        }
        pos = next;
    }
    proof {
        assert(pairs_view(pairs@) + Seq::<PairModel>::empty() =~= pairs_view(pairs@));
    }
    Ok(pairs)
}

/// What an unknown-role error says.
pub open spec fn unknown_role_message(line: Seq<char>, offset: usize) -> Seq<char> {
    "credit line "@ + debug_str(line) + " contains unrecognized text at byte offset "@ + decimal(
        offset as nat,
    ) + "; expected a known credit role from `credits.yaml`"@
}

impl UnknownRole {
    /// What the error says: the line, and the byte offset of the text no
    /// role opens.
    pub fn to_string(&self) -> (result: String)
        ensures
            result@ == unknown_role_message(self.line@, self.offset),
    {
        let mut output = String::new();
        push_str(&mut output, "credit line ");
        let quoted = debug_quoted(self.line.as_str());
        push_str(&mut output, quoted.as_str());
        push_str(&mut output, " contains unrecognized text at byte offset ");
        push_decimal(&mut output, self.offset as u64, 0);
        push_str(&mut output, "; expected a known credit role from `credits.yaml`");
        proof {
            assert(decimal_padded(self.offset as nat, 0) == decimal(self.offset as nat));
        }
        output
    }
}

impl ParseCreditError {
    /// What the error says.
    pub fn to_string(&self) -> (result: String)
        ensures
            match self {
                ParseCreditError::UnknownRole(e) => result@ == unknown_role_message(e.line@, e.offset),
            },
    {
        match self {
            ParseCreditError::UnknownRole(e) => e.to_string(),
        }
    }
}

impl ParseBracketedError {
    /// What the error says.
    pub fn to_string(&self) -> (result: String)
        ensures
            result@ == match *self {
                ParseBracketedError::ShapeMismatch => "input is not a valid bracketed span"@,
                ParseBracketedError::UnexpectedCharacter(c) => "unexpected character "@
                    + debug_char(c)
                    + " after the bracketed span; `TryFrom` requires end of input there"@,
            },
    {
        let mut output = String::new();
        match self {
            ParseBracketedError::ShapeMismatch => {
                push_str(&mut output, "input is not a valid bracketed span");
            },
            ParseBracketedError::UnexpectedCharacter(c) => {
                push_str(&mut output, "unexpected character ");
                let quoted = debug_quoted_char(*c);
                push_str(&mut output, quoted.as_str());
                push_str(
                    &mut output,
                    " after the bracketed span; `TryFrom` requires end of input there",
                );
            },
        }
        output
    }
}

} // verus!
