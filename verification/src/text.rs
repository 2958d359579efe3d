//! Character-level primitives shared by the parsers and renderers.
//!
//! Text is modelled by its sequence of characters (`Seq<char>`, the view
//! of `str` and `String`). The classification predicates mirror the ones
//! of `char` in the standard library, written out in full.

use vstd::prelude::*;
use vstd::string::*;
use vstd::utf8::{char_is_scalar, encode_scalar, encode_utf8};

verus! {

/// Whether `c` has the Unicode `White_Space` property, which is what
/// `char::is_whitespace` reports.
pub open spec fn is_ws(c: char) -> bool {
    let n = c as u32;
    ||| (0x09 <= n && n <= 0x0D)
    ||| n == 0x20
    ||| n == 0x85
    ||| n == 0xA0
    ||| n == 0x1680
    ||| (0x2000 <= n && n <= 0x200A)
    ||| n == 0x2028
    ||| n == 0x2029
    ||| n == 0x202F
    ||| n == 0x205F
    ||| n == 0x3000
}

/// Whether `c` is in the Unicode general category `Cc`, which is what
/// `char::is_control` reports.
pub open spec fn is_ctrl(c: char) -> bool {
    let n = c as u32;
    n <= 0x1F || (0x7F <= n && n <= 0x9F)
}

/// Whether `c` is an ASCII lowercase letter.
pub open spec fn is_lower(c: char) -> bool {
    'a' <= c && c <= 'z'
}

/// Whether `c` is an ASCII letter.
pub open spec fn is_alpha(c: char) -> bool {
    is_lower(c) || ('A' <= c && c <= 'Z')
}

/// The number of leading elements of `s` that satisfy `p`.
pub open spec fn prefix_len<A>(s: Seq<A>, p: spec_fn(A) -> bool) -> nat
    decreases s.len(),
{
    if s.len() == 0 {
        0
    } else if p(s[0]) {
        1 + prefix_len(s.drop_first(), p)
    } else {
        0
    }
}

/// The number of trailing elements of `s` that satisfy `p`.
pub open spec fn suffix_len<A>(s: Seq<A>, p: spec_fn(A) -> bool) -> nat
    decreases s.len(),
{
    if s.len() == 0 {
        0
    } else if p(s.last()) {
        1 + suffix_len(s.drop_last(), p)
    } else {
        0
    }
}

/// The whitespace predicate as a value, for [`prefix_len`] and
/// [`suffix_len`].
pub open spec fn ws() -> spec_fn(char) -> bool {
    |c: char| is_ws(c)
}

/// The predicate that holds of every character but whitespace.
pub open spec fn non_ws() -> spec_fn(char) -> bool {
    |c: char| !is_ws(c)
}

/// `s` without its leading whitespace, as `str::trim_start` returns it.
pub open spec fn trim_start(s: Seq<char>) -> Seq<char> {
    s.skip(prefix_len(s, ws()) as int)
}

/// `s` without its trailing whitespace, as `str::trim_end` returns it.
pub open spec fn trim_end(s: Seq<char>) -> Seq<char> {
    s.take(s.len() - suffix_len(s, ws()))
}

/// `s` without leading or trailing whitespace, as `str::trim` returns it.
pub open spec fn trim(s: Seq<char>) -> Seq<char> {
    trim_end(trim_start(s))
}

/// Whether `s` holds no line break.
pub open spec fn single_line(s: Seq<char>) -> bool {
    forall|i: int| 0 <= i < s.len() ==> s[i] != '\n'
}

/// Two texts without a line break joined hold none.
pub proof fn lemma_single_line_concat(a: Seq<char>, b: Seq<char>)
    requires
        single_line(a),
        single_line(b),
    ensures
        single_line(a + b),
{
    assert forall|i: int| 0 <= i < (a + b).len() implies (a + b)[i] != '\n' by {
        if i < a.len() {
            assert((a + b)[i] == a[i]);
        } else {
            assert((a + b)[i] == b[i - a.len()]);
        }
    }
}

/// A part of a text without a line break holds none.
pub proof fn lemma_single_line_subrange(s: Seq<char>, i: int, j: int)
    requires
        single_line(s),
        0 <= i <= j <= s.len(),
    ensures
        single_line(s.subrange(i, j)),
{
    assert forall|k: int| 0 <= k < j - i implies s.subrange(i, j)[k] != '\n' by {
        assert(s.subrange(i, j)[k] == s[i + k]);
    }
}

/// Whether every character of `s` is whitespace.
pub open spec fn all_ws(s: Seq<char>) -> bool {
    forall|i: int| 0 <= i < s.len() ==> is_ws(#[trigger] s[i])
}

/// Whether `c` occurs in `s`.
pub open spec fn has_char(s: Seq<char>, c: char) -> bool {
    exists|i: int| 0 <= i < s.len() && s[i] == c
}

/// The position of the first occurrence of `c` in `s`, or the length of
/// `s` when there is none.
pub open spec fn find_char(s: Seq<char>, c: char) -> nat {
    prefix_len(s, not_char(c))
}

/// The predicate that holds of every character but `c`.
pub open spec fn not_char(c: char) -> spec_fn(char) -> bool {
    |x: char| x != c
}

/// A number as `usize`, or `usize::MAX` when it does not fit.
pub open spec fn saturate(n: int) -> usize {
    if n <= usize::MAX {
        n as usize
    } else {
        usize::MAX
    }
}

/// What `prefix_len` counts: the counted characters satisfy `p`, and the
/// one after them, if any, does not.
pub proof fn lemma_prefix_len<A>(s: Seq<A>, p: spec_fn(A) -> bool)
    ensures
        prefix_len(s, p) <= s.len(),
        forall|j: int| 0 <= j < prefix_len(s, p) ==> p(#[trigger] s[j]),
        prefix_len(s, p) < s.len() ==> !p(s[prefix_len(s, p) as int]),
    decreases s.len(),
{
    if s.len() > 0 && p(s[0]) {
        lemma_prefix_len(s.drop_first(), p);
        assert forall|j: int| 0 <= j < prefix_len(s, p) implies p(#[trigger] s[j]) by {
            if j > 0 {
                assert(s[j] == s.drop_first()[j - 1]);
            }
        }
    }
}

/// `prefix_len` is the only count with the properties of
/// [`lemma_prefix_len`].
pub proof fn lemma_prefix_len_is<A>(s: Seq<A>, p: spec_fn(A) -> bool, n: int)
    requires
        0 <= n <= s.len(),
        forall|j: int| 0 <= j < n ==> p(#[trigger] s[j]),
        n < s.len() ==> !p(s[n]),
    ensures
        prefix_len(s, p) == n,
    decreases s.len(),
{
    if n > 0 {
        assert forall|j: int| 0 <= j < n - 1 implies p(#[trigger] s.drop_first()[j]) by {
            assert(s.drop_first()[j] == s[j + 1]);
        }
        if n - 1 < s.drop_first().len() {
            assert(s.drop_first()[n - 1] == s[n]);
        }
        lemma_prefix_len_is(s.drop_first(), p, n - 1);
    }
}

/// What `suffix_len` counts, the mirror image of [`lemma_prefix_len`].
pub proof fn lemma_suffix_len<A>(s: Seq<A>, p: spec_fn(A) -> bool)
    ensures
        suffix_len(s, p) <= s.len(),
        forall|j: int| s.len() - suffix_len(s, p) <= j < s.len() ==> p(#[trigger] s[j]),
        suffix_len(s, p) < s.len() ==> !p(s[s.len() - suffix_len(s, p) - 1]),
    decreases s.len(),
{
    if s.len() > 0 && p(s.last()) {
        lemma_suffix_len(s.drop_last(), p);
        assert forall|j: int| s.len() - suffix_len(s, p) <= j < s.len() implies p(
            #[trigger] s[j],
        ) by {
            if j < s.len() - 1 {
                assert(s[j] == s.drop_last()[j]);
            }
        }
    }
}

/// `suffix_len` is the only count with the properties of
/// [`lemma_suffix_len`].
pub proof fn lemma_suffix_len_is<A>(s: Seq<A>, p: spec_fn(A) -> bool, n: int)
    requires
        0 <= n <= s.len(),
        forall|j: int| s.len() - n <= j < s.len() ==> p(#[trigger] s[j]),
        n < s.len() ==> !p(s[s.len() - n - 1]),
    ensures
        suffix_len(s, p) == n,
    decreases s.len(),
{
    if n > 0 {
        let t = s.drop_last();
        assert forall|j: int| t.len() - (n - 1) <= j < t.len() implies p(#[trigger] t[j]) by {
            assert(t[j] == s[j]);
        }
        if n - 1 < t.len() {
            assert(t[t.len() - (n - 1) - 1] == s[s.len() - n - 1]);
        }
        lemma_suffix_len_is(t, p, n - 1);
    }
}

/// Appends one character to `target`.
///
/// Trusted: calls `String::push`, which appends the given character to
/// the end of the string.
#[verifier::external_body]
pub(crate) fn push_char(target: &mut String, ch: char)
    ensures
        final(target)@ == old(target)@.push(ch),
{
    target.push(ch);
}

/// Appends `source` to `target`.
pub fn push_str(target: &mut String, source: &str)
    ensures
        final(target)@ == old(target)@ + source@,
{
    target.append(source);
}

/// The characters of `source`, in order.
pub fn chars_of(source: &str) -> (result: Vec<char>)
    ensures
        result@ == source@,
{
    let mut result: Vec<char> = Vec::new();
    for ch in it: source.chars()
        invariant
            result@ == it.seq().take(it.index() as int),
    {
        result.push(ch);
    }
    result
}

/// The characters `chars[lo..hi]` as a string.
pub fn string_of(chars: &Vec<char>, lo: usize, hi: usize) -> (result: String)
    requires
        lo <= hi <= chars@.len(),
    ensures
        result@ == chars@.subrange(lo as int, hi as int),
{
    let mut result = String::new();
    let mut i = lo;
    while i < hi
        invariant
            lo <= i <= hi <= chars@.len(),
            result@ == chars@.subrange(lo as int, i as int),
        decreases hi - i,
    {
        push_char(&mut result, chars[i]);
        assert(chars@.subrange(lo as int, i + 1) == chars@.subrange(lo as int, i as int).push(
            chars@[i as int],
        ));
        i = i + 1;
    }
    result
}

/// The characters `chars[lo..hi]`.
pub fn vec_of(chars: &Vec<char>, lo: usize, hi: usize) -> (result: Vec<char>)
    requires
        lo <= hi <= chars@.len(),
    ensures
        result@ == chars@.subrange(lo as int, hi as int),
{
    let mut result: Vec<char> = Vec::new();
    let mut i = lo;
    while i < hi
        invariant
            lo <= i <= hi <= chars@.len(),
            result@ == chars@.subrange(lo as int, i as int),
        decreases hi - i,
    {
        result.push(chars[i]);
        assert(chars@.subrange(lo as int, i + 1) == chars@.subrange(lo as int, i as int).push(
            chars@[i as int],
        ));
        i = i + 1;
    }
    result
}

/// The end of the run of characters satisfying `p` that starts at `start`
/// in `chars`; `test` decides `p` on one character.
pub fn span_while<F: Fn(char) -> bool>(
    chars: &Vec<char>,
    start: usize,
    test: F,
    Ghost(p): Ghost<spec_fn(char) -> bool>,
) -> (end: usize)
    requires
        start <= chars@.len(),
        forall|c: char| test.requires((c,)),
        forall|c: char, r: bool| test.ensures((c,), r) ==> r == p(c),
    ensures
        end == start + prefix_len(chars@.skip(start as int), p),
        end <= chars@.len(),
{
    let mut end = start;
    while end < chars.len() && test(chars[end])
        invariant
            start <= end <= chars@.len(),
            forall|c: char| test.requires((c,)),
            forall|c: char, r: bool| test.ensures((c,), r) ==> r == p(c),
            forall|j: int| start <= j < end ==> p(#[trigger] chars@[j]),
        decreases chars@.len() - end,
    {
        end = end + 1;
    }
    proof {
        let s = chars@.skip(start as int);
        assert forall|j: int| 0 <= j < end - start implies p(#[trigger] s[j]) by {
            assert(s[j] == chars@[start + j]);
        }
        if end < chars@.len() {
            assert(s[end - start] == chars@[end as int]);
        }
        lemma_prefix_len_is(s, p, end - start);
    }
    end
}

/// Whether `a` and `b` hold the same text.
pub fn same_text(a: &str, b: &str) -> (result: bool)
    ensures
        result == (a@ == b@),
{
    let a = a.to_owned();
    let b = b.to_owned();
    a == b
}

/// The bounds of `trim(chars[lo..hi])` within `chars`.
pub fn trim_range(chars: &Vec<char>, lo: usize, hi: usize) -> (result: (usize, usize))
    requires
        lo <= hi <= chars@.len(),
    ensures
        lo <= result.0 <= result.1 <= hi,
        chars@.subrange(result.0 as int, result.1 as int) == trim(
            chars@.subrange(lo as int, hi as int),
        ),
        chars@.subrange(result.0 as int, hi as int) == trim_start(
            chars@.subrange(lo as int, hi as int),
        ),
{
    let ghost s = chars@.subrange(lo as int, hi as int);
    let mut a = lo;
    while a < hi && is_whitespace(chars[a])
        invariant
            lo <= a <= hi <= chars@.len(),
            forall|j: int| lo <= j < a ==> is_ws(#[trigger] chars@[j]),
        decreases hi - a,
    {
        a = a + 1;
    }
    proof {
        assert forall|j: int| 0 <= j < a - lo implies ws()(#[trigger] s[j]) by {
            assert(s[j] == chars@[lo + j]);
        }
        if a < hi {
            assert(s[a - lo] == chars@[a as int]);
        }
        lemma_prefix_len_is(s, ws(), a - lo);
        assert(trim_start(s) =~= chars@.subrange(a as int, hi as int));
    }
    let b = back_over_whitespace(chars, a, hi);
    proof {
        let t = chars@.subrange(a as int, hi as int);
        assert(trim_end(t) =~= chars@.subrange(a as int, b as int));
    }
    (a, b)
}

/// Appends `chars[lo..hi]` to `target`.
pub fn push_chars(target: &mut String, chars: &Vec<char>, lo: usize, hi: usize)
    requires
        lo <= hi <= chars@.len(),
    ensures
        final(target)@ == old(target)@ + chars@.subrange(lo as int, hi as int),
{
    let ghost before = target@;
    let mut i = lo;
    while i < hi
        invariant
            lo <= i <= hi <= chars@.len(),
            target@ == before + chars@.subrange(lo as int, i as int),
        decreases hi - i,
    {
        push_char(target, chars[i]);
        assert(chars@.subrange(lo as int, i + 1) == chars@.subrange(lo as int, i as int).push(
            chars@[i as int],
        ));
        i = i + 1;
    }
}

/// The number of bytes in the UTF-8 encoding of `c`.
pub fn utf8_width(c: char) -> (result: usize)
    ensures
        result == encode_scalar(c as u32).len(),
        1 <= result <= 4,
{
    proof {
        char_is_scalar(c);
    }
    let n = c as u32;
    if n <= 0x7F {
        1
    } else if n <= 0x7FF {
        2
    } else if n <= 0xFFFF {
        3
    } else {
        4
    }
}

/// The number of bytes in the UTF-8 encoding of `chars`, `usize::MAX`
/// when that does not fit.
pub fn utf8_len(chars: &Vec<char>) -> (result: usize)
    ensures
        result == saturate(encode_utf8(chars@).len() as int),
{
    let mut total: usize = 0;
    let mut i = chars.len();
    while i > 0
        invariant
            i <= chars@.len(),
            total == saturate(encode_utf8(chars@.skip(i as int)).len() as int),
        decreases i,
    {
        let w = utf8_width(chars[i - 1]);
        proof {
            let s = chars@.skip(i - 1);
            assert(s.drop_first() =~= chars@.skip(i as int));
            assert(s[0] == chars@[i - 1]);
        }
        if total <= usize::MAX - w {
            total = total + w;
        } else {
            total = usize::MAX;
        }
        i = i - 1;
    }
    proof {
        assert(chars@.skip(0) =~= chars@);
    }
    total
}

/// Whether `c` is whitespace, as `char::is_whitespace` reports it.
pub fn is_whitespace(c: char) -> (result: bool)
    ensures
        result == is_ws(c),
{
    let n = c as u32;
    (0x09 <= n && n <= 0x0D) || n == 0x20 || n == 0x85 || n == 0xA0 || n == 0x1680 || (0x2000
        <= n && n <= 0x200A) || n == 0x2028 || n == 0x2029 || n == 0x202F || n == 0x205F || n
        == 0x3000
}

/// Whether `c` is a control character, as `char::is_control` reports it.
pub fn is_control(c: char) -> (result: bool)
    ensures
        result == is_ctrl(c),
{
    let n = c as u32;
    n <= 0x1F || (0x7F <= n && n <= 0x9F)
}

/// The end of the whitespace run that starts at `start` in `chars`.
pub fn skip_whitespace(chars: &Vec<char>, start: usize) -> (end: usize)
    requires
        start <= chars@.len(),
    ensures
        end == start + prefix_len(chars@.skip(start as int), ws()),
        end <= chars@.len(),
{
    let mut end = start;
    while end < chars.len() && is_whitespace(chars[end])
        invariant
            start <= end <= chars@.len(),
            forall|j: int| start <= j < end ==> is_ws(#[trigger] chars@[j]),
        decreases chars@.len() - end,
    {
        end = end + 1;
    }
    proof {
        let s = chars@.skip(start as int);
        assert forall|j: int| 0 <= j < end - start implies ws()(#[trigger] s[j]) by {
            assert(s[j] == chars@[start + j]);
        }
        if end < chars@.len() {
            assert(s[end - start] == chars@[end as int]);
        }
        lemma_prefix_len_is(s, ws(), end - start);
    }
    end
}

/// The end of the non-whitespace run that starts at `start` in `chars`.
pub fn skip_non_whitespace(chars: &Vec<char>, start: usize) -> (end: usize)
    requires
        start <= chars@.len(),
    ensures
        end == start + prefix_len(chars@.skip(start as int), non_ws()),
        end <= chars@.len(),
{
    let mut end = start;
    while end < chars.len() && !is_whitespace(chars[end])
        invariant
            start <= end <= chars@.len(),
            forall|j: int| start <= j < end ==> !is_ws(#[trigger] chars@[j]),
        decreases chars@.len() - end,
    {
        end = end + 1;
    }
    proof {
        let s = chars@.skip(start as int);
        assert forall|j: int| 0 <= j < end - start implies non_ws()(#[trigger] s[j]) by {
            assert(s[j] == chars@[start + j]);
        }
        if end < chars@.len() {
            assert(s[end - start] == chars@[end as int]);
        }
        lemma_prefix_len_is(s, non_ws(), end - start);
    }
    end
}

/// The start of the whitespace run that ends at `end` in `chars`, looking
/// no further back than `floor`.
pub fn back_over_whitespace(chars: &Vec<char>, floor: usize, end: usize) -> (start: usize)
    requires
        floor <= end <= chars@.len(),
    ensures
        start == end - suffix_len(chars@.subrange(floor as int, end as int), ws()),
        floor <= start <= end,
{
    let mut start = end;
    while start > floor && is_whitespace(chars[start - 1])
        invariant
            floor <= start <= end <= chars@.len(),
            forall|j: int| start <= j < end ==> is_ws(#[trigger] chars@[j]),
        decreases start,
    {
        start = start - 1;
    }
    proof {
        let s = chars@.subrange(floor as int, end as int);
        assert forall|j: int| s.len() - (end - start) <= j < s.len() implies ws()(
            #[trigger] s[j],
        ) by {
            assert(s[j] == chars@[floor + j]);
        }
        if end - start < s.len() {
            assert(s[s.len() - (end - start) - 1] == chars@[start - 1]);
        }
        lemma_suffix_len_is(s, ws(), end - start);
    }
    start
}

/// Whether every character of `chars[lo..hi]` is whitespace.
pub fn range_all_whitespace(chars: &Vec<char>, lo: usize, hi: usize) -> (result: bool)
    requires
        lo <= hi <= chars@.len(),
    ensures
        result == all_ws(chars@.subrange(lo as int, hi as int)),
{
    let mut i = lo;
    while i < hi
        invariant
            lo <= i <= hi <= chars@.len(),
            forall|j: int| lo <= j < i ==> is_ws(#[trigger] chars@[j]),
        decreases hi - i,
    {
        if !is_whitespace(chars[i]) {
            assert(chars@.subrange(lo as int, hi as int)[i - lo] == chars@[i as int]);
            return false;
        }
        i = i + 1;
    }
    assert forall|j: int| 0 <= j < hi - lo implies is_ws(
        #[trigger] chars@.subrange(lo as int, hi as int)[j],
    ) by {
        assert(chars@.subrange(lo as int, hi as int)[j] == chars@[lo + j]);
    }
    true
}

/// The position of the first `c` in `chars[lo..]`, or the length of
/// `chars` when there is none.
pub fn find_char_from(chars: &Vec<char>, lo: usize, c: char) -> (pos: usize)
    requires
        lo <= chars@.len(),
    ensures
        pos == lo + find_char(chars@.skip(lo as int), c),
        pos <= chars@.len(),
{
    let mut pos = lo;
    while pos < chars.len() && chars[pos] != c
        invariant
            lo <= pos <= chars@.len(),
            forall|j: int| lo <= j < pos ==> #[trigger] chars@[j] != c,
        decreases chars@.len() - pos,
    {
        pos = pos + 1;
    }
    proof {
        let s = chars@.skip(lo as int);
        let p = not_char(c);
        assert forall|j: int| 0 <= j < pos - lo implies p(#[trigger] s[j]) by {
            assert(s[j] == chars@[lo + j]);
        }
        if pos < chars@.len() {
            assert(s[pos - lo] == chars@[pos as int]);
        }
        lemma_prefix_len_is(s, p, pos - lo);
    }
    pos
}

} // verus!
