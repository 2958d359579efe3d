//! Timestamps inside a video, in the `MM:SS.mmm` source format, and the
//! SubRip and WebVTT renderings of them.

use crate::text::{chars_of, push_char, string_of};
use vstd::prelude::*;

verus! {

/// Milliseconds in one second.
pub const MILLISECONDS_PER_SECOND: u64 = 1_000;

/// Milliseconds in one minute.
pub const MILLISECONDS_PER_MINUTE: u64 = 60_000;

/// Milliseconds in one hour, the exclusive upper bound of a [`Timestamp`].
pub const MILLISECONDS_PER_HOUR: u64 = 3_600_000;

/// Character length of a rendered `MM:SS.mmm` timestamp.
pub const TIMESTAMP_STR_LEN: usize = 9;

/// A point in time inside the video, measured as milliseconds from
/// `00:00.000`, always strictly earlier than one hour.
#[derive(Clone, Copy, Debug, PartialEq, Eq, PartialOrd, Ord, Hash, Structural)]
pub struct Timestamp(u64);

impl Timestamp {
    #[verifier::type_invariant]
    spec fn below_one_hour(self) -> bool {
        self.0 < MILLISECONDS_PER_HOUR
    }
}

impl View for Timestamp {
    type V = int;

    /// The number of milliseconds since `00:00.000`.
    closed spec fn view(&self) -> int {
        self.0 as int
    }
}

/// The weighted total of the three components of a timestamp.
pub open spec fn total_millis(minutes: int, seconds: int, milliseconds: int) -> int {
    minutes * 60_000 + seconds * 1_000 + milliseconds
}

/// The character of the decimal digit `d`.
pub open spec fn digit_char(d: int) -> char {
    (d + 48) as char
}

/// The value of the decimal digit character `c`.
pub open spec fn digit_value(c: char) -> int {
    c as int - 48
}

/// Whether `c` is an ASCII decimal digit.
pub open spec fn is_ascii_digit(c: char) -> bool {
    '0' <= c && c <= '9'
}

/// The decimal representation of `v`, without leading zeros.
pub open spec fn decimal(v: nat) -> Seq<char>
    decreases v,
{
    if v < 10 {
        seq![digit_char(v as int)]
    } else {
        decimal(v / 10).push(digit_char((v % 10) as int))
    }
}

/// The decimal representation of `v`, left-padded with zeros to at least
/// `width` characters, as the `{:0width$}` format writes it.
pub open spec fn decimal_padded(v: nat, width: nat) -> Seq<char> {
    let digits = decimal(v);
    if digits.len() >= width {
        digits
    } else {
        Seq::new((width - digits.len()) as nat, |i: int| '0') + digits
    }
}

/// `ms` rendered as `MM:SS.mmm`.
pub open spec fn render_mm_ss_mmm(ms: int) -> Seq<char> {
    decimal_padded((ms / 60_000) as nat, 2) + seq![':'] + decimal_padded(
        ((ms % 60_000) / 1_000) as nat,
        2,
    ) + seq!['.'] + decimal_padded((ms % 1_000) as nat, 3)
}

/// `ms` rendered as `HH:MM:SS` followed by `fraction_separator` and the
/// three-digit milliseconds, the shape shared by SubRip and WebVTT.
pub open spec fn render_hh_mm_ss(ms: int, fraction_separator: char) -> Seq<char> {
    decimal_padded((ms / 3_600_000) as nat, 2) + seq![':'] + decimal_padded(
        ((ms % 3_600_000) / 60_000) as nat,
        2,
    ) + seq![':'] + decimal_padded(((ms % 60_000) / 1_000) as nat, 2) + seq![fraction_separator]
        + decimal_padded((ms % 1_000) as nat, 3)
}

/// Appends the decimal representation of `value`, left-padded with zeros
/// to at least `width` characters.
pub fn push_decimal(output: &mut String, value: u64, width: usize)
    ensures
        final(output)@ == old(output)@ + decimal_padded(value as nat, width as nat),
{
    let mut digits: Vec<char> = Vec::new();
    let mut rest = value;
    while rest >= 10
        invariant
            rest <= value,
            decimal(value as nat) == decimal(rest as nat) + digits@,
        decreases rest,
    {
        let c = char_of_digit(rest % 10);
        let ghost previous = digits@;
        digits.insert(0, c);
        assert(decimal(rest as nat) == decimal((rest / 10) as nat).push(
            digit_char((rest % 10) as int),
        ));
        assert(decimal(rest as nat) + previous =~= decimal((rest / 10) as nat) + digits@);
        rest = rest / 10;
    }
    let c = char_of_digit(rest);
    let ghost previous = digits@;
    digits.insert(0, c);
    assert(decimal(rest as nat) + previous =~= digits@);
    let ghost before = output@;
    let count = digits.len();
    if count < width {
        let mut i = count;
        while i < width
            invariant
                count <= i <= width,
                output@ == before + Seq::new((i - count) as nat, |j: int| '0'),
            decreases width - i,
        {
            push_char(output, '0');
            assert(before + Seq::new((i + 1 - count) as nat, |j: int| '0') =~= before + Seq::new(
                (i - count) as nat,
                |j: int| '0',
            ).push('0'));
            i = i + 1;
        }
    }
    let ghost padded = output@;
    let mut k: usize = 0;
    while k < digits.len()
        invariant
            0 <= k <= digits@.len(),
            output@ == padded + digits@.take(k as int),
        decreases digits@.len() - k,
    {
        push_char(output, digits[k]);
        assert(digits@.take(k + 1) == digits@.take(k as int).push(digits@[k as int]));
        k = k + 1;
    }
    assert(digits@.take(digits@.len() as int) == digits@);
    if count < width {
        assert(output@ =~= before + decimal_padded(value as nat, width as nat));
    } else {
        assert(padded == before);
        assert(output@ =~= before + decimal_padded(value as nat, width as nat));
    }
}

/// The character of the decimal digit `d`.
fn char_of_digit(d: u64) -> (c: char)
    requires
        d < 10,
    ensures
        c == digit_char(d as int),
{
    if d == 0 {
        '0'
    } else if d == 1 {
        '1'
    } else if d == 2 {
        '2'
    } else if d == 3 {
        '3'
    } else if d == 4 {
        '4'
    } else if d == 5 {
        '5'
    } else if d == 6 {
        '6'
    } else if d == 7 {
        '7'
    } else if d == 8 {
        '8'
    } else {
        '9'
    }
}

/// The value of the ASCII digit `c`, or `None` for any other character.
fn digit_of(c: char) -> (result: Option<u64>)
    ensures
        result == (if is_ascii_digit(c) {
            Some(digit_value(c) as u64)
        } else {
            None::<u64>
        }),
{
    if '0' <= c && c <= '9' {
        Some((c as u32 - 48) as u64)
    } else {
        None
    }
}

/// The outcome of reading a leading `MM:SS.mmm` prefix, over the
/// characters of the input.
pub enum TakeOutcome {
    /// The prefix denotes `ms` milliseconds and is followed by `tail`.
    Taken { ms: int, tail: Seq<char> },
    /// The input does not begin with the `MM:SS.mmm` shape.
    ShapeMismatch,
    /// The prefix `raw` has a minutes component `value` of 60 or more.
    MinutesOutOfRange { raw: Seq<char>, value: int },
    /// The prefix `raw` has a seconds component `value` of 60 or more.
    SecondsOutOfRange { raw: Seq<char>, value: int },
}

/// Whether `s` begins with the `MM:SS.mmm` shape: two digits, a colon,
/// two digits, a dot, three digits.
pub open spec fn has_timestamp_shape(s: Seq<char>) -> bool {
    &&& s.len() >= 9
    &&& is_ascii_digit(s[0])
    &&& is_ascii_digit(s[1])
    &&& s[2] == ':'
    &&& is_ascii_digit(s[3])
    &&& is_ascii_digit(s[4])
    &&& s[5] == '.'
    &&& is_ascii_digit(s[6])
    &&& is_ascii_digit(s[7])
    &&& is_ascii_digit(s[8])
}

/// The minutes field of a prefix of timestamp shape.
pub open spec fn minutes_field(s: Seq<char>) -> int {
    digit_value(s[0]) * 10 + digit_value(s[1])
}

/// The seconds field of a prefix of timestamp shape.
pub open spec fn seconds_field(s: Seq<char>) -> int {
    digit_value(s[3]) * 10 + digit_value(s[4])
}

/// The milliseconds field of a prefix of timestamp shape.
pub open spec fn millis_field(s: Seq<char>) -> int {
    digit_value(s[6]) * 100 + digit_value(s[7]) * 10 + digit_value(s[8])
}

/// What reading a leading `MM:SS.mmm` prefix of `s` yields. A seconds
/// field out of range is reported before a minutes field out of range.
pub open spec fn take_timestamp(s: Seq<char>) -> TakeOutcome {
    if !has_timestamp_shape(s) {
        TakeOutcome::ShapeMismatch
    } else if seconds_field(s) >= 60 {
        TakeOutcome::SecondsOutOfRange { raw: s.take(9), value: seconds_field(s) }
    } else if total_millis(minutes_field(s), seconds_field(s), millis_field(s)) >= 3_600_000 {
        TakeOutcome::MinutesOutOfRange { raw: s.take(9), value: minutes_field(s) }
    } else {
        TakeOutcome::Taken {
            ms: total_millis(minutes_field(s), seconds_field(s), millis_field(s)),
            tail: s.skip(9),
        }
    }
}

/// Payload for a minutes-out-of-range error: an `MM:SS.mmm` prefix whose
/// minutes component reaches or exceeds 60.
#[derive(Clone, Debug, PartialEq, Eq)]
pub struct MinutesOutOfRange {
    pub raw: String,
    pub value: u64,
}

/// Payload for a seconds-out-of-range error: an `MM:SS.mmm` prefix whose
/// seconds component exceeds 59.
#[derive(Clone, Debug, PartialEq, Eq)]
pub struct SecondsOutOfRange {
    pub raw: String,
    pub value: u64,
}

/// Reasons [`Timestamp::take`] can fail.
#[derive(Clone, Debug, PartialEq, Eq)]
#[non_exhaustive]
pub enum TakeTimestampError {
    /// The input does not begin with an `MM:SS.mmm` shape.
    ShapeMismatch,
    /// The input begins with an `MM:SS.mmm` shape but the minutes
    /// component reaches or exceeds 60.
    MinutesOutOfRange(MinutesOutOfRange),
    /// The input begins with an `MM:SS.mmm` shape but the seconds
    /// component is out of range.
    SecondsOutOfRange(SecondsOutOfRange),
}

/// Reasons [`Timestamp::parse_str`] can fail.
#[derive(Clone, Debug, PartialEq, Eq)]
#[non_exhaustive]
pub enum ParseTimestampError {
    /// The input does not begin with an `MM:SS.mmm` shape.
    ShapeMismatch,
    /// The minutes component reaches or exceeds 60.
    MinutesOutOfRange(MinutesOutOfRange),
    /// The seconds component is out of range.
    SecondsOutOfRange(SecondsOutOfRange),
    /// A valid `MM:SS.mmm` prefix is followed by this character where the
    /// end of input was required.
    UnexpectedCharacter(char),
}

/// Whether `error` is the failure that `outcome` describes.
pub open spec fn take_error_matches(error: TakeTimestampError, outcome: TakeOutcome) -> bool {
    match outcome {
        TakeOutcome::ShapeMismatch => error is ShapeMismatch,
        TakeOutcome::MinutesOutOfRange { raw, value } => error matches TakeTimestampError::MinutesOutOfRange(p)
            && p.raw@ == raw && p.value == value,
        TakeOutcome::SecondsOutOfRange { raw, value } => error matches TakeTimestampError::SecondsOutOfRange(p)
            && p.raw@ == raw && p.value == value,
        TakeOutcome::Taken { .. } => false,
    }
}

impl Timestamp {
    /// The number of milliseconds since `00:00.000`, always below one
    /// hour.
    pub fn millis(&self) -> (result: u64)
        ensures
            result == self@,
            result < MILLISECONDS_PER_HOUR,
    {
        proof {
            use_type_invariant(self);
        }
        self.0
    }

    /// Composes a timestamp from minutes, seconds, and milliseconds. The
    /// components are not range-checked individually: `None` is returned
    /// exactly when the weighted total reaches one hour, which includes
    /// every total too large for a `u64`.
    pub fn new(minutes: u64, seconds: u64, milliseconds: u64) -> (result: Option<Timestamp>)
        ensures
            total_millis(minutes as int, seconds as int, milliseconds as int) < 3_600_000
                <==> result is Some,
            result matches Some(t) ==> t@ == total_millis(
                minutes as int,
                seconds as int,
                milliseconds as int,
            ),
    {
        let m = match minutes.checked_mul(MILLISECONDS_PER_MINUTE) {
            Some(m) => m,
            None => return None,
        };
        let s = match seconds.checked_mul(MILLISECONDS_PER_SECOND) {
            Some(s) => s,
            None => return None,
        };
        let partial = match m.checked_add(s) {
            Some(p) => p,
            None => return None,
        };
        let total = match partial.checked_add(milliseconds) {
            Some(t) => t,
            None => return None,
        };
        if total < MILLISECONDS_PER_HOUR {
            Some(Timestamp(total))
        } else {
            None
        }
    }

    /// Consumes a leading `MM:SS.mmm` prefix (nine ASCII characters) from
    /// `input` and returns the timestamp with the unconsumed tail. When
    /// both the minutes and the seconds fields are out of range, the
    /// seconds error is the one reported.
    pub fn take(input: &str) -> (result: Result<(Timestamp, String), TakeTimestampError>)
        ensures
            match take_timestamp(input@) {
                TakeOutcome::Taken { ms, tail } => result matches Ok((t, rest)) && t@ == ms
                    && rest@ == tail,
                outcome => result matches Err(e) && take_error_matches(e, outcome),
            },
    {
        let chars = chars_of(input);
        Self::take_chars(&chars)
    }

    /// [`Timestamp::take`] over the characters of the input.
    pub fn take_chars(chars: &Vec<char>) -> (result: Result<(Timestamp, String), TakeTimestampError>)
        ensures
            match take_timestamp(chars@) {
                TakeOutcome::Taken { ms, tail } => result matches Ok((t, rest)) && t@ == ms
                    && rest@ == tail,
                outcome => result matches Err(e) && take_error_matches(e, outcome),
            },
    {
        if chars.len() < 9 {
            return Err(TakeTimestampError::ShapeMismatch);
        }
        let m1 = digit_of(chars[0]);
        let m2 = digit_of(chars[1]);
        let s1 = digit_of(chars[3]);
        let s2 = digit_of(chars[4]);
        let f1 = digit_of(chars[6]);
        let f2 = digit_of(chars[7]);
        let f3 = digit_of(chars[8]);
        let (m1, m2, s1, s2, f1, f2, f3) = match (m1, m2, s1, s2, f1, f2, f3) {
            (Some(m1), Some(m2), Some(s1), Some(s2), Some(f1), Some(f2), Some(f3)) => (
                m1,
                m2,
                s1,
                s2,
                f1,
                f2,
                f3,
            ),
            _ => return Err(TakeTimestampError::ShapeMismatch),
        };
        if chars[2] != ':' || chars[5] != '.' {
            return Err(TakeTimestampError::ShapeMismatch);
        }
        let minutes = m1 * 10 + m2;
        let seconds = s1 * 10 + s2;
        let milliseconds = f1 * 100 + f2 * 10 + f3;
        if seconds >= 60 {
            return Err(
                TakeTimestampError::SecondsOutOfRange(
                    SecondsOutOfRange { raw: string_of(chars, 0, 9), value: seconds },
                ),
            );
        }
        match Timestamp::new(minutes, seconds, milliseconds) {
            Some(t) => Ok((t, string_of(chars, 9, chars.len()))),
            None => Err(
                TakeTimestampError::MinutesOutOfRange(
                    MinutesOutOfRange { raw: string_of(chars, 0, 9), value: minutes },
                ),
            ),
        }
    }

    /// Parses `input` as exactly one `MM:SS.mmm` timestamp: the prefix is
    /// read as [`Timestamp::take`] reads it, and anything after it is an
    /// [`ParseTimestampError::UnexpectedCharacter`].
    pub fn parse_str(input: &str) -> (result: Result<Timestamp, ParseTimestampError>)
        ensures
            parsed_exactly(input@, result),
    {
        let chars = chars_of(input);
        match Self::take_chars(&chars) {
            Ok((t, _)) => {
                if chars.len() == 9 {
                    Ok(t)
                } else {
                    Err(ParseTimestampError::UnexpectedCharacter(chars[9]))
                }
            },
            Err(TakeTimestampError::ShapeMismatch) => Err(ParseTimestampError::ShapeMismatch),
            Err(TakeTimestampError::MinutesOutOfRange(p)) => Err(
                ParseTimestampError::MinutesOutOfRange(p),
            ),
            Err(TakeTimestampError::SecondsOutOfRange(p)) => Err(
                ParseTimestampError::SecondsOutOfRange(p),
            ),
        }
    }

    /// The timestamp rendered in the `MM:SS.mmm` source format.
    pub fn to_string(&self) -> (result: String)
        ensures
            result@ == render_mm_ss_mmm(self@),
    {
        let ms = self.millis();
        let mut output = String::new();
        push_decimal(&mut output, ms / MILLISECONDS_PER_MINUTE, 2);
        push_char(&mut output, ':');
        push_decimal(&mut output, (ms % MILLISECONDS_PER_MINUTE) / MILLISECONDS_PER_SECOND, 2);
        push_char(&mut output, '.');
        push_decimal(&mut output, ms % MILLISECONDS_PER_SECOND, 3);
        output
    }
}

/// Appends `ms` in the `HH:MM:SS` + separator + `mmm` shape.
fn push_hh_mm_ss(output: &mut String, ms: u64, fraction_separator: char)
    ensures
        final(output)@ == old(output)@ + render_hh_mm_ss(ms as int, fraction_separator),
{
    push_decimal(output, ms / MILLISECONDS_PER_HOUR, 2);
    push_char(output, ':');
    push_decimal(output, (ms % MILLISECONDS_PER_HOUR) / MILLISECONDS_PER_MINUTE, 2);
    push_char(output, ':');
    push_decimal(output, (ms % MILLISECONDS_PER_MINUTE) / MILLISECONDS_PER_SECOND, 2);
    push_char(output, fraction_separator);
    push_decimal(output, ms % MILLISECONDS_PER_SECOND, 3);
}

/// A [`Timestamp`] that renders in the SubRip `HH:MM:SS,mmm` format.
#[derive(Clone, Copy, Debug)]
pub struct SrtTime(Timestamp);

impl SrtTime {
    /// Wraps `timestamp` for SubRip rendering.
    pub fn from(timestamp: Timestamp) -> (result: SrtTime)
        ensures
            result.timestamp() == timestamp,
    {
        SrtTime(timestamp)
    }

    /// The wrapped timestamp.
    pub closed spec fn timestamp(self) -> Timestamp {
        self.0
    }

    /// The timestamp rendered as `HH:MM:SS,mmm`.
    pub fn to_string(&self) -> (result: String)
        ensures
            result@ == render_hh_mm_ss(self.timestamp()@, ','),
    {
        let mut output = String::new();
        push_hh_mm_ss(&mut output, self.0.millis(), ',');
        output
    }
}

/// A [`Timestamp`] that renders in the WebVTT `HH:MM:SS.mmm` format.
#[derive(Clone, Copy, Debug)]
pub struct VttTime(Timestamp);

impl VttTime {
    /// Wraps `timestamp` for WebVTT rendering.
    pub fn from(timestamp: Timestamp) -> (result: VttTime)
        ensures
            result.timestamp() == timestamp,
    {
        VttTime(timestamp)
    }

    /// The wrapped timestamp.
    pub closed spec fn timestamp(self) -> Timestamp {
        self.0
    }

    /// The timestamp rendered as `HH:MM:SS.mmm`.
    pub fn to_string(&self) -> (result: String)
        ensures
            result@ == render_hh_mm_ss(self.timestamp()@, '.'),
    {
        let mut output = String::new();
        push_hh_mm_ss(&mut output, self.0.millis(), '.');
        output
    }
}

/// The digit character of a decimal digit reads back as that digit.
pub proof fn lemma_digit_round_trip(d: int)
    requires
        0 <= d < 10,
    ensures
        digit_value(digit_char(d)) == d,
        is_ascii_digit(digit_char(d)),
{
    vstd::utf8::char_u32_cast(digit_char(d), (d + 48) as u32);
}

/// A number below one hundred, padded to two digits.
pub proof fn lemma_two_digits(v: nat)
    requires
        v < 100,
    ensures
        decimal_padded(v, 2) == seq![digit_char((v / 10) as int), digit_char((v % 10) as int)],
{
    if v < 10 {
        assert(decimal(v) == seq![digit_char(v as int)]);
        assert(Seq::new(1, |i: int| '0') + seq![digit_char(v as int)] =~= seq![
            digit_char(0),
            digit_char(v as int),
        ]);
    } else {
        assert(decimal(v / 10) == seq![digit_char((v / 10) as int)]);
        assert(decimal(v) =~= seq![digit_char((v / 10) as int), digit_char((v % 10) as int)]);
    }
}

/// A number below one thousand, padded to three digits.
pub proof fn lemma_three_digits(v: nat)
    requires
        v < 1000,
    ensures
        decimal_padded(v, 3) == seq![
            digit_char((v / 100) as int),
            digit_char(((v / 10) % 10) as int),
            digit_char((v % 10) as int),
        ],
{
    if v < 10 {
        assert(decimal(v) == seq![digit_char(v as int)]);
        assert(Seq::new(2, |i: int| '0') + seq![digit_char(v as int)] =~= seq![
            digit_char(0),
            digit_char(0),
            digit_char(v as int),
        ]);
    } else if v < 100 {
        assert(decimal(v / 10) == seq![digit_char((v / 10) as int)]);
        assert(decimal(v) =~= seq![digit_char((v / 10) as int), digit_char((v % 10) as int)]);
        assert(Seq::new(1, |i: int| '0') + decimal(v) =~= seq![
            digit_char(0),
            digit_char(((v / 10) % 10) as int),
            digit_char((v % 10) as int),
        ]);
    } else {
        assert(decimal(v / 100) == seq![digit_char((v / 100) as int)]);
        assert((v / 10) / 10 == v / 100);
        assert(decimal(v / 10) =~= seq![
            digit_char((v / 100) as int),
            digit_char(((v / 10) % 10) as int),
        ]);
        assert(decimal(v) =~= seq![
            digit_char((v / 100) as int),
            digit_char(((v / 10) % 10) as int),
            digit_char((v % 10) as int),
        ]);
    }
}

/// Reading back a rendered timestamp gives the timestamp, and leaves what
/// followed it: `MM:SS.mmm` is read exactly as it is written.
pub proof fn lemma_timestamp_round_trip(ms: int, rest: Seq<char>)
    requires
        0 <= ms < 3_600_000,
    ensures
        take_timestamp(render_mm_ss_mmm(ms) + rest) == (TakeOutcome::Taken { ms, tail: rest }),
        render_mm_ss_mmm(ms).len() == 9,
{
    let m = ms / 60_000;
    let sec = (ms % 60_000) / 1_000;
    let milli = ms % 1_000;
    lemma_two_digits(m as nat);
    lemma_two_digits(sec as nat);
    lemma_three_digits(milli as nat);
    lemma_digit_round_trip(m / 10);
    lemma_digit_round_trip(m % 10);
    lemma_digit_round_trip(sec / 10);
    lemma_digit_round_trip(sec % 10);
    lemma_digit_round_trip(milli / 100);
    lemma_digit_round_trip((milli / 10) % 10);
    lemma_digit_round_trip(milli % 10);
    let text = render_mm_ss_mmm(ms);
    let s = text + rest;
    assert(text =~= seq![
        digit_char(m / 10),
        digit_char(m % 10),
        ':',
        digit_char(sec / 10),
        digit_char(sec % 10),
        '.',
        digit_char(milli / 100),
        digit_char((milli / 10) % 10),
        digit_char(milli % 10),
    ]);
    assert(minutes_field(s) == m) by {
        assert(s[0] == digit_char(m / 10));
        assert(s[1] == digit_char(m % 10));
    }
    assert(seconds_field(s) == sec) by {
        assert(s[3] == digit_char(sec / 10));
        assert(s[4] == digit_char(sec % 10));
    }
    assert(millis_field(s) == milli) by {
        assert(s[6] == digit_char(milli / 100));
        assert(s[7] == digit_char((milli / 10) % 10));
        assert(s[8] == digit_char(milli % 10));
    }
    assert(total_millis(m, sec, milli) == ms) by (nonlinear_arith)
        requires
            m == ms / 60_000,
            sec == (ms % 60_000) / 1_000,
            milli == ms % 1_000,
            0 <= ms,
    ;
    assert(s.skip(9) =~= rest);
}

/// Whether `result` is what reading `input` as exactly one `MM:SS.mmm`
/// timestamp gives: the timestamp when the prefix reads and nothing
/// follows it, the first character after it when something does, and
/// the prefix's own error otherwise.
pub open spec fn parsed_exactly(input: Seq<char>, result: Result<Timestamp, ParseTimestampError>) -> bool {
    match take_timestamp(input) {
        TakeOutcome::Taken { ms, tail } => if tail.len() == 0 {
            result matches Ok(t) && t@ == ms
        } else {
            result == Err::<Timestamp, ParseTimestampError>(
                ParseTimestampError::UnexpectedCharacter(tail[0]),
            )
        },
        TakeOutcome::ShapeMismatch => result matches Err(ParseTimestampError::ShapeMismatch),
        TakeOutcome::MinutesOutOfRange { raw, value } => result matches Err(
            ParseTimestampError::MinutesOutOfRange(p),
        ) && p.raw@ == raw && p.value == value,
        TakeOutcome::SecondsOutOfRange { raw, value } => result matches Err(
            ParseTimestampError::SecondsOutOfRange(p),
        ) && p.raw@ == raw && p.value == value,
    }
}

impl core::str::FromStr for Timestamp {
    type Err = ParseTimestampError;

    fn from_str(input: &str) -> (result: Result<Timestamp, ParseTimestampError>)
        ensures
            parsed_exactly(input@, result),
    {
        Timestamp::parse_str(input)
    }
}

} // verus!
