//! The per-song descriptors: the language of a lyrics file, the line
//! markers a song declares, and the credit roles and names of its credit
//! block, together with the validated name types they are built from.
//!
//! Tables that the descriptor files write as maps are held here as lists
//! of `(key, value)` entries, each key at most once, in key order; a
//! lookup returns the value of the first entry whose key matches.

use crate::text::{
    chars_of, is_alpha, is_control, is_ctrl, lemma_prefix_len, lemma_prefix_len_is, prefix_len, same_text,
    span_while,
};
use vstd::prelude::*;

verus! {

/// A language a lyrics file is written in.
#[derive(Clone, Copy, Debug, PartialEq, Eq, PartialOrd, Ord, Hash, Structural)]
pub enum Language {
    Chinese,
    English,
    Vietnamese,
}

/// The language code of `language`, as lyrics file names and the WebVTT
/// header spell it.
pub open spec fn language_code(language: Language) -> Seq<char> {
    match language {
        Language::Chinese => seq!['z', 'h'],
        Language::English => seq!['e', 'n'],
        Language::Vietnamese => seq!['v', 'i'],
    }
}

/// The language whose code is `code`, if any.
pub open spec fn language_of_code(code: Seq<char>) -> Option<Language> {
    if code == language_code(Language::Chinese) {
        Some(Language::Chinese)
    } else if code == language_code(Language::English) {
        Some(Language::English)
    } else if code == language_code(Language::Vietnamese) {
        Some(Language::Vietnamese)
    } else {
        None
    }
}

impl Language {
    /// The language code, such as `vi`.
    pub fn code(self) -> (result: &'static str)
        ensures
            result@ == language_code(self),
    {
        match self {
            Language::Chinese => {
                proof {
                    reveal_strlit("zh");
                }
                "zh"
            },
            Language::English => {
                proof {
                    reveal_strlit("en");
                }
                "en"
            },
            Language::Vietnamese => {
                proof {
                    reveal_strlit("vi");
                }
                "vi"
            },
        }
    }

    /// The language whose code is `code`.
    pub fn from_code(code: &str) -> (result: Option<Language>)
        ensures
            result == language_of_code(code@),
    {
        if same_text(code, Language::Chinese.code()) {
            Some(Language::Chinese)
        } else if same_text(code, Language::English.code()) {
            Some(Language::English)
        } else if same_text(code, Language::Vietnamese.code()) {
            Some(Language::Vietnamese)
        } else {
            None
        }
    }
}

/// A marker whose meaning the parser fixes; a song may not declare one.
#[derive(Clone, Copy, Debug, PartialEq, Eq, Hash, Structural)]
pub enum ReservedMarker {
    /// `ann`: a line of commentary on the cue part above it.
    Annotation,
    /// `clr`: ends the open cue at the line's timestamp.
    Clear,
    /// `eov`: the end-of-video sentinel.
    EndOfVideo,
}

/// The token that spells `marker` in a lyrics file.
pub open spec fn reserved_token(marker: ReservedMarker) -> Seq<char> {
    match marker {
        ReservedMarker::Annotation => seq!['a', 'n', 'n'],
        ReservedMarker::Clear => seq!['c', 'l', 'r'],
        ReservedMarker::EndOfVideo => seq!['e', 'o', 'v'],
    }
}

/// The reserved marker that `token` spells, if any.
pub open spec fn reserved_of_token(token: Seq<char>) -> Option<ReservedMarker> {
    if token == reserved_token(ReservedMarker::Annotation) {
        Some(ReservedMarker::Annotation)
    } else if token == reserved_token(ReservedMarker::Clear) {
        Some(ReservedMarker::Clear)
    } else if token == reserved_token(ReservedMarker::EndOfVideo) {
        Some(ReservedMarker::EndOfVideo)
    } else {
        None
    }
}

impl ReservedMarker {
    /// Every reserved marker.
    pub const VARIANTS: [ReservedMarker; 3] = [
        ReservedMarker::Annotation,
        ReservedMarker::Clear,
        ReservedMarker::EndOfVideo,
    ];

    /// Whether the marker is a control marker, one that stands alone on
    /// a timestamped line: `clr` and `eov` are, `ann` is not.
    pub fn is_control(self) -> (result: bool)
        ensures
            result == !(self is Annotation),
    {
        match self {
            ReservedMarker::Annotation => false,
            ReservedMarker::Clear => true,
            ReservedMarker::EndOfVideo => true,
        }
    }

    /// The token that spells the marker.
    pub fn as_str(self) -> (result: &'static str)
        ensures
            result@ == reserved_token(self),
    {
        match self {
            ReservedMarker::Annotation => {
                proof {
                    reveal_strlit("ann");
                }
                "ann"
            },
            ReservedMarker::Clear => {
                proof {
                    reveal_strlit("clr");
                }
                "clr"
            },
            ReservedMarker::EndOfVideo => {
                proof {
                    reveal_strlit("eov");
                }
                "eov"
            },
        }
    }

    /// The reserved marker that `token` spells, if any.
    pub fn from_token(token: &str) -> (result: Option<ReservedMarker>)
        ensures
            result == reserved_of_token(token@),
    {
        if same_text(token, ReservedMarker::Annotation.as_str()) {
            Some(ReservedMarker::Annotation)
        } else if same_text(token, ReservedMarker::Clear.as_str()) {
            Some(ReservedMarker::Clear)
        } else if same_text(token, ReservedMarker::EndOfVideo.as_str()) {
            Some(ReservedMarker::EndOfVideo)
        } else {
            None
        }
    }
}

/// A marker name a song declares: any text that spells no
/// [`ReservedMarker`].
#[derive(Debug, PartialEq, Eq, PartialOrd, Ord, Hash)]
pub struct MarkerName(String);

impl MarkerName {
    #[verifier::type_invariant]
    spec fn not_reserved(self) -> bool {
        reserved_of_token(self.0@) is None
    }
}

impl View for MarkerName {
    type V = Seq<char>;

    closed spec fn view(&self) -> Seq<char> {
        self.0@
    }
}

/// Why a text cannot be a [`MarkerName`].
#[derive(Clone, Copy, Debug, PartialEq, Eq)]
#[non_exhaustive]
pub enum InvalidMarkerName {
    /// The text spells a reserved marker.
    Reserved(ReservedMarker),
}

impl MarkerName {
    /// Wraps `source` if and only if it spells no reserved marker.
    pub fn new(source: String) -> (result: Result<MarkerName, InvalidMarkerName>)
        ensures
            match reserved_of_token(source@) {
                Some(reserved) => result == Err::<MarkerName, InvalidMarkerName>(
                    InvalidMarkerName::Reserved(reserved),
                ),
                None => result matches Ok(name) && name@ == source@,
            },
    {
        match ReservedMarker::from_token(source.as_str()) {
            Some(reserved) => Err(InvalidMarkerName::Reserved(reserved)),
            None => Ok(MarkerName(source)),
        }
    }

    /// The marker text, which spells no reserved marker.
    pub fn as_str(&self) -> (result: &str)
        ensures
            result@ == self@,
            reserved_of_token(self@) is None,
    {
        proof {
            use_type_invariant(self);
        }
        self.0.as_str()
    }

    /// A copy of the name.
    pub fn duplicate(&self) -> (result: MarkerName)
        ensures
            result@ == self@,
    {
        proof {
            use_type_invariant(self);
        }
        MarkerName(self.0.clone())
    }

    /// The marker text, taken out of the name.
    pub fn into_string(self) -> (result: String)
        ensures
            result@ == self@,
    {
        self.0
    }
}

/// Whether `c` may begin a CSS class name: an ASCII letter or `_`.
pub open spec fn is_class_start(c: char) -> bool {
    is_alpha(c) || c == '_'
}

/// Whether `c` may continue a CSS class name: an ASCII letter or digit,
/// `-`, or `_`.
pub open spec fn is_class_continue(c: char) -> bool {
    is_alpha(c) || ('0' <= c && c <= '9') || c == '-' || c == '_'
}

/// The class-name continuation predicate as a value.
pub open spec fn class_continue() -> spec_fn(char) -> bool {
    |c: char| is_class_continue(c)
}

/// Whether `c` may continue a CSS class name.
fn class_continue_char(c: char) -> (result: bool)
    ensures
        result == is_class_continue(c),
{
    ('a' <= c && c <= 'z') || ('A' <= c && c <= 'Z') || ('0' <= c && c <= '9') || c == '-' || c
        == '_'
}

/// Why a text cannot be a [`CssClassName`].
#[derive(Clone, Debug, PartialEq, Eq)]
#[non_exhaustive]
pub enum InvalidCssClassName {
    /// The text is empty.
    Empty,
    /// The first character is neither an ASCII letter nor `_`.
    InvalidLeadingCharacter(char),
    /// This later character is not an ASCII letter, digit, `-`, or `_`.
    InvalidCharacter(char),
}

/// The verdict on `s` as a CSS class name: `None` when it has the shape
/// `[A-Za-z_][A-Za-z0-9_-]*`, else the first rule it breaks.
pub open spec fn css_class_error(s: Seq<char>) -> Option<InvalidCssClassName> {
    if s.len() == 0 {
        Some(InvalidCssClassName::Empty)
    } else if !is_class_start(s[0]) {
        Some(InvalidCssClassName::InvalidLeadingCharacter(s[0]))
    } else {
        let k = prefix_len(s.drop_first(), class_continue());
        if k < s.len() - 1 {
            Some(InvalidCssClassName::InvalidCharacter(s[k + 1 as int]))
        } else {
            None
        }
    }
}

/// A CSS class name of the shape `[A-Za-z_][A-Za-z0-9_-]*`, safe to place
/// in a `::cue(c.{name})` selector and a `<c.{name}>` tag unescaped.
#[derive(Debug, PartialEq, Eq, PartialOrd, Ord, Hash)]
pub struct CssClassName(String);

impl CssClassName {
    #[verifier::type_invariant]
    spec fn well_shaped(self) -> bool {
        css_class_error(self.0@) is None
    }
}

impl View for CssClassName {
    type V = Seq<char>;

    closed spec fn view(&self) -> Seq<char> {
        self.0@
    }
}

impl CssClassName {
    /// Wraps `source` if and only if it has the class-name shape.
    pub fn new(source: String) -> (result: Result<CssClassName, InvalidCssClassName>)
        ensures
            match css_class_error(source@) {
                Some(error) => result == Err::<CssClassName, InvalidCssClassName>(error),
                None => result matches Ok(name) && name@ == source@,
            },
    {
        let chars = chars_of(source.as_str());
        if chars.len() == 0 {
            return Err(InvalidCssClassName::Empty);
        }
        let first = chars[0];
        if !(('a' <= first && first <= 'z') || ('A' <= first && first <= 'Z') || first == '_') {
            return Err(InvalidCssClassName::InvalidLeadingCharacter(first));
        }
        let end = span_while(
            &chars,
            1,
            class_continue_char,
            Ghost(class_continue()),
        );
        proof {
            assert(chars@.skip(1) == chars@.drop_first());
        }
        if end < chars.len() {
            return Err(InvalidCssClassName::InvalidCharacter(chars[end]));
        }
        Ok(CssClassName(source))
    }

    /// The class-name text.
    pub fn as_str(&self) -> (result: &str)
        ensures
            result@ == self@,
            css_class_error(self@) is None,
    {
        proof {
            use_type_invariant(self);
        }
        self.0.as_str()
    }

    /// A copy of the name.
    pub fn duplicate(&self) -> (result: CssClassName)
        ensures
            result@ == self@,
    {
        proof {
            use_type_invariant(self);
        }
        CssClassName(self.0.clone())
    }
}

/// Whether `c` may not appear in a voice name: a character that would end
/// a WebVTT cue tag or a CSS attribute string.
pub open spec fn is_forbidden_voice_char(c: char) -> bool {
    c == '<' || c == '>' || c == '"' || c == '\\' || c == '\u{2028}' || c == '\u{2029}' || is_ctrl(
        c,
    )
}

/// The predicate that holds of every character allowed in a voice name.
pub open spec fn voice_char_allowed() -> spec_fn(char) -> bool {
    |c: char| !is_forbidden_voice_char(c)
}

/// Whether `c` is allowed in a voice name.
fn voice_char(c: char) -> (result: bool)
    ensures
        result == !is_forbidden_voice_char(c),
{
    !(c == '<' || c == '>' || c == '"' || c == '\\' || c == '\u{2028}' || c == '\u{2029}'
        || is_control(c))
}

/// Why a text cannot be a [`VoiceName`].
#[derive(Clone, Debug, PartialEq, Eq)]
#[non_exhaustive]
pub enum InvalidVoiceName {
    /// The text is empty.
    Empty,
    /// The text contains this reserved character.
    ForbiddenCharacter(char),
}

/// The verdict on `s` as a voice name: `None` when it is non-empty and
/// free of forbidden characters, else the first rule it breaks.
pub open spec fn voice_name_error(s: Seq<char>) -> Option<InvalidVoiceName> {
    if s.len() == 0 {
        Some(InvalidVoiceName::Empty)
    } else {
        let k = prefix_len(s, voice_char_allowed());
        if k < s.len() {
            Some(InvalidVoiceName::ForbiddenCharacter(s[k as int]))
        } else {
            None
        }
    }
}

/// A speaker label for the WebVTT `<v {name}>` tag and the
/// `::cue(v[voice="{name}"])` selector.
#[derive(Debug, PartialEq, Eq, PartialOrd, Ord, Hash)]
pub struct VoiceName(String);

impl VoiceName {
    #[verifier::type_invariant]
    spec fn well_shaped(self) -> bool {
        voice_name_error(self.0@) is None
    }
}

impl View for VoiceName {
    type V = Seq<char>;

    closed spec fn view(&self) -> Seq<char> {
        self.0@
    }
}

impl VoiceName {
    /// Wraps `source` if and only if it is a valid voice name.
    pub fn new(source: String) -> (result: Result<VoiceName, InvalidVoiceName>)
        ensures
            match voice_name_error(source@) {
                Some(error) => result == Err::<VoiceName, InvalidVoiceName>(error),
                None => result matches Ok(name) && name@ == source@,
            },
    {
        let chars = chars_of(source.as_str());
        if chars.len() == 0 {
            return Err(InvalidVoiceName::Empty);
        }
        let end = span_while(
            &chars,
            0,
            voice_char,
            Ghost(voice_char_allowed()),
        );
        proof {
            assert(chars@.skip(0) == chars@);
        }
        if end < chars.len() {
            return Err(InvalidVoiceName::ForbiddenCharacter(chars[end]));
        }
        Ok(VoiceName(source))
    }

    /// The voice-name text.
    pub fn as_str(&self) -> (result: &str)
        ensures
            result@ == self@,
            voice_name_error(self@) is None,
    {
        proof {
            use_type_invariant(self);
        }
        self.0.as_str()
    }

    /// A copy of the name.
    pub fn duplicate(&self) -> (result: VoiceName)
        ensures
            result@ == self@,
    {
        proof {
            use_type_invariant(self);
        }
        VoiceName(self.0.clone())
    }
}

/// The value of the first entry of `entries` whose key has the view `key`.
pub open spec fn lookup<V>(entries: Seq<(MarkerName, V)>, key: Seq<char>) -> Option<V> {
    let k = prefix_len(entries, key_differs::<V>(key));
    if k < entries.len() {
        Some(entries[k as int].1)
    } else {
        None
    }
}

/// The predicate that holds of an entry whose key does not have the view
/// `key`.
pub open spec fn key_differs<V>(key: Seq<char>) -> spec_fn((MarkerName, V)) -> bool {
    |entry: (MarkerName, V)| entry.0@ != key
}

/// The value of the first entry of `entries` whose key is `language`.
pub open spec fn lookup_language<V>(entries: Seq<(Language, V)>, language: Language) -> Option<V> {
    let k = prefix_len(entries, language_differs::<V>(language));
    if k < entries.len() {
        Some(entries[k as int].1)
    } else {
        None
    }
}

/// The predicate that holds of an entry whose key is not `language`.
pub open spec fn language_differs<V>(language: Language) -> spec_fn((Language, V)) -> bool {
    |entry: (Language, V)| entry.0 != language
}

/// Whether no two entries of `entries` have keys with the same view, as
/// in a map keyed by marker.
pub open spec fn distinct_keys<V>(entries: Seq<(MarkerName, V)>) -> bool {
    forall|i: int, j: int|
        0 <= i < j < entries.len() ==> #[trigger] entries[i].0@ != #[trigger] entries[j].0@
}

/// Whether no two entries of `entries` have the same language, as in a
/// map keyed by language.
pub open spec fn distinct_languages<V>(entries: Seq<(Language, V)>) -> bool {
    forall|i: int, j: int| 0 <= i < j < entries.len() ==> #[trigger] entries[i].0 != #[trigger] entries[j].0
}

/// Whether no two entries of `entries` have keys with the same text.
pub fn keys_are_distinct<V>(entries: &Vec<(MarkerName, V)>) -> (result: bool)
    ensures
        result == distinct_keys(entries@),
{
    let n = entries.len();
    let mut i: usize = 0;
    while i < n
        invariant
            n == entries@.len(),
            i <= n,
            forall|a: int, b: int|
                0 <= a < b < n && a < i ==> #[trigger] entries@[a].0@ != #[trigger] entries@[b].0@,
        decreases n - i,
    {
        let mut j: usize = i + 1;
        while j < n
            invariant
                n == entries@.len(),
                i < n,
                i + 1 <= j <= n,
                forall|a: int, b: int|
                    0 <= a < b < n && a < i ==> #[trigger] entries@[a].0@ != #[trigger] entries@[b].0@,
                forall|b: int| i < b < j ==> entries@[i as int].0@ != #[trigger] entries@[b].0@,
            decreases n - j,
        {
            if same_text(entries[i].0.as_str(), entries[j].0.as_str()) {
                assert(entries@[i as int].0@ == entries@[j as int].0@);
                return false;
            }
            j = j + 1;
        }
        i = i + 1;
    }
    true
}

/// Whether no two entries of `entries` have the same language.
pub fn languages_are_distinct<V>(entries: &Vec<(Language, V)>) -> (result: bool)
    ensures
        result == distinct_languages(entries@),
{
    let n = entries.len();
    let mut i: usize = 0;
    while i < n
        invariant
            n == entries@.len(),
            i <= n,
            forall|a: int, b: int|
                0 <= a < b < n && a < i ==> #[trigger] entries@[a].0 != #[trigger] entries@[b].0,
        decreases n - i,
    {
        let mut j: usize = i + 1;
        while j < n
            invariant
                n == entries@.len(),
                i < n,
                i + 1 <= j <= n,
                forall|a: int, b: int|
                    0 <= a < b < n && a < i ==> #[trigger] entries@[a].0 != #[trigger] entries@[b].0,
                forall|b: int| i < b < j ==> entries@[i as int].0 != #[trigger] entries@[b].0,
            decreases n - j,
        {
            if entries[i].0 == entries[j].0 {
                assert(entries@[i as int].0 == entries@[j as int].0);
                return false;
            }
            j = j + 1;
        }
        i = i + 1;
    }
    true
}

/// Whether every list of `lists` has distinct languages.
fn all_languages_distinct<V>(lists: &Vec<Vec<(Language, V)>>) -> (result: bool)
    ensures
        result == forall|i: int| 0 <= i < lists@.len() ==> distinct_languages(#[trigger] lists@[i]@),
{
    let mut i: usize = 0;
    while i < lists.len()
        invariant
            i <= lists@.len(),
            forall|k: int| 0 <= k < i ==> distinct_languages(#[trigger] lists@[k]@),
        decreases lists@.len() - i,
    {
        if !languages_are_distinct(&lists[i]) {
            return false;
        }
        i = i + 1;
    }
    true
}

/// On entries with distinct keys, [`lookup`] finds the value of the one
/// entry with the key, as a map lookup does.
pub proof fn lemma_lookup_distinct<V>(entries: Seq<(MarkerName, V)>, i: int)
    requires
        distinct_keys(entries),
        0 <= i < entries.len(),
    ensures
        lookup(entries, entries[i].0@) == Some(entries[i].1),
{
    let p = key_differs::<V>(entries[i].0@);
    lemma_prefix_len(entries, p);
    assert(!p(entries[i]));
    let k = prefix_len(entries, p) as int;
    if k < i {
        assert(!p(entries[k]));
        assert(entries[k].0@ != entries[i].0@);
    }
}

/// On entries with distinct languages, [`lookup_language`] finds the value
/// of the one entry with the language, as a map lookup does.
pub proof fn lemma_lookup_language_distinct<V>(entries: Seq<(Language, V)>, i: int)
    requires
        distinct_languages(entries),
        0 <= i < entries.len(),
    ensures
        lookup_language(entries, entries[i].0) == Some(entries[i].1),
{
    let p = language_differs::<V>(entries[i].0);
    lemma_prefix_len(entries, p);
    assert(!p(entries[i]));
    let k = prefix_len(entries, p) as int;
    if k < i {
        assert(!p(entries[k]));
        assert(entries[k].0 != entries[i].0);
    }
}

/// Whether some element of `names` has the view `name`.
pub open spec fn contains_name(names: Seq<MarkerName>, name: Seq<char>) -> bool {
    exists|i: int| 0 <= i < names.len() && names[i]@ == name
}

/// The parsed contents of a `line-markers.toml` file: every marker a song
/// uses, grouped by the rendering role it plays.
#[derive(Debug)]
pub struct LineMarkersDesc {
    /// Every marker the song uses, in the order the style block emits
    /// per-marker rules.
    pub markers: Vec<MarkerName>,
    /// Markers that name a voice, each with its voice name per language.
    pub voices: Vec<(MarkerName, Vec<(Language, VoiceName)>)>,
    /// Markers that name a class, each with its class name.
    pub classes: Vec<(MarkerName, CssClassName)>,
    /// Markers that open a credit block.
    pub credits: Vec<MarkerName>,
}

impl Default for LineMarkersDesc {
    fn default() -> (result: LineMarkersDesc)
        ensures
            result.markers@.len() == 0,
            result.voices@.len() == 0,
            result.classes@.len() == 0,
            result.credits@.len() == 0,
            result.wf(),
    {
        LineMarkersDesc {
            markers: Vec::new(),
            voices: Vec::new(),
            classes: Vec::new(),
            credits: Vec::new(),
        }
    }
}

impl LineMarkersDesc {
    /// Whether the descriptor is a set of maps, as its file is: each
    /// marker is a voice at most once, has a voice name per language at
    /// most once, and is a class at most once.
    pub open spec fn wf(self) -> bool {
        &&& distinct_keys(self.voices@)
        &&& forall|i: int|
            0 <= i < self.voices@.len() ==> distinct_languages(#[trigger] self.voices@[i].1@)
        &&& distinct_keys(self.classes@)
    }

    /// Whether the descriptor is well formed: no marker is a voice or a
    /// class twice, and no voice is named twice in one language.
    pub fn is_well_formed(&self) -> (result: bool)
        ensures
            result == self.wf(),
    {
        if !keys_are_distinct(&self.voices) || !keys_are_distinct(&self.classes) {
            return false;
        }
        let mut i: usize = 0;
        while i < self.voices.len()
            invariant
                i <= self.voices@.len(),
                forall|k: int| 0 <= k < i ==> distinct_languages(#[trigger] self.voices@[k].1@),
            decreases self.voices@.len() - i,
        {
            if !languages_are_distinct(&self.voices[i].1) {
                return false;
            }
            i = i + 1;
        }
        true
    }

    /// Whether `marker` opens a credit block in this song.
    pub fn is_credit(&self, marker: &str) -> (result: bool)
        ensures
            result == contains_name(self.credits@, marker@),
    {
        let mut i: usize = 0;
        while i < self.credits.len()
            invariant
                0 <= i <= self.credits@.len(),
                forall|j: int| 0 <= j < i ==> self.credits@[j]@ != marker@,
            decreases self.credits@.len() - i,
        {
            if same_text(self.credits[i].as_str(), marker) {
                return true;
            }
            i = i + 1;
        }
        false
    }

    /// The voice names declared for `marker`, if it names a voice.
    pub fn voice_entry(&self, marker: &str) -> (result: Option<&Vec<(Language, VoiceName)>>)
        ensures
            match lookup(self.voices@, marker@) {
                Some(v) => result == Some(&v),
                None => result is None,
            },
    {
        let ghost p = key_differs::<Vec<(Language, VoiceName)>>(marker@);
        let mut i: usize = 0;
        while i < self.voices.len()
            invariant
                0 <= i <= self.voices@.len(),
                p == key_differs::<Vec<(Language, VoiceName)>>(marker@),
                forall|j: int| 0 <= j < i ==> p(#[trigger] self.voices@[j]),
            decreases self.voices@.len() - i,
        {
            if same_text(self.voices[i].0.as_str(), marker) {
                proof {
                    lemma_prefix_len_is(self.voices@, p, i as int);
                }
                return Some(&self.voices[i].1);
            }
            i = i + 1;
        }
        proof {
            lemma_prefix_len_is(self.voices@, p, i as int);
        }
        None
    }

    /// The class name declared for `marker`, if it names a class.
    pub fn class_entry(&self, marker: &str) -> (result: Option<&CssClassName>)
        ensures
            match lookup(self.classes@, marker@) {
                Some(v) => result == Some(&v),
                None => result is None,
            },
    {
        let ghost p = key_differs::<CssClassName>(marker@);
        let mut i: usize = 0;
        while i < self.classes.len()
            invariant
                0 <= i <= self.classes@.len(),
                p == key_differs::<CssClassName>(marker@),
                forall|j: int| 0 <= j < i ==> p(#[trigger] self.classes@[j]),
            decreases self.classes@.len() - i,
        {
            if same_text(self.classes[i].0.as_str(), marker) {
                proof {
                    lemma_prefix_len_is(self.classes@, p, i as int);
                }
                return Some(&self.classes[i].1);
            }
            i = i + 1;
        }
        proof {
            lemma_prefix_len_is(self.classes@, p, i as int);
        }
        None
    }
}

/// The value of the first entry of `entries` whose key is `language`.
pub fn find_language<V>(entries: &Vec<(Language, V)>, language: Language) -> (result: Option<&V>)
    ensures
        match lookup_language(entries@, language) {
            Some(v) => result == Some(&v),
            None => result is None,
        },
{
    let ghost p = language_differs::<V>(language);
    let mut i: usize = 0;
    while i < entries.len()
        invariant
            0 <= i <= entries@.len(),
            p == language_differs::<V>(language),
            forall|j: int| 0 <= j < i ==> p(#[trigger] entries@[j]),
        decreases entries@.len() - i,
    {
        if entries[i].0 == language {
            proof {
                lemma_prefix_len_is(entries@, p, i as int);
            }
            return Some(&entries[i].1);
        }
        i = i + 1;
    }
    proof {
        lemma_prefix_len_is(entries@, p, i as int);
    }
    None
}

/// The label of a credit role, such as the word a credit line opens with.
#[derive(Clone, Debug, PartialEq, Eq, PartialOrd, Ord)]
pub struct CreditRole(String);

impl View for CreditRole {
    type V = Seq<char>;

    closed spec fn view(&self) -> Seq<char> {
        self.0@
    }
}

impl CreditRole {
    /// Wraps `source`; a role imposes no shape of its own.
    pub fn from(source: String) -> (result: CreditRole)
        ensures
            result@ == source@,
    {
        CreditRole(source)
    }

    /// The role text.
    pub fn as_str(&self) -> (result: &str)
        ensures
            result@ == self@,
    {
        self.0.as_str()
    }
}

/// The name of a credited person or studio.
#[derive(Clone, Debug, PartialEq, Eq, PartialOrd, Ord)]
pub struct CreditName(String);

impl View for CreditName {
    type V = Seq<char>;

    closed spec fn view(&self) -> Seq<char> {
        self.0@
    }
}

impl CreditName {
    /// Wraps `source`; a name imposes no shape of its own.
    pub fn from(source: String) -> (result: CreditName)
        ensures
            result@ == source@,
    {
        CreditName(source)
    }

    /// The name text.
    pub fn as_str(&self) -> (result: &str)
        ensures
            result@ == self@,
    {
        self.0.as_str()
    }
}

/// The parsed contents of a `credits.yaml` file.
#[derive(Debug)]
pub struct CreditsDesc {
    /// Ordered credit role entries, each giving the role's label per
    /// language.
    pub credit_roles: Vec<Vec<(Language, CreditRole)>>,
    /// Ordered credited name entries, each giving the name per language.
    pub credit_names: Vec<Vec<(Language, CreditName)>>,
}

impl CreditsDesc {
    /// Whether each role and each name entry gives its label per language
    /// at most once, as its file does.
    pub open spec fn wf(self) -> bool {
        &&& forall|i: int|
            0 <= i < self.credit_roles@.len() ==> distinct_languages(#[trigger] self.credit_roles@[i]@)
        &&& forall|i: int|
            0 <= i < self.credit_names@.len() ==> distinct_languages(#[trigger] self.credit_names@[i]@)
    }

    /// Whether the descriptor is well formed: no role or name entry gives
    /// its label twice in one language.
    pub fn is_well_formed(&self) -> (result: bool)
        ensures
            result == self.wf(),
    {
        all_languages_distinct(&self.credit_roles) && all_languages_distinct(&self.credit_names)
    }
}

impl Default for CreditsDesc {
    fn default() -> (result: CreditsDesc)
        ensures
            result.credit_roles@.len() == 0,
            result.credit_names@.len() == 0,
            result.wf(),
    {
        CreditsDesc { credit_roles: Vec::new(), credit_names: Vec::new() }
    }
}

} // verus!
