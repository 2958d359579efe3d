//! What the generator computes for a song, apart from reading and
//! writing files: the language of a lyrics file from its name, the
//! song's language bundles in language order, the subtitle files of a
//! song, and the count of files added and updated.

use crate::descriptors::{language_code, language_of_code, CreditsDesc, Language, LineMarkersDesc};
use crate::parse::SubtitleCue;
use crate::render_common::{failure_message, RenderFailure};
use crate::render_srt::{render_srt, srt_file, RenderSrtError};
use crate::render_vtt::{render_vtt, vtt_file, RenderVttError};
use crate::styles::StylePalette;
use crate::text::{chars_of, push_str, same_text, string_of};
use vstd::prelude::*;

verus! {

/// The cues of one language of a song.
#[derive(Debug)]
pub struct LanguageBundle {
    /// The language.
    pub language: Language,
    /// The parsed cues of its lyrics file.
    pub cues: Vec<SubtitleCue>,
}

/// A song, as loaded from its directory.
#[derive(Debug)]
pub struct Song {
    /// The name of the song's directory, which names its output directory.
    pub directory_name: String,
    /// The song's line markers.
    pub markers: LineMarkersDesc,
    /// The song's credit roles and names.
    pub credits: CreditsDesc,
    /// The song's languages, in language order, each once.
    pub languages: Vec<LanguageBundle>,
}

/// The position of a language in language order.
pub open spec fn language_rank(language: Language) -> int {
    match language {
        Language::Chinese => 0,
        Language::English => 1,
        Language::Vietnamese => 2,
    }
}

fn rank(language: Language) -> (result: u8)
    ensures
        result == language_rank(language),
{
    match language {
        Language::Chinese => 0,
        Language::English => 1,
        Language::Vietnamese => 2,
    }
}

/// The languages of a list of bundles.
pub open spec fn bundle_languages(bundles: Seq<LanguageBundle>) -> Seq<Language> {
    bundles.map_values(|bundle: LanguageBundle| bundle.language)
}

/// Whether `languages` is in strictly increasing language order, so that
/// no language occurs twice.
pub open spec fn languages_ordered(languages: Seq<Language>) -> bool {
    forall|i: int, j: int|
        0 <= i < j < languages.len() ==> language_rank(#[trigger] languages[i]) < language_rank(
            #[trigger] languages[j],
        )
}

/// The language code of a lyrics file named `lyrics.{code}.txt`.
pub open spec fn lyrics_file_code_of(name: Seq<char>) -> Option<Seq<char>> {
    let prefix = "lyrics."@;
    let suffix = ".txt"@;
    if name.len() >= prefix.len() + suffix.len() && name.take(prefix.len() as int) == prefix
        && name.skip(name.len() - suffix.len()) == suffix {
        Some(name.subrange(prefix.len() as int, name.len() - suffix.len()))
    } else {
        None
    }
}

/// Reading a code from a lyrics file name undoes writing it: the name
/// `lyrics.{code}.txt` reads as exactly `code`, whatever `code` is, and a
/// name that reads as a code is `lyrics.`, that code, and `.txt`.
pub proof fn lemma_lyrics_file_code_round_trip(code: Seq<char>, name: Seq<char>)
    ensures
        lyrics_file_code_of("lyrics."@ + code + ".txt"@) == Some(code),
        lyrics_file_code_of(name) matches Some(c) ==> name == "lyrics."@ + c + ".txt"@,
{
    reveal_strlit("lyrics.");
    reveal_strlit(".txt");
    let prefix = "lyrics."@;
    let suffix = ".txt"@;
    let written = prefix + code + suffix;
    assert(written.take(prefix.len() as int) =~= prefix);
    assert(written.skip(written.len() - suffix.len()) =~= suffix);
    assert(written.subrange(prefix.len() as int, written.len() - suffix.len()) =~= code);
    if let Some(c) = lyrics_file_code_of(name) {
        assert(name =~= name.take(prefix.len() as int) + name.subrange(
            prefix.len() as int,
            name.len() - suffix.len(),
        ) + name.skip(name.len() - suffix.len()));
    }
}

/// The language code in the name of a lyrics file, `vi` in
/// `lyrics.vi.txt`; `None` for a file that is not named like a lyrics
/// file.
pub fn lyrics_file_code(file_name: &str) -> (result: Option<String>)
    ensures
        match lyrics_file_code_of(file_name@) {
            Some(code) => result matches Some(s) && s@ == code,
            None => result is None,
        },
{
    let chars = chars_of(file_name);
    let prefix = chars_of("lyrics.");
    let suffix = chars_of(".txt");
    proof {
        reveal_strlit("lyrics.");
        reveal_strlit(".txt");
    }
    if chars.len() < prefix.len() + suffix.len() {
        return None;
    }
    let total = chars.len();
    let mut i: usize = 0;
    while i < prefix.len()
        invariant
            i <= prefix@.len(),
            chars@ == file_name@,
            prefix@ == "lyrics."@,
            prefix@.len() + suffix@.len() <= chars@.len(),
            forall|j: int| 0 <= j < i ==> chars@[j] == prefix@[j],
        decreases prefix@.len() - i,
    {
        if chars[i] != prefix[i] {
            proof {
                assert(chars@.take(prefix@.len() as int)[i as int] == chars@[i as int]);
                assert(chars@.take(prefix@.len() as int) != prefix@);
            }
            return None;
        }
        i = i + 1;
    }
    proof {
        assert(chars@.take(prefix@.len() as int) =~= prefix@);
    }
    let offset = chars.len() - suffix.len();
    let mut k: usize = 0;
    while k < suffix.len()
        invariant
            k <= suffix@.len(),
            chars@ == file_name@,
            total == chars@.len(),
            prefix@ == "lyrics."@,
            prefix@.len() + suffix@.len() <= chars@.len(),
            chars@.take(prefix@.len() as int) == prefix@,
            suffix@ == ".txt"@,
            offset == chars@.len() - suffix@.len(),
            forall|j: int| 0 <= j < k ==> chars@[offset + j] == suffix@[j],
        decreases suffix@.len() - k,
    {
        if chars[offset + k] != suffix[k] {
            proof {
                assert(chars@.skip(offset as int)[k as int] == chars@[offset + k]);
                assert(chars@.skip(offset as int) != suffix@);
            }
            return None;
        }
        k = k + 1;
    }
    proof {
        assert(chars@.skip(offset as int) =~= suffix@);
    }
    Some(string_of(&chars, prefix.len(), offset))
}

/// Adds `bundle` to `bundles`, which are in language order, at its place
/// in that order; a language that is already there is refused, and the
/// bundles are left as they were.
pub fn add_bundle(bundles: &mut Vec<LanguageBundle>, bundle: LanguageBundle) -> (result: Result<
    (),
    Language,
>)
    requires
        languages_ordered(bundle_languages(old(bundles)@)),
    ensures
        languages_ordered(bundle_languages(final(bundles)@)),
        bundle_languages(old(bundles)@).contains(bundle.language) ==> result == Err::<(), Language>(
            bundle.language,
        ) && final(bundles)@ == old(bundles)@,
        !bundle_languages(old(bundles)@).contains(bundle.language) ==> result is Ok && exists|
            j: int,
        |
            0 <= j <= old(bundles)@.len() && final(bundles)@ == old(bundles)@.insert(j, bundle),
{
    let ghost old_languages = bundle_languages(bundles@);
    let new_rank = rank(bundle.language);
    let mut j: usize = 0;
    while j < bundles.len() && rank(bundles[j].language) < new_rank
        invariant
            j <= bundles@.len(),
            bundles@ == old(bundles)@,
            old_languages == bundle_languages(bundles@),
            new_rank == language_rank(bundle.language),
            forall|t: int| 0 <= t < j ==> language_rank(#[trigger] old_languages[t]) < new_rank,
        decreases bundles@.len() - j,
    {
        j = j + 1;
    }
    if j < bundles.len() && rank(bundles[j].language) == new_rank {
        proof {
            assert(old_languages[j as int] == bundle.language);
        }
        return Err(bundle.language);
    }
    proof {
        if old_languages.contains(bundle.language) {
            let t = choose|t: int| 0 <= t < old_languages.len() && old_languages[t] == bundle.language;
            if t >= j {
                assert(language_rank(old_languages[j as int]) > new_rank);
                if t > j {
                    assert(language_rank(old_languages[j as int]) < language_rank(old_languages[t]));
                }
            }
        }
    }
    let ghost before = bundles@;
    let ghost language = bundle.language;
    bundles.insert(j, bundle);
    proof {
        let new_languages = bundle_languages(bundles@);
        assert(new_languages =~= old_languages.insert(j as int, language));
        assert forall|a: int, b: int| 0 <= a < b < new_languages.len() implies language_rank(
            #[trigger] new_languages[a],
        ) < language_rank(#[trigger] new_languages[b]) by {
            if a < j && b > j {
                assert(new_languages[b] == old_languages[b - 1]);
                assert(new_languages[a] == old_languages[a]);
            } else if a == j && b > j {
                assert(new_languages[b] == old_languages[b - 1]);
                if b - 1 > j {
                    assert(language_rank(old_languages[j as int]) < language_rank(
                        old_languages[b - 1],
                    ));
                }
            } else if a > j {
                assert(new_languages[a] == old_languages[a - 1]);
                assert(new_languages[b] == old_languages[b - 1]);
            }
        }
    }
    Ok(())
}

/// Whether a subtitle file was added, updated, or left as it was.
#[derive(Clone, Copy, Debug, PartialEq, Eq, Structural)]
pub enum WriteOutcome {
    /// The file did not exist.
    Added,
    /// The file existed with other content.
    Updated,
    /// The file existed with the same content.
    Unchanged,
}

/// What writing `content` does to a file that holds `existing`, or that
/// does not exist.
pub fn write_outcome(existing: Option<&str>, content: &str) -> (result: WriteOutcome)
    ensures
        result == match existing {
            None => WriteOutcome::Added,
            Some(text) => if text@ == content@ {
                WriteOutcome::Unchanged
            } else {
                WriteOutcome::Updated
            },
        },
{
    match existing {
        None => WriteOutcome::Added,
        Some(text) => if same_text(text, content) {
            WriteOutcome::Unchanged
        } else {
            WriteOutcome::Updated
        },
    }
}

/// How many subtitle files a run added and updated.
#[derive(Clone, Copy, Debug, PartialEq, Eq, Structural)]
pub struct RenderCounts {
    /// Files that did not exist.
    pub added: usize,
    /// Files that existed with other content.
    pub updated: usize,
}

impl RenderCounts {
    /// No file added or updated.
    pub fn new() -> (result: RenderCounts)
        ensures
            result.added == 0,
            result.updated == 0,
    {
        RenderCounts { added: 0, updated: 0 }
    }

    /// The number of files added or updated.
    pub fn total(self) -> (result: usize)
        requires
            self.added + self.updated <= usize::MAX,
        ensures
            result == self.added + self.updated,
    {
        self.added + self.updated
    }

    /// Counts one file written with `outcome`.
    pub fn record(&mut self, outcome: WriteOutcome)
        requires
            outcome == WriteOutcome::Added ==> old(self).added < usize::MAX,
            outcome == WriteOutcome::Updated ==> old(self).updated < usize::MAX,
        ensures
            final(self).added == old(self).added + (if outcome == WriteOutcome::Added {
                1int
            } else {
                0
            }),
            final(self).updated == old(self).updated + (if outcome == WriteOutcome::Updated {
                1int
            } else {
                0
            }),
    {
        match outcome {
            WriteOutcome::Added => self.added = self.added + 1,
            WriteOutcome::Updated => self.updated = self.updated + 1,
            WriteOutcome::Unchanged => {},
        }
    }

    /// Adds the counts of `other`.
    pub fn add(&mut self, other: RenderCounts)
        requires
            old(self).added + other.added <= usize::MAX,
            old(self).updated + other.updated <= usize::MAX,
        ensures
            final(self).added == old(self).added + other.added,
            final(self).updated == old(self).updated + other.updated,
    {
        self.added = self.added + other.added;
        self.updated = self.updated + other.updated;
    }
}

/// A subtitle file of a song: its name in the song's output directory,
/// and its content.
#[derive(Debug, PartialEq, Eq)]
pub struct SubtitleFile {
    /// The file name, such as `lyrics.vi.vtt`.
    pub name: String,
    /// The rendered subtitles.
    pub content: String,
}

/// Why a song's subtitle files could not be rendered.
#[derive(Debug)]
pub enum RenderSongError {
    /// The WebVTT file of a language failed.
    Vtt(Language, RenderVttError),
    /// The SubRip file of a language failed.
    Srt(Language, RenderSrtError),
}

/// The name of the subtitle file of `language` with `extension`.
pub open spec fn subtitle_file_name(language: Language, extension: Seq<char>) -> Seq<char> {
    "lyrics."@ + language_code(language) + seq!['.'] + extension
}

/// The WebVTT and the SubRip file of a bundle, or the first of them that
/// fails, with its language and whether it was the WebVTT file.
#[verifier::opaque]
pub open spec fn bundle_files_of(
    bundle: LanguageBundle,
    markers: LineMarkersDesc,
    credits: CreditsDesc,
    palette: StylePalette,
) -> Result<(Seq<char>, Seq<char>), (Language, bool, RenderFailure)> {
    match vtt_file(bundle.cues@, markers, credits, palette, bundle.language) {
        Err(failure) => Err((bundle.language, true, failure)),
        Ok(vtt) => match srt_file(bundle.cues@, markers, credits, palette, bundle.language) {
            Err(failure) => Err((bundle.language, false, failure)),
            Ok(srt) => Ok((vtt, srt)),
        },
    }
}

/// The subtitle files of the bundles: for each language in order, its
/// WebVTT file, then its SubRip file; or the first render that fails,
/// with its language and whether it was the WebVTT file.
pub open spec fn song_files_of(
    bundles: Seq<LanguageBundle>,
    markers: LineMarkersDesc,
    credits: CreditsDesc,
    palette: StylePalette,
) -> Result<Seq<(Seq<char>, Seq<char>)>, (Language, bool, RenderFailure)>
    decreases bundles.len(),
{
    if bundles.len() == 0 {
        Ok(Seq::empty())
    } else {
        match song_files_of(bundles.drop_last(), markers, credits, palette) {
            Err(failure) => Err(failure),
            Ok(done) => match bundle_files_of(bundles.last(), markers, credits, palette) {
                Err(failure) => Err(failure),
                Ok((vtt, srt)) => Ok(
                    done + seq![
                        (subtitle_file_name(bundles.last().language, "vtt"@), vtt),
                        (subtitle_file_name(bundles.last().language, "srt"@), srt),
                    ],
                ),
            },
        }
    }
}

/// The names and contents of a list of subtitle files.
pub open spec fn files_view(files: Seq<SubtitleFile>) -> Seq<(Seq<char>, Seq<char>)> {
    files.map_values(|file: SubtitleFile| (file.name@, file.content@))
}

/// What a render-song error says about a language and format.
pub open spec fn render_song_failure(error: RenderSongError) -> (Language, bool, RenderFailure) {
    match error {
        RenderSongError::Vtt(language, e) => (language, true, e@),
        RenderSongError::Srt(language, e) => (language, false, e@),
    }
}

/// The name of the subtitle file of `language` with `extension`.
fn file_name(language: Language, extension: &str) -> (result: String)
    ensures
        result@ == subtitle_file_name(language, extension@),
{
    let mut name = String::new();
    push_str(&mut name, "lyrics.");
    push_str(&mut name, language.code());
    crate::text::push_char(&mut name, '.');
    push_str(&mut name, extension);
    name
}

/// Once a prefix of the bundles fails, the song fails the same way.
proof fn lemma_song_failure_stays(
    bundles: Seq<LanguageBundle>,
    k: int,
    markers: LineMarkersDesc,
    credits: CreditsDesc,
    palette: StylePalette,
)
    requires
        0 <= k <= bundles.len(),
        song_files_of(bundles.take(k), markers, credits, palette) is Err,
    ensures
        song_files_of(bundles, markers, credits, palette) == song_files_of(
            bundles.take(k),
            markers,
            credits,
            palette,
        ),
    decreases bundles.len() - k,
{
    if k < bundles.len() {
        let t = bundles.take(k + 1);
        assert(t.drop_last() =~= bundles.take(k));
        lemma_song_failure_stays(bundles, k + 1, markers, credits, palette);
    } else {
        assert(bundles.take(k) =~= bundles);
    }
}

/// Renders the WebVTT and the SubRip file of one language of a song.
fn bundle_files(bundle: &LanguageBundle, song: &Song, palette: &StylePalette) -> (result: Result<
    (SubtitleFile, SubtitleFile),
    RenderSongError,
>)
    requires
        song.markers.wf(),
        song.credits.wf(),
        palette.wf(),
    ensures
        match bundle_files_of(*bundle, song.markers, song.credits, *palette) {
            Err(failure) => result matches Err(e) && render_song_failure(e) == failure,
            Ok((vtt, srt)) => result matches Ok((v, s)) && v.name@ == subtitle_file_name(
                bundle.language,
                "vtt"@,
            ) && v.content@ == vtt && s.name@ == subtitle_file_name(bundle.language, "srt"@)
                && s.content@ == srt,
        },
{
    proof {
        reveal(bundle_files_of);
    }
    let vtt = match render_vtt(&bundle.cues, &song.markers, &song.credits, palette, &bundle.language) {
        Ok(text) => text,
        Err(error) => {
            return Err(RenderSongError::Vtt(bundle.language, error));
        },
    };
    let srt = match render_srt(&bundle.cues, &song.markers, &song.credits, palette, &bundle.language) {
        Ok(text) => text,
        Err(error) => {
            return Err(RenderSongError::Srt(bundle.language, error));
        },
    };
    Ok(
        (
            SubtitleFile { name: file_name(bundle.language, "vtt"), content: vtt },
            SubtitleFile { name: file_name(bundle.language, "srt"), content: srt },
        ),
    )
}

/// Renders the subtitle files of a song: for each of its languages, the
/// WebVTT file and then the SubRip file.
pub fn song_files(song: &Song, palette: &StylePalette) -> (result: Result<
    Vec<SubtitleFile>,
    RenderSongError,
>)
    requires
        song.markers.wf(),
        song.credits.wf(),
        palette.wf(),
    ensures
        match song_files_of(song.languages@, song.markers, song.credits, *palette) {
            Ok(files) => result matches Ok(v) && files_view(v@) == files,
            Err(failure) => result matches Err(e) && render_song_failure(e) == failure,
        },
{
    let ghost all = song.languages@;
    let mut files: Vec<SubtitleFile> = Vec::new();
    let mut i: usize = 0;
    proof {
        assert(all.take(0) =~= Seq::<LanguageBundle>::empty());
        assert(files_view(files@) =~= Seq::<(Seq<char>, Seq<char>)>::empty());
    }
    while i < song.languages.len()
        invariant
            i <= all.len(),
            all == song.languages@,
            song.markers.wf(),
            song.credits.wf(),
            palette.wf(),
            song_files_of(all.take(i as int), song.markers, song.credits, *palette) matches Ok(done)
                && files_view(files@) == done,
        decreases all.len() - i,
    {
        let ghost t = all.take(i + 1);
        proof {
            assert(t.drop_last() =~= all.take(i as int));
            assert(t.last() == all[i as int]);
        }
        let ghost before = files@;
        match bundle_files(&song.languages[i], song, palette) {
            Err(error) => {
                proof {
                    lemma_song_failure_stays(all, i + 1, song.markers, song.credits, *palette);
                }
                return Err(error);
            },
            Ok((vtt, srt)) => {
                files.push(vtt);
                files.push(srt);
                proof {
                    assert(files_view(files@) =~= files_view(before) + seq![
                        (files@[files@.len() - 2].name@, files@[files@.len() - 2].content@),
                        (files@[files@.len() - 1].name@, files@[files@.len() - 1].content@),
                    ]);
                }
            },
        }
        i = i + 1;
    }
    proof {
        assert(all.take(all.len() as int) =~= all);
    }
    Ok(files)
}

/// The WebVTT file (when `webvtt`) or the SubRip file of a bundle: its
/// name and content, or its failure with its language and whether it is
/// the WebVTT file.
#[verifier::opaque]
pub open spec fn format_file_of(
    bundle: LanguageBundle,
    markers: LineMarkersDesc,
    credits: CreditsDesc,
    palette: StylePalette,
    webvtt: bool,
) -> Result<(Seq<char>, Seq<char>), (Language, bool, RenderFailure)> {
    if webvtt {
        match vtt_file(bundle.cues@, markers, credits, palette, bundle.language) {
            Ok(text) => Ok((subtitle_file_name(bundle.language, "vtt"@), text)),
            Err(failure) => Err((bundle.language, true, failure)),
        }
    } else {
        match srt_file(bundle.cues@, markers, credits, palette, bundle.language) {
            Ok(text) => Ok((subtitle_file_name(bundle.language, "srt"@), text)),
            Err(failure) => Err((bundle.language, false, failure)),
        }
    }
}

/// The two files of a bundle, in terms of each file alone.
proof fn lemma_bundle_formats(
    bundle: LanguageBundle,
    markers: LineMarkersDesc,
    credits: CreditsDesc,
    palette: StylePalette,
)
    ensures
        bundle_files_of(bundle, markers, credits, palette) == match format_file_of(
            bundle,
            markers,
            credits,
            palette,
            true,
        ) {
            Err(failure) => Err(failure),
            Ok(vtt) => match format_file_of(bundle, markers, credits, palette, false) {
                Err(failure) => Err(failure),
                Ok(srt) => Ok((vtt.1, srt.1)),
            },
        },
        format_file_of(bundle, markers, credits, palette, true) matches Ok(vtt) ==> vtt.0
            == subtitle_file_name(bundle.language, "vtt"@),
        format_file_of(bundle, markers, credits, palette, false) matches Ok(srt) ==> srt.0
            == subtitle_file_name(bundle.language, "srt"@),
{
    reveal(bundle_files_of);
    reveal(format_file_of);
}

/// The subtitle file at position `index` in the order a song's files are
/// written (for each language in order, its WebVTT file, then its SubRip
/// file), or its failure with its language and whether it is the WebVTT
/// file; `None` past the last file.
pub open spec fn song_file_of(
    bundles: Seq<LanguageBundle>,
    markers: LineMarkersDesc,
    credits: CreditsDesc,
    palette: StylePalette,
    index: int,
) -> Option<Result<(Seq<char>, Seq<char>), (Language, bool, RenderFailure)>> {
    if 0 <= index < 2 * bundles.len() {
        Some(format_file_of(bundles[index / 2], markers, credits, palette, index % 2 == 0))
    } else {
        None
    }
}

/// Renders the subtitle file of `song` at position `index` in the order
/// its files are written, so that each file can be written before the
/// next one is rendered; `None` past the last file.
pub fn song_file(song: &Song, palette: &StylePalette, index: usize) -> (result: Option<
    Result<SubtitleFile, RenderSongError>,
>)
    requires
        song.markers.wf(),
        song.credits.wf(),
        palette.wf(),
    ensures
        match song_file_of(song.languages@, song.markers, song.credits, *palette, index as int) {
            None => result is None,
            Some(Ok((name, content))) => result matches Some(Ok(file)) && file.name@ == name
                && file.content@ == content,
            Some(Err(failure)) => result matches Some(Err(e)) && render_song_failure(e) == failure,
        },
{
    proof {
        reveal(format_file_of);
    }
    let count = song.languages.len();
    if index / 2 >= count {
        return None;
    }
    let bundle = &song.languages[index / 2];
    if index % 2 == 0 {
        match render_vtt(&bundle.cues, &song.markers, &song.credits, palette, &bundle.language) {
            Ok(text) => Some(Ok(SubtitleFile { name: file_name(bundle.language, "vtt"), content: text })),
            Err(error) => Some(Err(RenderSongError::Vtt(bundle.language, error))),
        }
    } else {
        match render_srt(&bundle.cues, &song.markers, &song.credits, palette, &bundle.language) {
            Ok(text) => Some(Ok(SubtitleFile { name: file_name(bundle.language, "srt"), content: text })),
            Err(error) => Some(Err(RenderSongError::Srt(bundle.language, error))),
        }
    }
}

/// The files of the languages before the last are at the same positions
/// as without the last language; the last language's two files come
/// after them.
proof fn lemma_song_file_split(
    bundles: Seq<LanguageBundle>,
    markers: LineMarkersDesc,
    credits: CreditsDesc,
    palette: StylePalette,
)
    requires
        bundles.len() > 0,
    ensures
        forall|i: int|
            0 <= i < 2 * (bundles.len() - 1) ==> #[trigger] song_file_of(
                bundles,
                markers,
                credits,
                palette,
                i,
            ) == song_file_of(bundles.drop_last(), markers, credits, palette, i),
        ({
            let last = bundles.last();
            let n = bundles.len() - 1;
            &&& song_file_of(bundles, markers, credits, palette, 2 * n) == Some(
                format_file_of(last, markers, credits, palette, true),
            )
            &&& song_file_of(bundles, markers, credits, palette, 2 * n + 1) == Some(
                format_file_of(last, markers, credits, palette, false),
            )
        }),
{
    let init = bundles.drop_last();
    let n = init.len() as int;
    assert forall|i: int| 0 <= i < 2 * n implies #[trigger] song_file_of(
        bundles,
        markers,
        credits,
        palette,
        i,
    ) == song_file_of(init, markers, credits, palette, i) by {
        assert(0 <= i / 2 < n);
        assert(bundles[i / 2] == init[i / 2]);
    }
    assert((2 * n) / 2 == n && (2 * n) % 2 == 0);
    assert((2 * n + 1) / 2 == n && (2 * n + 1) % 2 == 1);
}

/// When a song renders, rendering its files one by one gives its files in
/// order, two per language.
proof fn lemma_song_file_order_ok(
    bundles: Seq<LanguageBundle>,
    markers: LineMarkersDesc,
    credits: CreditsDesc,
    palette: StylePalette,
)
    ensures
        song_files_of(bundles, markers, credits, palette) matches Ok(files) ==> {
            &&& files.len() == 2 * bundles.len()
            &&& forall|i: int|
                0 <= i < files.len() ==> #[trigger] song_file_of(bundles, markers, credits, palette, i)
                    == Some(Ok::<(Seq<char>, Seq<char>), (Language, bool, RenderFailure)>(files[i]))
        },
    decreases bundles.len(),
{
    if bundles.len() > 0 {
        lemma_bundle_formats(bundles.last(), markers, credits, palette);
        let init = bundles.drop_last();
        let n = init.len() as int;
        lemma_song_file_order_ok(init, markers, credits, palette);
        lemma_song_file_split(bundles, markers, credits, palette);
        if let Ok(files) = song_files_of(bundles, markers, credits, palette) {
            let done = song_files_of(init, markers, credits, palette)->Ok_0;
            assert forall|i: int| 0 <= i < files.len() implies #[trigger] song_file_of(
                bundles,
                markers,
                credits,
                palette,
                i,
            ) == Some(Ok::<(Seq<char>, Seq<char>), (Language, bool, RenderFailure)>(files[i])) by {
                if i < 2 * n {
                    assert(files[i] == done[i]);
                }
            }
        }
    }
}

/// When a song fails, the first of its files that fails, rendered one by
/// one, fails the same way.
proof fn lemma_song_file_order_err(
    bundles: Seq<LanguageBundle>,
    markers: LineMarkersDesc,
    credits: CreditsDesc,
    palette: StylePalette,
)
    ensures
        song_files_of(bundles, markers, credits, palette) matches Err(failure) ==> exists|i: int|
            0 <= i < 2 * bundles.len() && #[trigger] song_file_of(bundles, markers, credits, palette, i)
                == Some(Err::<(Seq<char>, Seq<char>), (Language, bool, RenderFailure)>(failure))
                && forall|j: int|
                0 <= j < i ==> #[trigger] song_file_of(bundles, markers, credits, palette, j) matches Some(Ok(_)),
    decreases bundles.len(),
{
    if bundles.len() > 0 {
        lemma_bundle_formats(bundles.last(), markers, credits, palette);
        let init = bundles.drop_last();
        let n = init.len() as int;
        lemma_song_file_order_err(init, markers, credits, palette);
        lemma_song_file_order_ok(init, markers, credits, palette);
        lemma_song_file_split(bundles, markers, credits, palette);
        let last = bundles.last();
        if let Err(failure) = song_files_of(bundles, markers, credits, palette) {
            if let Err(earlier) = song_files_of(init, markers, credits, palette) {
                let i = choose|i: int|
                    0 <= i < 2 * n && #[trigger] song_file_of(init, markers, credits, palette, i)
                        == Some(Err::<(Seq<char>, Seq<char>), (Language, bool, RenderFailure)>(earlier))
                        && forall|j: int|
                        0 <= j < i ==> #[trigger] song_file_of(init, markers, credits, palette, j) matches Some(Ok(_));
                assert(song_file_of(bundles, markers, credits, palette, i) == song_file_of(init, markers, credits, palette, i));
                assert forall|j: int| 0 <= j < i implies #[trigger] song_file_of(
                    bundles,
                    markers,
                    credits,
                    palette,
                    j,
                ) matches Some(Ok(_)) by {
                    assert(song_file_of(init, markers, credits, palette, j) matches Some(Ok(_)));
                }
            } else {
                let done = song_files_of(init, markers, credits, palette)->Ok_0;
                assert forall|j: int| 0 <= j < 2 * n implies #[trigger] song_file_of(
                    bundles,
                    markers,
                    credits,
                    palette,
                    j,
                ) matches Some(Ok(_)) by {
                    assert(song_file_of(init, markers, credits, palette, j) == Some(
                        Ok::<(Seq<char>, Seq<char>), (Language, bool, RenderFailure)>(done[j]),
                    ));
                }
                if format_file_of(last, markers, credits, palette, true) is Err {
                    assert(song_file_of(bundles, markers, credits, palette, 2 * n) == Some(
                        Err::<(Seq<char>, Seq<char>), (Language, bool, RenderFailure)>(failure),
                    ));
                } else {
                    assert(song_file_of(bundles, markers, credits, palette, 2 * n + 1) == Some(
                        Err::<(Seq<char>, Seq<char>), (Language, bool, RenderFailure)>(failure),
                    ));
                    assert(song_file_of(bundles, markers, credits, palette, 2 * n) matches Some(Ok(_)));
                    assert forall|j: int| 0 <= j < 2 * n + 1 implies #[trigger] song_file_of(
                        bundles,
                        markers,
                        credits,
                        palette,
                        j,
                    ) matches Some(Ok(_)) by {}
                }
            }
        }
    }
}

/// Rendering a song's files one by one gives the files of the whole song
/// in order: when the song renders, file `i` is the file at position `i`
/// and there are two per language; when it fails, the first position
/// whose file fails gives that failure, every file before it rendering.
pub proof fn lemma_song_file_order(
    bundles: Seq<LanguageBundle>,
    markers: LineMarkersDesc,
    credits: CreditsDesc,
    palette: StylePalette,
)
    ensures
        song_files_of(bundles, markers, credits, palette) matches Ok(files) ==> {
            &&& files.len() == 2 * bundles.len()
            &&& forall|i: int|
                0 <= i < files.len() ==> #[trigger] song_file_of(bundles, markers, credits, palette, i)
                    == Some(Ok::<(Seq<char>, Seq<char>), (Language, bool, RenderFailure)>(files[i]))
        },
        song_files_of(bundles, markers, credits, palette) matches Err(failure) ==> exists|i: int|
            0 <= i < 2 * bundles.len() && #[trigger] song_file_of(bundles, markers, credits, palette, i)
                == Some(Err::<(Seq<char>, Seq<char>), (Language, bool, RenderFailure)>(failure))
                && forall|j: int|
                0 <= j < i ==> #[trigger] song_file_of(bundles, markers, credits, palette, j) matches Some(Ok(_)),
{
    lemma_song_file_order_ok(bundles, markers, credits, palette);
    lemma_song_file_order_err(bundles, markers, credits, palette);
}

impl RenderSongError {
    /// What the error says: the song, the file, and why it failed.
    pub fn to_string(&self, song: &str) -> (result: String)
        ensures
            result@ == "error: Failed to render "@ + song@ + "/"@ + subtitle_file_name(
                render_song_failure(*self).0,
                if render_song_failure(*self).1 {
                    "vtt"@
                } else {
                    "srt"@
                },
            ) + ": "@ + failure_message(render_song_failure(*self).2),
    {
        let mut output = String::new();
        push_str(&mut output, "error: Failed to render ");
        push_str(&mut output, song);
        push_str(&mut output, "/");
        let detail = match self {
            RenderSongError::Vtt(language, error) => {
                let name = file_name(*language, "vtt");
                push_str(&mut output, name.as_str());
                error.to_string()
            },
            RenderSongError::Srt(language, error) => {
                let name = file_name(*language, "srt");
                push_str(&mut output, name.as_str());
                error.to_string()
            },
        };
        push_str(&mut output, ": ");
        push_str(&mut output, detail.as_str());
        output
    }
}

} // verus!
