use lyrics::credits_parse::{ParseCreditError, UnknownRole};
use lyrics::descriptors::{
    CreditRole, CreditsDesc, CssClassName, Language, LineMarkersDesc, MarkerName, VoiceName,
};
use lyrics::parse::{parse_lyrics, CuePart, SubtitleCue};
use lyrics::render_srt::{render_srt, RenderSrtError};
use lyrics::render_vtt::{render_vtt, RenderVttError, VoiceSelector};
use lyrics::styles::{Color, CreditPalette, MissingStyle, Style, StylePalette};
use lyrics::timestamp::Timestamp;

fn marker(text: &str) -> MarkerName {
    MarkerName::new(text.to_string()).unwrap()
}

fn credits_with_one_role() -> CreditsDesc {
    CreditsDesc {
        credit_roles: vec![vec![(Language::Vietnamese, CreditRole::from("role-a".to_string()))]],
        credit_names: Vec::new(),
    }
}

fn markers_with_credit_trigger() -> LineMarkersDesc {
    LineMarkersDesc {
        credits: vec![marker("cre")],
        ..Default::default()
    }
}

fn color(value: &str) -> Color {
    Color::new(value.to_string()).expect("test fixture passes the color validator")
}

fn test_palette() -> StylePalette {
    StylePalette {
        credit: CreditPalette {
            role: color("#AAAA22"),
            name: color("#AAAAAA"),
            special: color("#55ABCD"),
        },
        voices: Vec::new(),
        classes: Vec::new(),
    }
}

fn cue(marker_text: &str, text: &str) -> SubtitleCue {
    SubtitleCue {
        start: Timestamp::new(0, 0, 0).unwrap(),
        end: Timestamp::new(0, 5, 0).unwrap(),
        parts: vec![CuePart {
            marker: marker(marker_text),
            text: text.to_string(),
            annotations: Vec::new(),
        }],
    }
}

#[test]
fn cue_text_html_meta_characters_are_escaped() {
    let cues = vec![cue("plain", "<a> & <b>")];
    let output = render_srt(
        &cues,
        &LineMarkersDesc::default(),
        &CreditsDesc::default(),
        &test_palette(),
        &Language::Vietnamese,
    )
    .unwrap();
    assert!(
        output.contains("&lt;a&gt; &amp; &lt;b&gt;"),
        "expected escaped cue text in output:\n{output}",
    );
    assert!(
        !output.contains("<a>"),
        "raw `<a>` must not appear in the rendered output:\n{output}",
    );
}

#[test]
fn unknown_role_in_credit_line_produces_credits_error() {
    let cues = vec![cue("cre", "unknown-role name-a")];
    let err = render_srt(
        &cues,
        &markers_with_credit_trigger(),
        &credits_with_one_role(),
        &test_palette(),
        &Language::Vietnamese,
    )
    .unwrap_err();
    match err {
        RenderSrtError::Credits(payload) => {
            assert_eq!(payload.start, Timestamp::new(0, 0, 0).unwrap());
        }
        other => panic!("expected a credits error, got {other:?}"),
    }
}

#[test]
fn class_declared_without_palette_entry_produces_style_error() {
    let class_name = CssClassName::new("title".to_string())
        .expect("test fixture passes the class-name validator");
    let markers = LineMarkersDesc {
        markers: vec![marker("ttl")],
        classes: vec![(marker("ttl"), class_name)],
        ..Default::default()
    };
    let cues = vec![cue("ttl", "body")];
    let err = render_srt(
        &cues,
        &markers,
        &CreditsDesc::default(),
        &test_palette(),
        &Language::Vietnamese,
    )
    .unwrap_err();
    match err {
        RenderSrtError::Style(MissingStyle::Class(name)) => assert_eq!(name, "title"),
        other => panic!("expected a missing-class-style error, got {other:?}"),
    }
}

#[test]
fn voice_declared_without_palette_entry_produces_style_error() {
    let voice_name = VoiceName::new("Some Voice".to_string())
        .expect("test fixture passes the voice-name validator");
    let markers = LineMarkersDesc {
        markers: vec![marker("unk")],
        voices: vec![(marker("unk"), vec![(Language::Vietnamese, voice_name)])],
        ..Default::default()
    };
    let cues = vec![cue("unk", "body")];
    let err = render_srt(
        &cues,
        &markers,
        &CreditsDesc::default(),
        &test_palette(),
        &Language::Vietnamese,
    )
    .unwrap_err();
    match err {
        RenderSrtError::Style(MissingStyle::Voice(name)) => assert_eq!(name, "unk"),
        other => panic!("expected a missing-voice-style error, got {other:?}"),
    }
}

fn sample_voice_name(text: &str) -> VoiceName {
    VoiceName::new(text.to_string()).expect("test fixture passes the voice-name validator")
}

#[test]
fn voice_selector_emits_double_quoted_attribute_selector() {
    let voice_name = sample_voice_name("名字一");
    assert_eq!(VoiceSelector(&voice_name).to_string(), r#"v[voice="名字一"]"#);
}

#[test]
fn voice_selector_preserves_ascii_apostrophes_inside_double_quotes() {
    let voice_name = sample_voice_name("O'Brien");
    assert_eq!(VoiceSelector(&voice_name).to_string(), r#"v[voice="O'Brien"]"#);
}

#[test]
fn voice_selector_preserves_ampersand_verbatim() {
    let voice_name = sample_voice_name("Alpha & Beta");
    assert_eq!(
        VoiceSelector(&voice_name).to_string(),
        r#"v[voice="Alpha & Beta"]"#,
    );
}

const ADDITIVE_SOURCE: &str = "<additive>\n\
07:11.111 LRC: first line\n\
07:22.222 LRC: second line\n\
07:33.333 LRC: third line\n\
07:44.444 LRC: fourth line\n\
</additive>\n\
\n\
07:55.555 clr\n";

#[test]
fn an_additive_region_renders_as_accumulating_vtt_cues() {
    let cues = parse_lyrics(ADDITIVE_SOURCE).unwrap();
    let output = render_vtt(
        &cues,
        &LineMarkersDesc::default(),
        &CreditsDesc::default(),
        &test_palette(),
        &Language::Vietnamese,
    )
    .unwrap();
    assert_eq!(
        output,
        "WEBVTT\n\
        Language: vi\n\
        \n\
        STYLE\n\
        ::cue {\n  \
        background-color: transparent;\n  \
        text-shadow: 2px 2px 2px black;\n\
        }\n\
        \n\
        00:07:11.111 --> 00:07:22.222\n\
        first line\n\
        \n\
        00:07:22.222 --> 00:07:33.333\n\
        first line\n\
        second line\n\
        \n\
        00:07:33.333 --> 00:07:44.444\n\
        first line\n\
        second line\n\
        third line\n\
        \n\
        00:07:44.444 --> 00:07:55.555\n\
        first line\n\
        second line\n\
        third line\n\
        fourth line\n",
    );
}

#[test]
fn an_additive_region_renders_as_accumulating_srt_cues() {
    let cues = parse_lyrics(ADDITIVE_SOURCE).unwrap();
    let output = render_srt(
        &cues,
        &LineMarkersDesc::default(),
        &CreditsDesc::default(),
        &test_palette(),
        &Language::Vietnamese,
    )
    .unwrap();
    assert_eq!(
        output,
        "1\n\
        00:07:11,111 --> 00:07:22,222\n\
        first line\n\
        \n\
        2\n\
        00:07:22,222 --> 00:07:33,333\n\
        first line\n\
        second line\n\
        \n\
        3\n\
        00:07:33,333 --> 00:07:44,444\n\
        first line\n\
        second line\n\
        third line\n\
        \n\
        4\n\
        00:07:44,444 --> 00:07:55,555\n\
        first line\n\
        second line\n\
        third line\n\
        fourth line\n",
    );
}

fn styled_palette() -> StylePalette {
    StylePalette {
        credit: CreditPalette {
            role: color("#AAAA22"),
            name: color("#AAAAAA"),
            special: color("#55ABCD"),
        },
        voices: vec![(
            marker("vca"),
            Style { color: Some(color("#FFD966")), italic: true, bold: false },
        )],
        classes: vec![(
            CssClassName::new("title".to_string()).unwrap(),
            Style { color: None, italic: false, bold: true },
        )],
    }
}

fn styled_markers() -> LineMarkersDesc {
    LineMarkersDesc {
        markers: vec![marker("vca"), marker("ttl"), marker("cre")],
        voices: vec![(marker("vca"), vec![(Language::Vietnamese, sample_voice_name("Ca Sĩ"))])],
        classes: vec![(marker("ttl"), CssClassName::new("title".to_string()).unwrap())],
        credits: vec![marker("cre")],
    }
}

fn three_part_cue() -> Vec<SubtitleCue> {
    vec![SubtitleCue {
        start: Timestamp::new(0, 1, 0).unwrap(),
        end: Timestamp::new(0, 3, 500).unwrap(),
        parts: vec![
            CuePart { marker: marker("vca"), text: "la & la".to_string(), annotations: Vec::new() },
            CuePart { marker: marker("ttl"), text: "Title".to_string(), annotations: Vec::new() },
            CuePart {
                marker: marker("cre"),
                text: "role-a: name-a【x】".to_string(),
                annotations: Vec::new(),
            },
        ],
    }]
}

#[test]
fn vtt_wraps_voices_classes_and_credits() {
    let output = render_vtt(
        &three_part_cue(),
        &styled_markers(),
        &credits_with_one_role(),
        &styled_palette(),
        &Language::Vietnamese,
    )
    .unwrap();
    assert_eq!(
        output,
        "WEBVTT\nLanguage: vi\n\nSTYLE\n::cue {\n  background-color: transparent;\n  text-shadow: 2px 2px 2px black;\n}\n\
        ::cue(v[voice=\"Ca Sĩ\"]) {\n  color: #FFD966;\n  font-style: italic;\n}\n\
        ::cue(c.creditRole) {\n  color: #AAAA22;\n}\n\
        ::cue(c.creditName) {\n  color: #AAAAAA;\n}\n\
        ::cue(c.creditSpecial) {\n  color: #55ABCD;\n}\n\
        ::cue(c.title) {\n  font-weight: bold;\n}\n\
        \n\
        00:00:01.000 --> 00:00:03.500\n\
        <v Ca Sĩ>la &amp; la</v>\n\
        <c.title>Title</c>\n\
        <c.creditRole>role-a:</c> <c.creditName>name-a<c.creditSpecial>【x】</c></c>\n",
    );
}

#[test]
fn srt_inlines_styles_and_credit_colors() {
    let output = render_srt(
        &three_part_cue(),
        &styled_markers(),
        &credits_with_one_role(),
        &styled_palette(),
        &Language::Vietnamese,
    )
    .unwrap();
    assert_eq!(
        output,
        "1\n00:00:01,000 --> 00:00:03,500\n\
        <i><font color=\"#FFD966\">la &amp; la</font></i>\n\
        <b>Title</b>\n\
        <font color=\"#AAAA22\">role-a:</font> <font color=\"#AAAAAA\">name-a<font color=\"#55ABCD\">【x】</font></font>\n",
    );
}

#[test]
fn vtt_reports_a_credit_failure_before_a_missing_style() {
    let markers = LineMarkersDesc {
        markers: vec![marker("ttl")],
        classes: vec![(marker("ttl"), CssClassName::new("title".to_string()).unwrap())],
        credits: vec![marker("cre")],
        ..Default::default()
    };
    let cues = vec![cue("cre", "  nobody")];
    let error = render_vtt(
        &cues,
        &markers,
        &credits_with_one_role(),
        &test_palette(),
        &Language::Vietnamese,
    )
    .unwrap_err();
    assert_eq!(
        error,
        RenderVttError::Credits(lyrics::render_vtt::RenderVttErrorCreditsPayload {
            start: Timestamp::new(0, 0, 0).unwrap(),
            cause: ParseCreditError::UnknownRole(UnknownRole {
                line: "nobody".to_string(),
                offset: 0,
            }),
        }),
    );
    assert_eq!(
        error.to_string(),
        "cue at 00:00.000 failed to render as a credit line: credit line \"nobody\" contains unrecognized text at byte offset 0; expected a known credit role from `credits.yaml`",
    );
}

#[test]
fn a_credit_block_renders_each_line() {
    let cues = vec![cue("cre", "role-a：name-a\n  role-a  name-b")];
    let output = render_vtt(
        &cues,
        &markers_with_credit_trigger(),
        &credits_with_one_role(),
        &test_palette(),
        &Language::Vietnamese,
    )
    .unwrap();
    assert!(output.ends_with(
        "<c.creditRole>role-a</c>：<c.creditName>name-a</c>\n<c.creditRole>role-a</c>  <c.creditName>name-b</c>\n"
    ));
    assert!(!output.contains("creditSpecial"));
}
