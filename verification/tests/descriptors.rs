use lyrics::descriptors::{
    CssClassName, InvalidCssClassName, InvalidMarkerName, InvalidVoiceName, Language,
    LineMarkersDesc, MarkerName, ReservedMarker, VoiceName,
};

#[test]
fn accepts_simple_ascii_names() {
    for name in ["title", "creditRole", "_hidden", "kebab-name_42"] {
        assert_eq!(CssClassName::new(name.to_string()).unwrap().as_str(), name);
    }
}

#[test]
fn tests_rejects_empty() {
    assert_eq!(
        CssClassName::new(String::new()).unwrap_err(),
        InvalidCssClassName::Empty,
    );
}

#[test]
fn rejects_leading_digit_hyphen_or_non_ascii() {
    assert_eq!(
        CssClassName::new("1name".to_string()).unwrap_err(),
        InvalidCssClassName::InvalidLeadingCharacter('1'),
    );
    assert_eq!(
        CssClassName::new("-name".to_string()).unwrap_err(),
        InvalidCssClassName::InvalidLeadingCharacter('-'),
    );
    assert_eq!(
        CssClassName::new("名字".to_string()).unwrap_err(),
        InvalidCssClassName::InvalidLeadingCharacter('名'),
    );
}

#[test]
fn rejects_unsafe_continue_characters() {
    assert_eq!(
        CssClassName::new("bad name".to_string()).unwrap_err(),
        InvalidCssClassName::InvalidCharacter(' '),
    );
    assert_eq!(
        CssClassName::new("bad.name".to_string()).unwrap_err(),
        InvalidCssClassName::InvalidCharacter('.'),
    );
    assert_eq!(
        CssClassName::new(r#"bad"name"#.to_string()).unwrap_err(),
        InvalidCssClassName::InvalidCharacter('"'),
    );
}

#[test]
fn voice_name_accepts_cjk_latin_and_embedded_space() {
    for name in ["名字一", "Voz Ñ", "voice-a"] {
        assert_eq!(VoiceName::new(name.to_string()).unwrap().as_str(), name);
    }
}

#[test]
fn voice_name_rejects_empty() {
    assert_eq!(VoiceName::new(String::new()).unwrap_err(), InvalidVoiceName::Empty);
}

#[test]
fn voice_name_rejects_webvtt_and_css_meta_characters() {
    for char in ['<', '>', '"', '\\'] {
        assert_eq!(
            VoiceName::new(format!("bad{char}name")).unwrap_err(),
            InvalidVoiceName::ForbiddenCharacter(char),
        );
    }
}

#[test]
fn voice_name_rejects_control_and_line_separator_characters() {
    for char in ['\n', '\r', '\t', '\u{2028}', '\u{2029}'] {
        assert_eq!(
            VoiceName::new(format!("bad{char}name")).unwrap_err(),
            InvalidVoiceName::ForbiddenCharacter(char),
        );
    }
}

#[test]
fn marker_name_accepts_ordinary_tokens() {
    for source in ["ttl", "cre", "MKA", "mk-b", "m+n", "名字"] {
        println!("CASE: {source:?}");
        assert_eq!(MarkerName::new(source.to_string()).unwrap().as_str(), source);
    }
}

#[test]
fn marker_name_rejects_every_reserved_marker() {
    for reserved in ReservedMarker::VARIANTS.iter() {
        println!("CASE: {reserved:?}");
        assert_eq!(
            MarkerName::new(reserved.as_str().to_string()).unwrap_err(),
            InvalidMarkerName::Reserved(*reserved),
        );
    }
}

#[test]
fn reserved_markers_round_trip_through_their_tokens() {
    for reserved in ReservedMarker::VARIANTS.iter() {
        assert_eq!(ReservedMarker::from_token(reserved.as_str()), Some(*reserved));
    }
    assert_eq!(ReservedMarker::from_token("ttl"), None);
    assert!(ReservedMarker::Clear.is_control());
    assert!(ReservedMarker::EndOfVideo.is_control());
    assert!(!ReservedMarker::Annotation.is_control());
}

#[test]
fn line_markers_descriptor_accepts_ordinary_markers() {
    let marker = |text: &str| MarkerName::new(text.to_string()).unwrap();
    let descriptor = LineMarkersDesc {
        markers: vec![marker("cre"), marker("ttl"), marker("vca")],
        voices: vec![(
            marker("vca"),
            vec![(Language::Vietnamese, VoiceName::new("Voice A".to_string()).unwrap())],
        )],
        classes: vec![(marker("ttl"), CssClassName::new("title".to_string()).unwrap())],
        credits: vec![marker("cre")],
    };
    let markers: Vec<&str> = descriptor.markers.iter().map(MarkerName::as_str).collect();
    assert_eq!(markers, ["cre", "ttl", "vca"]);
    assert!(descriptor.is_credit("cre"));
    assert!(!descriptor.is_credit("ttl"));
    assert!(descriptor.voice_entry("vca").is_some());
    assert_eq!(
        descriptor.class_entry("ttl").map(CssClassName::as_str),
        Some("title"),
    );
}

#[test]
fn languages_have_codes() {
    assert_eq!(Language::Vietnamese.code(), "vi");
    assert_eq!(Language::English.code(), "en");
    assert_eq!(Language::from_code("vi"), Some(Language::Vietnamese));
    assert_eq!(Language::from_code("xx"), None);
}

#[test]
fn descriptor_error_messages() {
    assert_eq!(
        InvalidMarkerName::Reserved(ReservedMarker::Clear).to_string(),
        "marker name `clr` is reserved by the parser and must not be declared",
    );
    assert_eq!(
        InvalidCssClassName::InvalidLeadingCharacter('1').to_string(),
        "class name must begin with an ASCII letter or `_`, got '1'",
    );
    assert_eq!(InvalidVoiceName::Empty.to_string(), "voice name must not be empty");
}
