use lyrics::descriptors::{CssClassName, MarkerName};
use lyrics::styles::{Color, CreditPalette, InvalidColor, MissingStyle, Style, StylePalette};

fn color(value: &str) -> Color {
    Color::new(value.to_string()).expect("test fixture passes the color validator")
}

fn style_palette(voices: Vec<(MarkerName, Style)>) -> StylePalette {
    StylePalette {
        credit: CreditPalette {
            role: color("#AAAA22"),
            name: color("#AAAAAA"),
            special: color("#55ABCD"),
        },
        voices,
        classes: Vec::new(),
    }
}

#[test]
fn accepts_hex_keyword_and_functional_colors() {
    for value in ["#FFD966", "white", "rgb(0, 0, 0)"] {
        assert!(
            Color::new(value.to_string()).is_ok(),
            "{value:?} should be accepted",
        );
    }
}

#[test]
fn rejects_empty() {
    assert_eq!(Color::new(String::new()), Err(InvalidColor::Empty));
}

#[test]
fn rejects_surrounding_whitespace() {
    for value in ["   ", " white", "white "] {
        assert_eq!(
            Color::new(value.to_string()),
            Err(InvalidColor::SurroundingWhitespace),
            "{value:?} should be rejected for surrounding whitespace",
        );
    }
}

#[test]
fn rejects_css_or_html_terminators() {
    for ch in ['<', '>', '"', '\\', '{', '}', ';'] {
        let value = format!("re{ch}d");
        assert_eq!(
            Color::new(value),
            Err(InvalidColor::ForbiddenCharacter(ch)),
            "a color containing {ch:?} should be rejected",
        );
    }
}

#[test]
fn rejects_line_separators_and_control_characters() {
    for ch in ['\u{2028}', '\u{2029}', '\u{7}', '\u{85}'] {
        let value = format!("re{ch}d");
        assert_eq!(Color::new(value), Err(InvalidColor::ForbiddenCharacter(ch)));
    }
}

#[test]
fn a_missing_voice_style_names_the_marker() {
    let marker = MarkerName::new("vca".to_string()).unwrap();
    let error = style_palette(Vec::new())
        .voice_style(marker.as_str())
        .expect_err("the fixture palette styles no voice");
    assert_eq!(
        error.to_string(),
        r#"no style is defined for voice marker "vca" in the palette"#,
    );
}

#[test]
fn a_missing_class_style_names_the_class() {
    let class_name = CssClassName::new("title".to_owned())
        .expect("test fixture passes the class-name validator");
    let error = style_palette(Vec::new())
        .class_style(&class_name)
        .expect_err("the fixture palette styles no class");
    assert_eq!(
        error.to_string(),
        r#"no style is defined for class "title" in the palette"#,
    );
}

#[test]
fn a_declared_voice_style_is_found() {
    let marker = MarkerName::new("vca".to_string()).unwrap();
    let palette = style_palette(vec![(
        marker,
        Style { color: Some(color("white")), italic: true, bold: false },
    )]);
    let style = palette.voice_style("vca").unwrap();
    assert!(style.italic);
    assert_eq!(style.color.as_ref().unwrap().as_str(), "white");
    assert_eq!(
        palette.voice_style("other").unwrap_err(),
        MissingStyle::Voice("other".to_string()),
    );
}

#[test]
fn color_error_messages() {
    assert_eq!(InvalidColor::Empty.to_string(), "color must not be empty");
    assert_eq!(
        InvalidColor::ForbiddenCharacter(';').to_string(),
        "color must not contain the reserved character ';'; CSS and HTML reserve angle brackets, the double quote, the backslash, braces, the semicolon, line separators, and control characters",
    );
}
