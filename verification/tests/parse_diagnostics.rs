#![allow(unused_imports)]

use lyrics::descriptors::{MarkerName, ReservedMarker};
use lyrics::parse::{parse_lyrics, CuePart, SubtitleCue};
use lyrics::parse_error::{
    AdditiveRegionError, ControlMarkerInRegion, CueTextReservedCharacter, EmptyAnnotation,
    EmptyCueBody, EmptyRegion, ExtraTextAfterControlMarker, InvalidTimestamp, LineNumber,
    MalformedHeader, MalformedIndentation, MalformedTagLine, MissingMarker,
    MissingSeparatorAfterTimestamp, NestedRegion, OrphanedAnnotation, OrphanedShorthandMarker,
    OutOfOrder, ParseLyricsError, ParseLyricsErrorKind, RepeatedTimestamp, ReservedControlMarker,
    TabIndentation, UnclosedCue, UnclosedRegion, UnopenedRegion,
};
use lyrics::tag_name::{ClosingTag, OpeningTag, TagName};
use lyrics::timestamp::{MinutesOutOfRange, SecondsOutOfRange, TakeTimestampError, Timestamp};
use pipe_trait::Pipe;

/// The lines joined by line breaks, each line ending in one.
fn block_fnl(lines: &[&str]) -> &'static str {
    let mut text = String::new();
    for line in lines {
        text.push_str(line);
        text.push('\n');
    }
    Box::leak(text.into_boxed_str())
}

/// The lines joined by line breaks.
fn block(lines: &[&str]) -> &'static str {
    Box::leak(lines.join("\n").into_boxed_str())
}

/// A diagnostic at line `line`.
fn err(line: LineNumber, kind: ParseLyricsErrorKind) -> ParseLyricsError {
    ParseLyricsError { line_number: line, kind }
}

/// A marker name the fixtures know to be valid.
fn marker_name(text: &str) -> MarkerName {
    MarkerName::new(text.to_string()).expect("test fixture passes the marker-name validator")
}



#[test]
fn test_event_order_rejects_out_of_order_events() {
    let input = block_fnl(&["00:02.000 ttl: A", "00:01.000 ttl: B", "00:03.000 clr"]);
    assert_eq!(
        parse_lyrics(input).unwrap_err(),
        ParseLyricsError {
            line_number: LineNumber::new(2),
            kind: ParseLyricsErrorKind::OutOfOrder(OutOfOrder {
                previous: Timestamp::new(0, 2, 0).unwrap(),
                next: Timestamp::new(0, 1, 0).unwrap(),
            }),
        },
    );
}

#[test]
fn test_event_order_rejects_repeated_timestamp_for_consecutive_cue_lines() {
    let input = block_fnl(&["00:10.080 ttl: Title", "00:10.080 cre: Credit", "00:18.000 clr"]);
    assert_eq!(
        parse_lyrics(input).unwrap_err(),
        ParseLyricsError {
            line_number: LineNumber::new(2),
            kind: Timestamp::new(0, 10, 80)
                .unwrap()
                .pipe(|start| RepeatedTimestamp { start })
                .pipe(ParseLyricsErrorKind::RepeatedTimestamp),
        },
    );
}

#[test]
fn test_event_order_invalid_timestamp_preserves_line_and_cause() {
    let input = block_fnl(&["00:60.000 ttl: seconds too high"]);
    assert_eq!(
        parse_lyrics(input).unwrap_err(),
        ParseLyricsError {
            line_number: LineNumber::new(1),
            kind: TakeTimestampError::SecondsOutOfRange(SecondsOutOfRange {
                raw: "00:60.000".to_string(),
                value: 60,
            })
            .pipe(|cause| InvalidTimestamp { cause })
            .pipe(ParseLyricsErrorKind::InvalidTimestamp),
        },
    );
}

/// Cues inside a region are ordinary events for the ordering rules,
/// so the checks that guard the rest of the file still apply.
#[test]
fn test_event_order_ordering_rules_still_apply_inside_a_region() {
    let out_of_order = block_fnl(&["<additive>", "07:22.222 LRC: first line", "07:11.111 LRC: second line", "</additive>", "07:33.333 clr"]);
    assert_eq!(
        parse_lyrics(out_of_order).unwrap_err(),
        ParseLyricsError {
            line_number: LineNumber::new(3),
            kind: ParseLyricsErrorKind::OutOfOrder(OutOfOrder {
                previous: Timestamp::new(7, 22, 222).unwrap(),
                next: Timestamp::new(7, 11, 111).unwrap(),
            }),
        },
    );

    let repeated = block_fnl(&["<additive>", "07:11.111 LRC: first line", "07:11.111 LRC: second line", "</additive>", "07:22.222 clr"]);
    assert_eq!(
        parse_lyrics(repeated).unwrap_err(),
        ParseLyricsError {
            line_number: LineNumber::new(3),
            kind: Timestamp::new(7, 11, 111)
                .unwrap()
                .pipe(|start| RepeatedTimestamp { start })
                .pipe(ParseLyricsErrorKind::RepeatedTimestamp),
        },
    );
}



/// The first non-blank, non-comment line at column zero is
/// expected to open a cue or fire a control event; without a
/// leading `MM:SS.mmm` shape the parser surfaces the dedicated
/// [`MalformedHeader`] diagnostic.
#[test]
fn test_line_shape_rejects_malformed_header_when_column_zero_line_has_no_timestamp() {
    let input = "no timestamp here\n";
    assert_eq!(
        parse_lyrics(input).unwrap_err(),
        err(LineNumber::new(1), ParseLyricsErrorKind::MalformedHeader(MalformedHeader {
            
            content: "no timestamp here".to_string(),
        })),
    );
}

#[test]
fn test_line_shape_rejects_timestamp_without_separator_after_prefix() {
    let input = block_fnl(&["00:00.000 ttl: Hello", "00:02.000ttl: no space after timestamp", "00:05.000 clr"]);
    assert_eq!(
        parse_lyrics(input).unwrap_err(),
        err(LineNumber::new(2), ParseLyricsErrorKind::MissingSeparatorAfterTimestamp(MissingSeparatorAfterTimestamp {
            
            content: "00:02.000ttl: no space after timestamp".to_string(),
        })),
    );
}

#[test]
fn test_line_shape_rejects_cue_line_without_marker() {
    let input = block_fnl(&["00:00.000 Plain text without marker", "00:02.000 clr"]);
    assert_eq!(
        parse_lyrics(input).unwrap_err(),
        err(LineNumber::new(1), ParseLyricsErrorKind::MissingMarker(MissingMarker {
            
            content: "Plain text without marker".to_string(),
        })),
    );
}

#[test]
fn test_line_shape_rejects_cue_with_empty_body() {
    let input = block_fnl(&["00:00.000 ttl:", "00:02.000 clr"]);
    assert_eq!(
        parse_lyrics(input).unwrap_err(),
        err(LineNumber::new(1), ParseLyricsErrorKind::EmptyCueBody(EmptyCueBody {
            
            marker: marker_name("ttl"),
        })),
    );
}

/// A header line like `00:00.000   ` (timestamp, run of spaces,
/// no body) parses as `Timestamp::take` succeeding with three
/// trailing spaces, then `cue_body = after_prefix.trim_start()`
/// yields the empty string. The empty body has no `:` and no
/// marker, so `parse_marker_part` falls into the
/// `split_marker(body) -> None` branch and raises
/// `MissingMarker { content: "" }`. The dedicated [`EmptyCueBody`]
/// variant cannot apply here because it carries the marker
/// name, and a whitespace-only body has none. Lock the current
/// outcome so a future reader does not assume the diagnostic
/// is something else.
#[test]
fn test_line_shape_whitespace_only_cue_body_falls_through_to_missing_marker() {
    let input = block_fnl(&["00:00.000   ", "00:02.000 clr"]);
    assert_eq!(
        parse_lyrics(input).unwrap_err(),
        err(LineNumber::new(1), ParseLyricsErrorKind::MissingMarker(MissingMarker {
            
            content: String::new(),
        })),
    );
}

/// Indentation must be ASCII spaces only. A tab in the leading
/// whitespace produces a focused diagnostic at the line that
/// contains it. Tabs that appear after the first non-whitespace
/// character are not rejected by this rule, since the
/// restriction only governs the indentation column.
#[test]
fn test_line_shape_rejects_tab_in_leading_whitespace() {
    let input = block_fnl(&["00:00.000 ttl: Hello", "\t            cre: tabbed indent", "00:05.000 clr"]);
    assert_eq!(
        parse_lyrics(input).unwrap_err(),
        err(LineNumber::new(2), ParseLyricsErrorKind::TabIndentation(TabIndentation { })),
    );
}

/// 12 spaces is neither the column-10 shorthand indent nor the
/// 15-space continuation indent that `cre: ` expects, so the
/// parser raises [`MalformedIndentation`] with both expected
/// widths in the diagnostic.
#[test]
fn test_line_shape_rejects_malformed_indentation_between_recognized_widths() {
    let input = block_fnl(&["00:10.080 cre: First", "            wrong indent", "00:18.000 clr"]);
    assert_eq!(
        parse_lyrics(input).unwrap_err(),
        err(LineNumber::new(2), ParseLyricsErrorKind::MalformedIndentation(MalformedIndentation {
            
            actual: 12,
            shorthand_indent: 10,
            continuation_indent: Some(15),
        })),
    );
}



/// A region encloses cues, not the boundary events that end them, so
/// the two nesting shapes and the two control markers are all
/// rejected.
#[test]
fn test_region_diagnostics_rejects_a_region_opened_inside_another_region() {
    let doubled_tags = block_fnl(&["<additive>", "<additive>", "07:11.111 LRC: first line", "</additive>", "</additive>", "07:22.222 clr"]);
    assert_eq!(
        parse_lyrics(doubled_tags).unwrap_err(),
        NestedRegion {
            
            opened_at: LineNumber::new(1),
        }
        .pipe(AdditiveRegionError::Nested)
        .pipe(ParseLyricsErrorKind::AdditiveRegion).pipe(|kind| err(LineNumber::new(2), kind)),
    );

    let inner_region = block_fnl(&["<additive>", "07:11.111 LRC: first line", "<additive>", "07:22.222 LRC: second line", "</additive>", "07:33.333 LRC: third line", "</additive>", "07:44.444 clr"]);
    assert_eq!(
        parse_lyrics(inner_region).unwrap_err(),
        NestedRegion {
            
            opened_at: LineNumber::new(1),
        }
        .pipe(AdditiveRegionError::Nested)
        .pipe(ParseLyricsErrorKind::AdditiveRegion).pipe(|kind| err(LineNumber::new(3), kind)),
    );
}

#[test]
fn test_region_diagnostics_rejects_a_control_marker_inside_a_region() {
    let clear_input = block_fnl(&["<additive>", "07:11.111 LRC: first line", "07:22.222 clr", "</additive>"]);
    assert_eq!(
        parse_lyrics(clear_input).unwrap_err(),
        ControlMarkerInRegion {
            
            marker: ReservedMarker::Clear,
            opened_at: LineNumber::new(1),
        }
        .pipe(AdditiveRegionError::ControlMarker)
        .pipe(ParseLyricsErrorKind::AdditiveRegion).pipe(|kind| err(LineNumber::new(3), kind)),
    );

    let end_of_video_input = block_fnl(&["<additive>", "07:11.111 LRC: first line", "07:22.222 eov", "</additive>"]);
    assert_eq!(
        parse_lyrics(end_of_video_input).unwrap_err(),
        ControlMarkerInRegion {
            
            marker: ReservedMarker::EndOfVideo,
            opened_at: LineNumber::new(1),
        }
        .pipe(AdditiveRegionError::ControlMarker)
        .pipe(ParseLyricsErrorKind::AdditiveRegion).pipe(|kind| err(LineNumber::new(3), kind)),
    );
}

/// The diagnostic for an unclosed region names the opening tag
/// rather than the end of the file, because that is the line the
/// author has to revisit.
#[test]
fn test_region_diagnostics_rejects_a_region_that_is_never_closed() {
    let input = block_fnl(&["07:11.111 LRC: before the region", "<additive>", "07:22.222 LRC: first line", "07:33.333 LRC: second line"]);
    assert_eq!(
        parse_lyrics(input).unwrap_err(),
        UnclosedRegion {
            }
        .pipe(AdditiveRegionError::Unclosed)
        .pipe(ParseLyricsErrorKind::AdditiveRegion).pipe(|kind| err(LineNumber::new(2), kind)),
    );
}

#[test]
fn test_region_diagnostics_rejects_a_closing_tag_without_an_opening_one() {
    let input = block_fnl(&["07:11.111 LRC: first line", "</additive>", "07:22.222 clr"]);
    assert_eq!(
        parse_lyrics(input).unwrap_err(),
        UnopenedRegion {
            }
        .pipe(AdditiveRegionError::Unopened)
        .pipe(ParseLyricsErrorKind::AdditiveRegion).pipe(|kind| err(LineNumber::new(2), kind)),
    );
}

/// A region exists to accumulate cues, so one that encloses none is
/// an authoring mistake rather than a silent no-op. Comments and
/// blank lines do not count as content.
#[test]
fn test_region_diagnostics_rejects_a_region_that_encloses_no_cue() {
    let input = block_fnl(&["<additive>", "# a comment is not a cue", "", "</additive>", "07:11.111 LRC: first line", "07:22.222 clr"]);
    assert_eq!(
        parse_lyrics(input).unwrap_err(),
        EmptyRegion {
            
            opened_at: LineNumber::new(1),
        }
        .pipe(AdditiveRegionError::Empty)
        .pipe(ParseLyricsErrorKind::AdditiveRegion).pipe(|kind| err(LineNumber::new(4), kind)),
    );
}



/// `<` and `>` belong to the WebVTT cue-tag grammar, not to the
/// `lyrics.{lang}.txt` source format. The renderer later
/// HTML-entity-escapes the cue text, so a literal `<` in the
/// source would only survive to the output as `&lt;`; rejecting
/// it at parse time surfaces the author's intent early.
#[test]
fn test_reserved_characters_rejects_angle_bracket_in_cue_opening_body() {
    let lt_input = block_fnl(&["00:00.000 ttl: hello <world>", "00:02.000 clr"]);
    assert_eq!(
        parse_lyrics(lt_input).unwrap_err(),
        ParseLyricsError {
            line_number: LineNumber::new(1),
            kind: ParseLyricsErrorKind::CueTextReservedCharacter(CueTextReservedCharacter { character: '<' }),
        },
    );

    let gt_input = block_fnl(&["00:00.000 ttl: end>", "00:02.000 clr"]);
    assert_eq!(
        parse_lyrics(gt_input).unwrap_err(),
        ParseLyricsError {
            line_number: LineNumber::new(1),
            kind: ParseLyricsErrorKind::CueTextReservedCharacter(CueTextReservedCharacter { character: '>' }),
        },
    );
}

/// The validator fires on every cue-text line, not only on the
/// opening body, so a reserved character that only appears on a
/// continuation line is still caught at the line that contains
/// it. Cover both `<` and `>` so the continuation path is
/// locked symmetrically with the opening-line test above.
#[test]
fn test_reserved_characters_rejects_angle_bracket_in_continuation_line() {
    let lt_input = block_fnl(&["00:00.000 cre: first line", "               second <tag line", "00:05.000 clr"]);
    assert_eq!(
        parse_lyrics(lt_input).unwrap_err(),
        ParseLyricsError {
            line_number: LineNumber::new(2),
            kind: ParseLyricsErrorKind::CueTextReservedCharacter(CueTextReservedCharacter { character: '<' }),
        },
    );

    let gt_input = block_fnl(&["00:00.000 cre: first line", "               end of tag>", "00:05.000 clr"]);
    assert_eq!(
        parse_lyrics(gt_input).unwrap_err(),
        ParseLyricsError {
            line_number: LineNumber::new(2),
            kind: ParseLyricsErrorKind::CueTextReservedCharacter(CueTextReservedCharacter { character: '>' }),
        },
    );
}

/// A line such as `00:00.000 <v>foo</v>` has no `:` separator,
/// so without the reserved-character check running before
/// `split_marker` the error would surface as
/// [`MissingMarker`](crate::parse::error::MissingMarker) even
/// though the real problem is the angle brackets. Verify that
/// the more specific diagnostic wins here.
#[test]
fn test_reserved_characters_marker_less_body_with_reserved_character_reports_reserved_character() {
    let input = block_fnl(&["00:00.000 <v>foo</v>", "00:02.000 clr"]);
    assert_eq!(
        parse_lyrics(input).unwrap_err(),
        ParseLyricsError {
            line_number: LineNumber::new(1),
            kind: ParseLyricsErrorKind::CueTextReservedCharacter(CueTextReservedCharacter { character: '<' }),
        },
    );
}

/// Angle brackets stay reserved inside cue text. A tag is recognized
/// only at column zero, so writing one in a cue body reports the
/// reserved character rather than opening a region.
#[test]
fn test_reserved_characters_a_tag_written_inside_cue_text_is_still_a_reserved_character() {
    let input = block_fnl(&["07:11.111 LRC: <additive>", "07:22.222 clr"]);
    assert_eq!(
        parse_lyrics(input).unwrap_err(),
        ParseLyricsError {
            line_number: LineNumber::new(1),
            kind: ParseLyricsErrorKind::CueTextReservedCharacter(CueTextReservedCharacter { character: '<' }),
        },
    );
}

/// `&` is not VTT-specific on its own; it only forms markup when
/// it introduces an entity reference, and even then the renderer
/// HTML-entity-escapes the cue text before emission, so a lone
/// `&` in the source round-trips correctly.
#[test]
fn test_reserved_characters_accepts_ampersand_in_cue_text() {
    let input = block_fnl(&["00:00.000 ttl: R&B classics", "00:02.000 clr"]);
    let cues = parse_lyrics(input).unwrap();
    assert_eq!(cues.len(), 1);
    assert_eq!(cues[0].parts[0].text, "R&B classics");
}



/// A tag carries no attributes, so the two spellings are matched
/// literally and every near miss draws the same diagnostic, which
/// names both spellings in full rather than describing a grammar.
/// Whitespace inside the delimiters is a near miss like any other:
/// `<additive >` would otherwise have to read as an empty attribute
/// list, and the format has no attributes to read.
#[test]
fn test_tags_rejects_every_near_miss_of_a_tag_line() {
    let near_misses = [
        "<verse>",
        "<additive",
        "</additive",
        "<>",
        "</>",
        "< additive>",
        "<additive >",
        "</ additive>",
        "</additive >",
        "< /additive>",
        "<additive> and some trailing text",
        "<additive></additive>",
    ];
    for content in near_misses {
        println!("CASE: {content:?}");
        let input = format!(
            "{content}\n\
             07:11.111 LRC: first line\n\
             07:22.222 clr\n",
        );
        assert_eq!(
            parse_lyrics(&input).unwrap_err(),
            err(LineNumber::new(1), ParseLyricsErrorKind::MalformedTagLine(MalformedTagLine {
                
                content: content.to_string(),
            })),
        );
    }
}

/// A tag line accepts trailing whitespace, the same allowance the
/// `control_markers_accept_trailing_whitespace_only` test of
/// [`super::test_control_markers`] locks in for `clr` and `eov`.
/// Whitespace inside the delimiters stays rejected, since a tag has
/// no attributes for it to separate.
#[test]
fn tag_lines_accept_trailing_whitespace_only() {
    let input = block_fnl(&["<additive> \t ", "07:11.111 LRC: first line", "07:22.222 LRC: second line", "</additive>\t", "07:33.333 clr"]);
    let cues = parse_lyrics(input).unwrap();
    assert_eq!(cues.len(), 2);
    assert_eq!(cues[1].parts.len(), 2);
}

/// The other half of the literal match: both spellings are accepted
/// exactly as written.
#[test]
fn test_tags_accepts_both_tag_spellings_exactly_as_written() {
    let input = block_fnl(&["<additive>", "07:11.111 LRC: first line", "07:22.222 LRC: second line", "</additive>", "07:33.333 clr"]);
    let cues = parse_lyrics(input).unwrap();
    assert_eq!(cues.len(), 2);
    assert_eq!(cues[1].parts.len(), 2);
}

/// A tag ends the scope of the cue above it, exactly as `clr` does,
/// so a shorthand marker line below the tag has no cue to attach to.
#[test]
fn test_tags_a_tag_ends_the_scope_of_the_cue_above_it() {
    let after_opening_tag = block_fnl(&["07:11.111 ttl: title body", "<additive>", "          cre: credit body", "</additive>", "07:22.222 clr"]);
    assert_eq!(
        parse_lyrics(after_opening_tag).unwrap_err(),
        err(LineNumber::new(3), ParseLyricsErrorKind::OrphanedShorthandMarker(OrphanedShorthandMarker {
            
            content: "cre: credit body".to_string(),
        })),
    );

    let after_closing_tag = block_fnl(&["<additive>", "07:11.111 ttl: title body", "</additive>", "          cre: credit body", "07:22.222 clr"]);
    assert_eq!(
        parse_lyrics(after_closing_tag).unwrap_err(),
        err(LineNumber::new(4), ParseLyricsErrorKind::OrphanedShorthandMarker(OrphanedShorthandMarker {
            
            content: "cre: credit body".to_string(),
        })),
    );
}

/// A name stops at the first character it does not admit, and the
/// rest comes back for the next layer to interpret.
#[test]
fn tag_name_takes_a_name_and_returns_the_tail() {
    for (source, tail) in [
        ("additive", ""),
        ("additive>", ">"),
        ("additive> trailing", "> trailing"),
        ("additive >", " >"),
        ("additive/>", "/>"),
        ("additive<", "<"),
        ("additive.b>", ".b>"),
    ] {
        println!("CASE: {source:?}");
        assert_eq!(TagName::take(source), Some((TagName::Additive, tail.to_string())));
    }
}

/// The format defines the names, so a run of name characters that
/// denotes none of them is not a name at all.
#[test]
fn tag_name_rejects_a_run_that_names_nothing() {
    for source in [
        "",
        "verse>",
        "additives>",
        "a>",
        "append-only>",
        "verse2>",
        ">",
        "/additive>",
        "-additive>",
        "2additive>",
        "Additive>",
        " additive>",
    ] {
        println!("CASE: {source:?}");
        assert_eq!(TagName::take(source), None);
    }
}

#[test]
fn opening_tag_takes_a_tag_and_returns_the_tail() {
    for (source, tail) in [("<additive>", ""), ("<additive> trailing", " trailing")] {
        println!("CASE: {source:?}");
        assert_eq!(
            OpeningTag::take(source),
            Some((OpeningTag(TagName::Additive), tail.to_string())),
        );
    }
}

/// The three components sit flush against each other. Whitespace
/// between any two of them is what makes an attribute list possible,
/// and the format has no attributes.
#[test]
fn opening_tag_rejects_anything_but_the_three_components_flush() {
    for source in [
        "</additive>",
        "< additive>",
        "<additive >",
        "<additive",
        "<>",
        "<verse>",
        "additive>",
        "",
    ] {
        println!("CASE: {source:?}");
        assert_eq!(OpeningTag::take(source), None);
    }
}

#[test]
fn closing_tag_takes_a_tag_and_returns_the_tail() {
    for (source, tail) in [("</additive>", ""), ("</additive> trailing", " trailing")] {
        println!("CASE: {source:?}");
        assert_eq!(
            ClosingTag::take(source),
            Some((ClosingTag(TagName::Additive), tail.to_string())),
        );
    }
}

/// An opening tag is not a closing one, so the two parsers cannot
/// both match a line and the caller may try them in either order.
#[test]
fn closing_tag_rejects_anything_but_the_three_components_flush() {
    for source in [
        "<additive>",
        "</ additive>",
        "</additive >",
        "< /additive>",
        "</additive",
        "</>",
        "</verse>",
        "",
    ] {
        println!("CASE: {source:?}");
        assert_eq!(ClosingTag::take(source), None);
    }
}
