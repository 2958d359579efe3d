use lyrics::credits_parse::{
    parse_credit_line, Bracketed, CreditLead, CreditRoles, NameSegment, ParseBracketedError,
    ParseCreditError, SeparatorStyle, Unbracketed, UnknownRole,
};
use lyrics::descriptors::{CreditRole, CreditsDesc, Language};

fn make_descriptor(roles: &[&str]) -> CreditsDesc {
    CreditsDesc {
        credit_roles: roles
            .iter()
            .map(|role| vec![(Language::Vietnamese, CreditRole::from(role.to_string()))])
            .collect(),
        credit_names: Vec::new(),
    }
}

fn make_roles(descriptor: &CreditsDesc) -> CreditRoles {
    CreditRoles::from_descriptor(descriptor, &Language::Vietnamese)
}

fn role(text: &str) -> CreditLead {
    CreditLead::Role(text.to_string())
}

fn plain(text: &str) -> NameSegment {
    NameSegment::Unbracketed(Unbracketed(text.to_string()))
}

fn bracketed(text: &str) -> NameSegment {
    NameSegment::Bracketed(Bracketed::new(text).unwrap())
}

#[test]
fn from_descriptor_deduplicates_non_adjacent_entries_and_orders_longest_first() {
    let descriptor = make_descriptor(&[
        "作詞",
        "long-role",
        "mid",
        "very-long-role",
        "作詞",
        "long-role",
        "abc",
    ]);
    let roles = make_roles(&descriptor);
    assert_eq!(
        roles.labels(),
        ["very-long-role", "long-role", "作詞", "abc", "mid"],
    );
}

#[test]
fn colon_separated_line_yields_one_pair_per_cell() {
    let descriptor = make_descriptor(&["role-a", "role-b", "role-c"]);
    let roles = make_roles(&descriptor);
    let parsed = parse_credit_line(
        "role-a：name-a\u{3000}role-b：name-b\u{3000}role-c：name-c",
        &roles,
    )
    .unwrap();
    assert_eq!(parsed.len(), 3);
    assert_eq!(parsed[0].lead, role("role-a"));
    assert_eq!(parsed[0].separator, "：");
    assert_eq!(parsed[0].name_segments, [plain("name-a")]);
    assert_eq!(parsed[1].lead, role("role-b"));
    assert_eq!(parsed[2].lead, role("role-c"));
}

#[test]
fn two_space_separated_line_yields_one_pair_with_embedded_spaces() {
    let descriptor = make_descriptor(&["role-a"]);
    let roles = make_roles(&descriptor);
    let parsed = parse_credit_line("role-a  name-a  name-b", &roles).unwrap();
    assert_eq!(parsed.len(), 1);
    assert_eq!(parsed[0].lead, role("role-a"));
    assert_eq!(parsed[0].separator, "  ");
    assert_eq!(parsed[0].name_segments, [plain("name-a  name-b")]);
}

#[test]
fn tolerates_runs_wider_than_two_spaces() {
    let descriptor = make_descriptor(&["role-a"]);
    let roles = make_roles(&descriptor);
    let parsed = parse_credit_line("role-a   name-a", &roles).unwrap();
    assert_eq!(parsed.len(), 1);
    assert_eq!(parsed[0].lead, role("role-a"));
    assert_eq!(parsed[0].separator, "   ");
    assert_eq!(parsed[0].name_segments, [plain("name-a")]);
}

#[test]
fn longer_role_wins_over_shorter_prefix() {
    let descriptor = make_descriptor(&["role", "role-a"]);
    let roles = make_roles(&descriptor);
    let parsed = parse_credit_line("role-a  name-a", &roles).unwrap();
    assert_eq!(parsed.len(), 1);
    assert_eq!(parsed[0].lead, role("role-a"));
}

#[test]
fn unknown_leading_text_errors() {
    let descriptor = make_descriptor(&["role-a"]);
    let roles = make_roles(&descriptor);
    assert_eq!(
        parse_credit_line("unknown  name-a", &roles).unwrap_err(),
        ParseCreditError::UnknownRole(UnknownRole {
            line: "unknown  name-a".to_string(),
            offset: 0,
        }),
    );
}

#[test]
fn recognizes_lenticular_highlight() {
    let descriptor = make_descriptor(&["role-a"]);
    let roles = make_roles(&descriptor);
    let parsed = parse_credit_line("role-a  name-a【label-a】", &roles).unwrap();
    assert_eq!(parsed.len(), 1);
    assert_eq!(
        parsed[0].name_segments,
        [plain("name-a"), bracketed("【label-a】")],
    );
}

#[test]
fn multiple_highlights_interleave_with_plain_text() {
    let descriptor = make_descriptor(&["role-a"]);
    let roles = make_roles(&descriptor);
    let parsed = parse_credit_line("role-a  【label-a】name-a 【label-b】name-b", &roles).unwrap();
    assert_eq!(parsed.len(), 1);
    assert_eq!(
        parsed[0].name_segments,
        [
            bracketed("【label-a】"),
            plain("name-a "),
            bracketed("【label-b】"),
            plain("name-b"),
        ],
    );
}

#[test]
fn separator_style_follows_the_colon_glyph() {
    let descriptor = make_descriptor(&["role-a"]);
    let roles = make_roles(&descriptor);

    let full_width = parse_credit_line("role-a：name-a", &roles).unwrap();
    assert_eq!(full_width[0].separator_style(), SeparatorStyle::FullWidthColon);
    let mixed = parse_credit_line("role-a:：name-a", &roles).unwrap();
    assert_eq!(mixed[0].separator_style(), SeparatorStyle::FullWidthColon);

    let ascii = parse_credit_line("role-a: name-a", &roles).unwrap();
    assert_eq!(ascii[0].separator_style(), SeparatorStyle::AsciiColon);

    let spaces = parse_credit_line("role-a  name-a", &roles).unwrap();
    assert_eq!(
        spaces[0].separator_style(),
        SeparatorStyle::Spaces("  ".to_string()),
    );
}

#[test]
fn role_span_suffix_emits_a_colon_only_for_the_latin_layout() {
    assert_eq!(SeparatorStyle::AsciiColon.lead_span_suffix(), ":");
    assert_eq!(SeparatorStyle::FullWidthColon.lead_span_suffix(), "");
    assert_eq!(SeparatorStyle::Spaces("  ".to_string()).lead_span_suffix(), "");
}

#[test]
fn between_span_separator_follows_the_layout() {
    let emit = |style: SeparatorStyle| {
        let mut output = String::new();
        style.append_between_spans(&mut output);
        output
    };
    assert_eq!(emit(SeparatorStyle::AsciiColon), " ");
    assert_eq!(emit(SeparatorStyle::FullWidthColon), "：");
    assert_eq!(emit(SeparatorStyle::Spaces("  ".to_string())), "  ");
    assert_eq!(emit(SeparatorStyle::Spaces("\u{3000}".to_string())), " ");
}

#[test]
fn bracketed_accepts_four_pair_kinds() {
    let (lenticular, rest) = Bracketed::take("【gold】tail").unwrap();
    assert_eq!(lenticular.as_str(), "【gold】");
    assert_eq!(rest, "tail");

    let (square, rest) = Bracketed::take("[silver]tail").unwrap();
    assert_eq!(square.as_str(), "[silver]");
    assert_eq!(rest, "tail");

    let (round, rest) = Bracketed::take("(bronze)tail").unwrap();
    assert_eq!(round.as_str(), "(bronze)");
    assert_eq!(rest, "tail");

    let (full_width_round, rest) = Bracketed::take("（铜）tail").unwrap();
    assert_eq!(full_width_round.as_str(), "（铜）");
    assert_eq!(rest, "tail");
}

#[test]
fn bracketed_rejects_non_bracket_prefix_and_nested_or_unclosed_brackets() {
    assert!(Bracketed::take("no bracket").is_none());
    assert!(Bracketed::take("【open only").is_none());
    assert!(Bracketed::take("[open only").is_none());
    assert!(Bracketed::take("(open only").is_none());
    assert!(Bracketed::take("【a【b】c】").is_none());
    assert!(Bracketed::take("[mismatch】").is_none());
    assert!(Bracketed::take("(also [nested])").is_none());
}

#[test]
fn bracketed_from_str_accepts_a_single_span() {
    let parsed = Bracketed::new("【label-a】").unwrap();
    assert_eq!(parsed.as_str(), "【label-a】");
}

#[test]
fn bracketed_from_str_rejects_shape_mismatch() {
    for input in ["", "no bracket", "[open only", "【a【b】c】"] {
        assert_eq!(
            Bracketed::new(input).unwrap_err(),
            ParseBracketedError::ShapeMismatch,
        );
    }
}

#[test]
fn bracketed_from_str_rejects_unexpected_character_after_span() {
    assert_eq!(
        Bracketed::new("【label-a】trailing").unwrap_err(),
        ParseBracketedError::UnexpectedCharacter('t'),
    );
}

#[test]
fn a_role_inside_a_name_does_not_split_it() {
    let descriptor = make_descriptor(&["作曲", "二胡"]);
    let roles = make_roles(&descriptor);
    let parsed = parse_credit_line("作曲：陆二胡  二胡：张三", &roles).unwrap();
    assert_eq!(parsed.len(), 2);
    assert_eq!(parsed[0].lead, role("作曲"));
    assert_eq!(parsed[0].name_segments, [plain("陆二胡")]);
    assert_eq!(parsed[1].lead, role("二胡"));
    assert_eq!(parsed[1].name_segments, [plain("张三")]);
}

#[test]
fn a_role_less_line_may_open_with_a_bracketed_span() {
    let descriptor = make_descriptor(&["role-a"]);
    let roles = make_roles(&descriptor);
    let parsed = parse_credit_line("  [疏楼曲] name-a", &roles).unwrap();
    assert_eq!(parsed.len(), 1);
    assert_eq!(
        parsed[0].lead,
        CreditLead::Special(Bracketed::new("[疏楼曲]").unwrap()),
    );
    assert_eq!(parsed[0].separator, " ");
    assert_eq!(parsed[0].name_segments, [plain("name-a")]);
}

#[test]
fn a_role_only_header_has_no_name() {
    let descriptor = make_descriptor(&["role-a"]);
    let roles = make_roles(&descriptor);
    let parsed = parse_credit_line("role-a", &roles).unwrap();
    assert_eq!(parsed.len(), 1);
    assert_eq!(parsed[0].separator, "");
    assert!(parsed[0].name_segments.is_empty());
}

#[test]
fn unknown_role_offset_counts_bytes() {
    let descriptor = make_descriptor(&["作曲"]);
    let roles = make_roles(&descriptor);
    assert_eq!(
        parse_credit_line("\u{3000}x", &roles).unwrap_err(),
        ParseCreditError::UnknownRole(UnknownRole {
            line: "\u{3000}x".to_string(),
            offset: 3,
        }),
    );
    let error = parse_credit_line("x", &roles).unwrap_err();
    assert_eq!(
        error.to_string(),
        "credit line \"x\" contains unrecognized text at byte offset 0; expected a known credit role from `credits.yaml`",
    );
}

#[test]
fn a_name_in_a_multibyte_line_is_kept_whole() {
    let descriptor = make_descriptor(&["作曲"]);
    let roles = make_roles(&descriptor);
    let parsed = parse_credit_line("作曲：名", &roles).unwrap();
    assert_eq!(parsed[0].name_segments, [plain("名")]);
    let descriptor = make_descriptor(&["ab"]);
    let roles = make_roles(&descriptor);
    assert_eq!(parse_credit_line("ab: x", &roles).unwrap().len(), 1);
}

#[test]
fn bracketed_error_messages() {
    assert_eq!(
        ParseBracketedError::ShapeMismatch.to_string(),
        "input is not a valid bracketed span",
    );
    assert_eq!(
        ParseBracketedError::UnexpectedCharacter('t').to_string(),
        "unexpected character 't' after the bracketed span; `TryFrom` requires end of input there",
    );
}
