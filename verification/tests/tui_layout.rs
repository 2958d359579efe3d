use lyrics::layout::{
    Button, button_at, column_at, column_spans, columns_line, columns_line_highlighted, fit,
    fit_chars, is_double_click, scroll_offset, visible_rows,
};
use lyrics::pages::{render_top_bar, row_style};
use lyrics::screen::{Buffer, Style};
use lyrics::layout::text_width;

const NANOS_PER_SECOND: u128 = 1_000_000_000;
const NANOS_PER_MILLI: u128 = 1_000_000;

/// A second click on the same item within the window is a double click; a
/// different item or a late click is not.
#[test]
fn is_double_click_needs_the_same_item_within_the_window() {
    let first = 1_590_373_467 * NANOS_PER_SECOND;
    let clicked = 3;
    assert!(is_double_click(
        Some((first, clicked)),
        first + 100 * NANOS_PER_MILLI,
        clicked,
    ));
    // Too long after the first click.
    assert!(!is_double_click(
        Some((first, clicked)),
        first + 600 * NANOS_PER_MILLI,
        clicked,
    ));
    // A different item, e.g. because a sort moved a new item under the pointer.
    assert!(!is_double_click(
        Some((first, 2)),
        first + 100 * NANOS_PER_MILLI,
        clicked,
    ));
    // No previous click to pair with.
    assert!(!is_double_click(None, first, clicked));
}

#[test]
fn double_click_window_is_inclusive_and_ignores_a_backward_clock() {
    let first = 1_600_000_000 * NANOS_PER_SECOND;
    assert!(is_double_click(Some((first, 1)), first + 500 * NANOS_PER_MILLI, 1));
    assert!(!is_double_click(Some((first, 1)), first + 500 * NANOS_PER_MILLI + 1, 1));
    assert!(!is_double_click(Some((first, 1)), first - 1, 1));
}

#[test]
fn tests_fit_pads_short_text() {
    assert_eq!(fit("ab", 5), "ab   ");
}

#[test]
fn tests_fit_truncates_with_an_ellipsis() {
    assert_eq!(fit("abcdef", 4), "abc…");
}

#[test]
fn tests_fit_handles_zero_width() {
    assert_eq!(fit("abc", 0), "");
}

/// Width is measured in display columns: an accented letter is one column,
/// a CJK ideograph is two.
#[test]
fn tests_fit_measures_display_width() {
    assert_eq!(fit("café", 4), "café");
    assert_eq!(fit("示例", 4), "示例");
    assert_eq!(fit("示例", 6), "示例  ");
}

/// Truncation counts each glyph's width, never overflows the budget, and
/// pads the column a wide glyph could not fill before the ellipsis.
#[test]
fn tests_fit_truncates_wide_characters_to_the_column_budget() {
    assert_eq!(fit("示例例", 4), "示… ");
}

#[test]
fn fit_keeps_only_the_ellipsis_in_one_column() {
    assert_eq!(fit("abc", 1), "…");
    assert_eq!(fit("示例", 2), "… ");
}

#[test]
fn tests_columns_line_splits_the_width_three_ways() {
    let line = columns_line("alpha", "beta", "gamma", 30);
    assert_eq!(line.chars().count(), 30);
    assert_eq!(line.matches('│').count(), 2);
    let cells: Vec<&str> = line.split('│').map(str::trim).collect();
    assert_eq!(cells, vec!["alpha", "beta", "gamma"]);
}

/// Cells with wide glyphs are measured by display width, so the line still
/// fills exactly `total` columns rather than overrunning the terminal.
#[test]
fn tests_columns_line_aligns_wide_characters() {
    let line = columns_line("中文", "Tiếng Việt", "示例歌曲", 30);
    assert_eq!(text_width(&line), 30);
}

#[test]
fn tests_scroll_offset_keeps_the_cursor_on_screen() {
    assert_eq!(scroll_offset(2, 5), 0);
    assert_eq!(scroll_offset(7, 5), 3);
}

/// Each output character carries its highlight flag; the padding does not.
#[test]
fn fit_chars_pairs_characters_with_their_highlight() {
    let cells = fit_chars("abc", &[false, true, false], 5);
    assert_eq!(
        cells,
        vec![
            ('a', false),
            ('b', true),
            ('c', false),
            (' ', false),
            (' ', false),
        ],
    );
}

#[test]
fn fit_chars_never_highlights_the_ellipsis() {
    let cells = fit_chars("abcdef", &[true, true, true, true, true, true], 3);
    assert_eq!(cells, vec![('a', true), ('b', true), ('…', false)]);
}

/// The column separators are never highlighted, only the cell characters the
/// mask marks.
#[test]
fn columns_line_highlighted_marks_only_cell_characters() {
    let line = columns_line_highlighted([("ab", &[false, true]), ("", &[]), ("", &[])], 30);
    let marked: String = line
        .iter()
        .filter(|&&(_, on)| on)
        .map(|&(character, _)| character)
        .collect();
    assert_eq!(marked, "b");
}

/// The height-dependent count of title rows reserves the prompt, header,
/// help, and button lines and never drops below one.
#[test]
fn tests_visible_rows_reserves_the_chrome_lines() {
    assert_eq!(visible_rows(24), 20);
    assert_eq!(visible_rows(6), 2);
    assert_eq!(visible_rows(5), 1);
    assert_eq!(visible_rows(4), 1);
    assert_eq!(visible_rows(0), 1);
}

/// The top bar draws the three buttons and the centered title.
#[test]
fn top_bar_draws_the_buttons_and_title() {
    let mut buffer = Buffer::new(80, 1);
    render_top_bar(&mut buffer, 80, "Play with Lyrics", true, None);
    let row = buffer.row_text(0);
    assert!(row.contains("[ ← Go back ]"), "{row}");
    assert!(row.contains("[ → Forward ]"), "{row}");
    assert!(row.contains("[ ✕ Exit ]"), "{row}");
    assert!(row.contains("Play with Lyrics"), "{row}");
    assert_eq!(buffer.style_at(0, 0), Style::plain());
}

/// The title is centered in the gap between Forward and Exit.
#[test]
fn top_bar_centers_the_title_in_the_gap() {
    let mut buffer = Buffer::new(80, 1);
    render_top_bar(&mut buffer, 80, "Play with Lyrics", true, None);
    let row = buffer.row_text(0);
    // The gap runs from column 28 to 70: 42 columns, 16 of them the title,
    // so the title starts 13 columns in.
    let expected = format!(
        "[ ← Go back ]  [ → Forward ]{}Play with Lyrics{}[ ✕ Exit ]",
        " ".repeat(13),
        " ".repeat(13)
    );
    assert_eq!(row, expected);
}

/// A title too wide for the gap between the buttons is truncated to fit there,
/// ending in an ellipsis rather than overrunning the buttons.
#[test]
fn top_bar_truncates_a_title_that_does_not_fit() {
    let mut buffer = Buffer::new(80, 1);
    let long_title = "x".repeat(80);
    render_top_bar(&mut buffer, 80, &long_title, true, None);
    let row = buffer.row_text(0);
    assert!(row.contains('…'), "{row}");
    assert!(row.ends_with("…[ ✕ Exit ]"), "{row}");
}

/// When going back is disabled, the Go back button is drawn dimmed.
#[test]
fn top_bar_dims_the_disabled_go_back_button() {
    let mut buffer = Buffer::new(80, 1);
    render_top_bar(&mut buffer, 80, "Play with Lyrics", false, None);
    assert_eq!(buffer.style_at(0, 0), Style::dim());
}

/// A button under the pointer is drawn in reverse video.
#[test]
fn top_bar_reverses_the_hovered_button() {
    let mut buffer = Buffer::new(80, 1);
    render_top_bar(&mut buffer, 80, "Play with Lyrics", true, Some((5, 0)));
    assert_eq!(buffer.style_at(0, 0), Style::reverse());
}

/// The disabled Back button stays dimmed even under the pointer.
#[test]
fn top_bar_keeps_the_disabled_button_dimmed_under_the_pointer() {
    let mut buffer = Buffer::new(80, 1);
    render_top_bar(&mut buffer, 80, "Play with Lyrics", false, Some((5, 0)));
    assert_eq!(buffer.style_at(0, 0), Style::dim());
}

/// A screen column lands on the title column drawn there; a separator between
/// two cells, and the space past the last cell, land on none.
#[test]
fn column_at_maps_a_screen_column_to_its_title_column() {
    let total = 80;
    let [english, vietnamese, chinese] = column_spans(total);
    let hit = |column: u64| column_at(total, column as u32).map(|c| c.position());
    assert_eq!(hit(english.start() as u64), Some(0));
    assert_eq!(hit(vietnamese.start() as u64), Some(1));
    assert_eq!(hit(chinese.start() as u64), Some(2));
    assert_eq!(hit(english.end()), None);
    assert_eq!(hit(chinese.end()), None);
}

#[test]
fn column_spans_of_an_eighty_column_line() {
    // Two three-column separators leave 74 columns: 24 for each cell.
    let spans = column_spans(80);
    assert_eq!((spans[0].start(), spans[0].width()), (0, 24));
    assert_eq!((spans[1].start(), spans[1].width()), (27, 24));
    assert_eq!((spans[2].start(), spans[2].width()), (54, 24));
}

/// In an 80-column bar, a column lands on the button drawn there. Back and
/// Forward sit on the left; Exit is right-aligned. A column in a gap or past
/// the last button lands on none.
#[test]
fn button_at_maps_a_column_to_its_button() {
    let hit = |column| button_at(80, column);
    assert_eq!(hit(0), Some(Button::Back));
    assert_eq!(hit(12), Some(Button::Back));
    assert_eq!(hit(13), None);
    assert_eq!(hit(14), None);
    assert_eq!(hit(15), Some(Button::Forward));
    assert_eq!(hit(27), Some(Button::Forward));
    assert_eq!(hit(28), None);
    assert_eq!(hit(69), None);
    assert_eq!(hit(70), Some(Button::Exit));
    assert_eq!(hit(79), Some(Button::Exit));
    assert_eq!(hit(80), None);
}

/// In a bar narrower than the buttons, Exit shares the left edge and wins
/// nothing that Back already covers.
#[test]
fn button_at_in_a_narrow_bar() {
    assert_eq!(button_at(5, 0), Some(Button::Back));
    assert_eq!(button_at(0, 0), Some(Button::Back));
}

/// Fitting fills exactly the column budget, whether it pads or truncates.
#[test]
fn fit_fills_exactly_the_width() {
    for width in 0..12u16 {
        for text in ["", "abc", "abcdefgh", "示例例", "café au lait"] {
            assert_eq!(text_width(&fit(text, width)), width, "{text:?} in {width}");
        }
    }
}

#[test]
fn row_style_reverses_the_cursor_row_and_bolds_the_hovered_one() {
    assert_eq!(row_style(true, None, 3), Style::reverse());
    assert_eq!(row_style(false, Some((9, 3)), 3), Style::bold());
    assert_eq!(row_style(true, Some((0, 3)), 3), Style::reverse().with(Style::bold()));
    assert_eq!(row_style(false, Some((0, 4)), 3), Style::plain());
}
