use lyrics::pages::{Input, Key, ListPage, Navigation, Pointer, Reaction, render_list};
use lyrics::screen::{DrawCommand, Screen};

const NANOS_PER_SECOND: u128 = 1_000_000_000;

fn press(key: Key) -> Input {
    Input::Key { key, control: false, press: true }
}

fn control(key: Key) -> Input {
    Input::Key { key, control: true, press: true }
}

fn release(key: Key) -> Input {
    Input::Key { key, control: false, press: false }
}

fn click_at(column: u16, row: u16) -> Input {
    Input::Mouse { pointer: Pointer::LeftDown, column, row }
}

fn click(row: u16) -> Input {
    click_at(0, row)
}

fn hover_at(column: u16, row: u16) -> Input {
    Input::Mouse { pointer: Pointer::Other, column, row }
}

fn scroll_down() -> Input {
    Input::Mouse { pointer: Pointer::ScrollDown, column: 0, row: 0 }
}

fn scroll_up() -> Input {
    Input::Mouse { pointer: Pointer::ScrollUp, column: 0, row: 0 }
}

fn label_list(values: &[&str]) -> Vec<String> {
    values.iter().map(|value| value.to_string()).collect()
}

/// Plays `events` on a list page of `labels` in a `size` terminal, drawing
/// every frame the page asks for, and reports how the page was left (or
/// `None` when the script ran out) with every command sent to the terminal.
fn run_list(
    title: &str,
    labels: &[String],
    start: usize,
    size: (u16, u16),
    now: u128,
    events: &[Input],
) -> (Option<Navigation>, Vec<DrawCommand>) {
    let mut page = ListPage::new(labels.len(), start);
    let labels = labels.to_vec();
    let mut screen = Screen::new();
    let mut commands = screen.present(render_list(title, &labels, &page, size.0, size.1));
    for input in events {
        match page.react(*input, size.0, size.1, now) {
            Reaction::Done(navigation) => return (Some(navigation), commands),
            Reaction::Redraw => {
                commands.extend(screen.present(render_list(title, &labels, &page, size.0, size.1)));
            }
            Reaction::Wait => {}
        }
    }
    (None, commands)
}

fn pick(labels: &[&str], start: usize, events: &[Input]) -> Option<Navigation> {
    run_list("pick", &label_list(labels), start, (80, 24), 1_600_000_000 * NANOS_PER_SECOND, events).0
}

fn printed(commands: &[DrawCommand]) -> String {
    commands
        .iter()
        .filter_map(|command| match command {
            DrawCommand::Print(ch) => Some(*ch),
            _ => None,
        })
        .collect()
}

#[test]
fn test_list_keyboard_select_one_returns_the_highlighted_row() {
    let chosen = pick(
        &["alpha", "beta", "gamma"],
        0,
        &[press(Key::Down), press(Key::Down), press(Key::Enter)],
    );
    assert_eq!(chosen, Some(Navigation::Selected(2)));
}

#[test]
fn select_one_ignores_unhandled_keys_and_resizes() {
    let chosen = pick(&["alpha", "beta"], 0, &[press(Key::Other), Input::Resize, press(Key::Esc)]);
    assert_eq!(chosen, Some(Navigation::Back));
}

#[test]
fn test_list_keyboard_select_one_goes_back_on_escape() {
    assert_eq!(pick(&["alpha", "beta"], 0, &[press(Key::Esc)]), Some(Navigation::Back));
}

#[test]
fn test_list_keyboard_select_one_cancels_on_ctrl_c() {
    assert_eq!(
        pick(&["alpha", "beta"], 0, &[control(Key::Char('c'))]),
        Some(Navigation::Quit)
    );
}

#[test]
fn plain_c_is_not_a_quit_on_the_list() {
    assert_eq!(pick(&["alpha", "beta"], 0, &[press(Key::Char('c'))]), None);
}

#[test]
fn test_list_keyboard_select_one_keeps_the_cursor_within_bounds() {
    let chosen = pick(
        &["alpha", "beta"],
        0,
        &[
            press(Key::Up),
            press(Key::Down),
            press(Key::Down),
            press(Key::Down),
            press(Key::Enter),
        ],
    );
    assert_eq!(chosen, Some(Navigation::Selected(1)));
}

#[test]
fn test_list_keyboard_select_one_ignores_non_press_events() {
    let chosen = pick(
        &["alpha", "beta"],
        0,
        &[release(Key::Down), press(Key::Down), press(Key::Enter)],
    );
    assert_eq!(chosen, Some(Navigation::Selected(1)));
}

#[test]
fn test_list_keyboard_select_one_enter_is_a_no_op_for_an_empty_list() {
    let chosen = pick(&[], 0, &[press(Key::Enter), press(Key::Esc)]);
    assert_eq!(chosen, Some(Navigation::Back));
}

#[test]
fn test_list_keyboard_select_one_quits_on_q() {
    assert_eq!(pick(&["alpha", "beta"], 0, &[press(Key::Char('q'))]), Some(Navigation::Quit));
}

#[test]
fn test_list_keyboard_select_one_quits_on_shift_q() {
    assert_eq!(pick(&["alpha", "beta"], 0, &[press(Key::Char('Q'))]), Some(Navigation::Quit));
}

#[test]
fn test_list_keyboard_select_one_quits_on_ctrl_q() {
    assert_eq!(
        pick(&["alpha", "beta"], 0, &[control(Key::Char('q'))]),
        Some(Navigation::Quit)
    );
}

#[test]
fn test_list_keyboard_select_one_selects_on_space() {
    let chosen = pick(&["alpha", "beta"], 0, &[press(Key::Down), press(Key::Char(' '))]);
    assert_eq!(chosen, Some(Navigation::Selected(1)));
}

#[test]
fn test_list_keyboard_select_one_backspace_goes_back() {
    assert_eq!(pick(&["alpha", "beta"], 0, &[press(Key::Backspace)]), Some(Navigation::Back));
}

#[test]
fn test_list_keyboard_select_one_ctrl_backspace_goes_back() {
    assert_eq!(
        pick(&["alpha", "beta"], 0, &[control(Key::Backspace)]),
        Some(Navigation::Back)
    );
}

#[test]
fn restore_select_one_starts_on_the_given_row() {
    let chosen = pick(&["alpha", "beta", "gamma"], 1, &[press(Key::Enter)]);
    assert_eq!(chosen, Some(Navigation::Selected(1)));
}

#[test]
fn restore_select_one_clamps_an_out_of_range_start() {
    let chosen = pick(&["alpha", "beta"], 9, &[press(Key::Enter)]);
    assert_eq!(chosen, Some(Navigation::Selected(1)));
}

#[test]
fn test_mouse_select_one_single_click_highlights_the_clicked_row() {
    let chosen = pick(&["alpha", "beta", "gamma"], 0, &[click(2), press(Key::Enter)]);
    assert_eq!(chosen, Some(Navigation::Selected(1)));
}

#[test]
fn test_mouse_select_one_single_click_does_not_select() {
    let chosen = pick(&["alpha", "beta"], 0, &[click(2), press(Key::Esc)]);
    assert_eq!(chosen, Some(Navigation::Back));
}

#[test]
fn test_mouse_select_one_double_click_selects_the_clicked_row() {
    let chosen = pick(&["alpha", "beta", "gamma"], 0, &[click(2), click(2)]);
    assert_eq!(chosen, Some(Navigation::Selected(1)));
}

#[test]
fn clicks_on_two_rows_are_not_a_double_click() {
    let chosen = pick(&["alpha", "beta", "gamma"], 0, &[click(2), click(3), press(Key::Esc)]);
    assert_eq!(chosen, Some(Navigation::Back));
}

#[test]
fn slow_clicks_are_not_a_double_click() {
    let labels = label_list(&["alpha", "beta"]);
    let mut page = ListPage::new(labels.len(), 0);
    let start = 1_600_000_000 * NANOS_PER_SECOND;
    assert_eq!(page.react(click(2), 80, 24, start), Reaction::Redraw);
    assert_eq!(page.react(click(2), 80, 24, start + NANOS_PER_SECOND), Reaction::Redraw);
    assert_eq!(page.cursor, 1);
}

#[test]
fn test_mouse_select_one_scroll_moves_the_cursor() {
    let chosen = pick(&["alpha", "beta"], 0, &[scroll_down(), press(Key::Enter)]);
    assert_eq!(chosen, Some(Navigation::Selected(1)));
}

#[test]
fn select_one_scroll_up_moves_the_cursor() {
    let chosen = pick(&["alpha", "beta"], 1, &[scroll_up(), press(Key::Enter)]);
    assert_eq!(chosen, Some(Navigation::Selected(0)));
}

#[test]
fn select_one_ignores_a_click_on_the_help_line() {
    let labels = label_list(&["alpha", "beta", "gamma", "delta"]);
    let (chosen, _) = run_list(
        "pick",
        &labels,
        0,
        (80, 5),
        1_710_333_444 * NANOS_PER_SECOND,
        &[click(4), click(4), control(Key::Char('q'))],
    );
    assert_eq!(chosen, Some(Navigation::Quit));
}

#[test]
fn test_buttons_select_one_exit_button_quits() {
    assert_eq!(pick(&["alpha", "beta"], 0, &[click_at(75, 0)]), Some(Navigation::Quit));
}

#[test]
fn test_buttons_select_one_back_button_goes_back() {
    assert_eq!(pick(&["alpha", "beta"], 0, &[click_at(5, 0)]), Some(Navigation::Back));
}

#[test]
fn test_buttons_select_one_forward_button_selects_the_highlighted_row() {
    let chosen = pick(&["alpha", "beta", "gamma"], 0, &[press(Key::Down), click_at(20, 0)]);
    assert_eq!(chosen, Some(Navigation::Selected(1)));
}

#[test]
fn select_one_ignores_a_click_between_the_top_bar_buttons() {
    let chosen = pick(&["alpha", "beta"], 0, &[click_at(45, 0), press(Key::Esc)]);
    assert_eq!(chosen, Some(Navigation::Back));
}

#[test]
fn select_one_forward_button_does_nothing_without_labels() {
    let chosen = pick(&[], 0, &[click_at(20, 0), press(Key::Esc)]);
    assert_eq!(chosen, Some(Navigation::Back));
}

#[test]
fn test_rendering_select_one_shows_the_page_title_in_the_top_bar() {
    let labels = label_list(&["alpha", "beta"]);
    let (chosen, commands) = run_list(
        "Select a Language",
        &labels,
        0,
        (80, 24),
        1_701_234_567 * NANOS_PER_SECOND,
        &[press(Key::Esc)],
    );
    assert_eq!(chosen, Some(Navigation::Back));
    assert!(printed(&commands).contains("Select a Language"));
}

#[test]
fn test_rendering_select_one_bolds_the_label_under_the_pointer() {
    let labels = label_list(&["alpha", "beta", "gamma"]);
    let (_, commands) = run_list(
        "Select a Language",
        &labels,
        0,
        (80, 24),
        1_690_123_456 * NANOS_PER_SECOND,
        &[hover_at(0, 2), press(Key::Esc)],
    );
    assert!(commands.contains(&DrawCommand::Bold), "{commands:?}");
}

#[test]
fn test_rendering_select_one_reverses_the_button_under_the_pointer() {
    let (_, commands) = run_list(
        "Select a Language",
        &[],
        0,
        (80, 24),
        1_695_678_901 * NANOS_PER_SECOND,
        &[hover_at(5, 0), control(Key::Char('c'))],
    );
    assert!(commands.contains(&DrawCommand::Reverse), "{commands:?}");
}

#[test]
fn the_list_frame_shows_labels_below_the_bar_and_help_at_the_bottom() {
    let labels = label_list(&["alpha", "beta"]);
    let page = ListPage::new(labels.len(), 1);
    let frame = render_list("pick", &labels, &page, 40, 5);
    assert_eq!(frame.row_text(1), format!("alpha{}", " ".repeat(35)));
    assert_eq!(frame.row_text(2), format!("beta{}", " ".repeat(36)));
    assert!(frame.row_text(4).starts_with("↑/↓ move · ⌫/Esc back · ⏎/␣ select · ^Q"));
    assert_eq!(frame.style_at(0, 2), lyrics::screen::Style::reverse());
    assert_eq!(frame.style_at(0, 1), lyrics::screen::Style::plain());
    assert_eq!(frame.style_at(0, 4), lyrics::screen::Style::dim());
}
