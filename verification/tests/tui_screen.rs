use lyrics::screen::{Buffer, DrawCommand, Screen, Style};

fn printed(commands: &[DrawCommand]) -> String {
    commands
        .iter()
        .filter_map(|command| match command {
            DrawCommand::Print(ch) => Some(*ch),
            _ => None,
        })
        .collect()
}

#[test]
fn set_glyph_marks_the_trailing_column_of_a_wide_glyph() {
    let mut buffer = Buffer::new(4, 1);
    assert_eq!(buffer.set_glyph(0, 0, '示', Style::plain()), 2);
    assert_eq!(buffer.set_glyph(2, 0, 'a', Style::bold()), 1);
    assert_eq!(buffer.row_text(0), "示 a ");
    assert_eq!(buffer.style_at(2, 0), Style::bold());
    assert_eq!(buffer.style_at(1, 0), Style::plain());
}

#[test]
fn set_glyph_off_the_grid_writes_nothing_but_still_advances() {
    let mut buffer = Buffer::new(2, 1);
    assert_eq!(buffer.set_glyph(5, 0, 'x', Style::plain()), 1);
    assert_eq!(buffer.set_glyph(0, 3, 'x', Style::plain()), 1);
    assert_eq!(buffer.row_text(0), "  ");
    assert_eq!(buffer.row_text(3), "");
}

#[test]
fn set_string_stops_at_the_right_edge_and_skips_zero_width() {
    let mut buffer = Buffer::new(5, 1);
    let end = buffer.set_string(1, 0, "ab\u{301}cdef", Style::plain());
    assert_eq!(buffer.row_text(0), " abcd");
    assert_eq!(end, 5);
}

#[test]
fn present_repaints_everything_after_a_size_change() {
    let mut screen = Screen::new();
    let mut frame = Buffer::new(3, 1);
    frame.set_string(0, 0, "ab", Style::plain());
    let commands = screen.present(frame);
    assert_eq!(commands[0], DrawCommand::ClearAll);
    assert_eq!(commands[1], DrawCommand::MoveTo { column: 0, row: 0 });
    assert_eq!(printed(&commands), "ab");
}

#[test]
fn present_sends_only_the_changed_run() {
    let mut screen = Screen::new();
    let mut first = Buffer::new(6, 2);
    first.set_string(0, 0, "abcdef", Style::plain());
    screen.present(first);
    let mut second = Buffer::new(6, 2);
    second.set_string(0, 0, "abXYef", Style::plain());
    let commands = screen.present(second);
    assert_eq!(
        commands,
        vec![
            DrawCommand::MoveTo { column: 2, row: 0 },
            DrawCommand::Print('X'),
            DrawCommand::Print('Y'),
        ]
    );
}

#[test]
fn presenting_the_same_frame_again_sends_nothing() {
    let mut screen = Screen::new();
    let mut first = Buffer::new(4, 2);
    first.set_string(0, 1, "hey", Style::reverse());
    screen.present(first);
    let mut again = Buffer::new(4, 2);
    again.set_string(0, 1, "hey", Style::reverse());
    assert_eq!(screen.present(again), vec![]);
}

#[test]
fn present_resets_and_reapplies_attributes() {
    let mut screen = Screen::new();
    screen.present(Buffer::new(3, 1));
    let mut frame = Buffer::new(3, 1);
    frame.set_string(0, 0, "a", Style::bold().with(Style::underline()));
    frame.set_string(1, 0, "b", Style::plain());
    let commands = screen.present(frame);
    assert_eq!(
        commands,
        vec![
            DrawCommand::MoveTo { column: 0, row: 0 },
            DrawCommand::ResetAttributes,
            DrawCommand::Bold,
            DrawCommand::Underline,
            DrawCommand::Print('a'),
            DrawCommand::ResetAttributes,
            DrawCommand::Print('b'),
        ]
    );
}

#[test]
fn present_clears_a_cell_that_became_empty() {
    let mut screen = Screen::new();
    let mut first = Buffer::new(2, 1);
    first.set_string(0, 0, "ab", Style::dim());
    screen.present(first);
    let mut second = Buffer::new(2, 1);
    second.set_string(0, 0, "a", Style::dim());
    let commands = screen.present(second);
    assert_eq!(
        commands,
        vec![
            DrawCommand::MoveTo { column: 1, row: 0 },
            DrawCommand::Print(' '),
        ]
    );
}

#[test]
fn present_moves_past_a_wide_glyph_in_one_step() {
    let mut screen = Screen::new();
    screen.present(Buffer::new(4, 1));
    let mut frame = Buffer::new(4, 1);
    frame.set_string(0, 0, "示x", Style::plain());
    let commands = screen.present(frame);
    assert_eq!(
        commands,
        vec![
            DrawCommand::MoveTo { column: 0, row: 0 },
            DrawCommand::Print('示'),
            DrawCommand::Print('x'),
        ]
    );
}

/// A terminal that keeps only characters: enough to check that replaying
/// what `present` sends leaves the screen showing the frame.
struct TextTerminal {
    width: usize,
    cells: Vec<char>,
    cursor: (usize, usize),
}

impl TextTerminal {
    fn new(width: usize, height: usize) -> Self {
        TextTerminal { width, cells: vec![' '; width * height], cursor: (0, 0) }
    }

    fn replay(&mut self, commands: &[DrawCommand]) {
        for command in commands {
            match *command {
                DrawCommand::ClearAll => self.cells.iter_mut().for_each(|cell| *cell = ' '),
                DrawCommand::MoveTo { column, row } => self.cursor = (column as usize, row as usize),
                DrawCommand::Print(ch) => {
                    let (col, row) = self.cursor;
                    let wide = lyrics::layout::glyph_width(ch) == 2;
                    if col < self.width {
                        self.cells[row * self.width + col] = ch;
                        if wide && col + 1 < self.width {
                            self.cells[row * self.width + col + 1] = ' ';
                        }
                    }
                    self.cursor = (col + if wide { 2 } else { 1 }, row);
                }
                _ => {}
            }
        }
    }

    fn row(&self, row: usize) -> String {
        let cells = &self.cells[row * self.width..(row + 1) * self.width];
        let mut text = String::new();
        let mut skip = false;
        for &ch in cells {
            if skip {
                skip = false;
                text.push(' ');
                continue;
            }
            text.push(ch);
            skip = lyrics::layout::glyph_width(ch) == 2;
        }
        text
    }
}

#[test]
fn replaying_each_present_shows_each_frame() {
    let texts = ["hello 示例", "help  示x", "示例示例ab", "", "a示 b"];
    let mut screen = Screen::new();
    let mut terminal = TextTerminal::new(10, 2);
    for (n, text) in texts.iter().enumerate() {
        let mut frame = Buffer::new(10, 2);
        frame.set_string(0, (n % 2) as u32, text, Style::plain());
        let expected = [frame.row_text(0), frame.row_text(1)];
        terminal.replay(&screen.present(frame));
        assert_eq!([terminal.row(0), terminal.row(1)], expected, "after {text:?}");
    }
}
