//! What the selector pages draw, and the single-column list page's
//! response to each input event.
//!
//! A page is drawn into a fresh [`Buffer`] for each frame; the terminal
//! side presents it through a [`crate::screen::Screen`]. The list page's
//! decisions form a state machine: [`ListPage::react`] takes one input
//! and says whether to redraw, to wait for the next input, or to leave
//! the page with a [`Navigation`].

use crate::layout::{
    Button, button_label, button_runs, button_under, double_click, fit_cells, line_chars,
    text_cols,
};
use crate::screen::{Buffer, Cell, Style, plain_style, put_glyph, put_text};
use vstd::prelude::*;

verus! {

/// The outcome of an interactive selector.
#[derive(Clone, Copy, Debug, PartialEq, Eq, Structural)]
pub enum Navigation {
    /// The user chose the item at this index.
    Selected(usize),
    /// The user asked to return to the previous page.
    Back,
    /// The user asked to quit the program.
    Quit,
}

/// The keys the pages respond to.
#[derive(Clone, Copy, Debug, PartialEq, Eq, Structural)]
pub enum Key {
    Esc,
    Backspace,
    Enter,
    Up,
    Down,
    Char(char),
    /// Any other key.
    Other,
}

/// The pointer actions the pages respond to.
#[derive(Clone, Copy, Debug, PartialEq, Eq, Structural)]
pub enum Pointer {
    ScrollUp,
    ScrollDown,
    /// The left button pressed down.
    LeftDown,
    /// Any other pointer action, such as a movement.
    Other,
}

/// One input event, as the terminal reports it.
#[derive(Clone, Copy, Debug, PartialEq, Eq, Structural)]
pub enum Input {
    /// A key event; `press` is false for a release or a repeat, and
    /// `control` tells whether Control was held.
    Key { key: Key, control: bool, press: bool },
    /// A pointer event at `column`, `row`.
    Mouse { pointer: Pointer, column: u16, row: u16 },
    /// The terminal changed size.
    Resize,
    /// Any other event, such as a focus change or a paste.
    Other,
}

/// What a page does after an input event.
#[derive(Clone, Copy, Debug, PartialEq, Eq, Structural)]
pub enum Reaction {
    /// Draw the page again, then wait for the next input.
    Redraw,
    /// Wait for the next input without drawing.
    Wait,
    /// Leave the page.
    Done(Navigation),
}

/// The base style of a selectable row at screen `row`: reverse video when
/// it is the current selection, with bold added when the pointer is on
/// that row.
pub open spec fn row_style_of(selected: bool, hover: Option<(u16, u16)>, row: int) -> Style {
    let hovered = match hover {
        Some((_, hovered_row)) => hovered_row == row,
        None => false,
    };
    Style { bold: hovered, reverse: selected, ..plain_style() }
}

/// The base style for a selectable row at screen `row`: reverse video
/// when it is the current selection, with bold added when the pointer
/// hovers over it.
pub fn row_style(selected: bool, hover: Option<(u16, u16)>, row: u16) -> (result: Style)
    ensures
        result == row_style_of(selected, hover, row as int),
{
    let mut style = if selected {
        Style::reverse()
    } else {
        Style::plain()
    };
    match hover {
        Some((_, hovered_row)) => {
            if hovered_row == row {
                style = style.with(Style::bold());
            }
        },
        None => {},
    }
    style
}

/// `grid` after drawing the highlighted `line` from column `col` of
/// `row`, each character over `base` and the highlighted ones underlined;
/// drawing stops at the right edge.
pub open spec fn put_line(
    grid: Seq<Cell>,
    width: int,
    height: int,
    col: int,
    row: int,
    line: Seq<(char, bool)>,
    base: Style,
) -> Seq<Cell>
    decreases line.len(),
{
    if line.len() == 0 || col >= width {
        grid
    } else {
        let style = if line[0].1 {
            Style { underline: true, ..base }
        } else {
            base
        };
        put_line(
            put_glyph(grid, width, height, col, row, line[0].0, style),
            width,
            height,
            col + crate::screen::glyph_advance(line[0].0),
            row,
            line.drop_first(),
            base,
        )
    }
}


/// Draws a line of `(character, highlighted)` pairs into `buffer` at
/// `row` over the row's `base` style, underlining the highlighted
/// characters. The caller sets `base` to reverse video for the row under
/// the cursor and adds bold for a row under the pointer; the underline
/// composes with either.
pub fn draw_highlighted_line(buffer: &mut Buffer, row: u16, line: &Vec<(char, bool)>, base: Style)
    requires
        old(buffer).wf(),
    ensures
        final(buffer).wf(),
        final(buffer).cols() == old(buffer).cols(),
        final(buffer).rows() == old(buffer).rows(),
        final(buffer).grid() == put_line(
            old(buffer).grid(),
            old(buffer).cols(),
            old(buffer).rows(),
            0,
            row as int,
            line@,
            base,
        ),
{
    let ghost target = put_line(buffer.grid(), buffer.cols(), buffer.rows(), 0, row as int, line@, base);
    let width = buffer.width() as u32;
    let mut col: u32 = 0;
    let mut i: usize = 0;
    assert(line@.skip(0) =~= line@);
    while i < line.len()
        invariant_except_break
            put_line(buffer.grid(), buffer.cols(), buffer.rows(), col as int, row as int, line@.skip(i as int), base)
                == target,
        invariant
            buffer.wf(),
            i <= line@.len(),
            width == buffer.cols(),
            buffer.cols() == old(buffer).cols(),
            buffer.rows() == old(buffer).rows(),
            col <= 2 * 65535,
            width <= 65535,
        ensures
            buffer.grid() == target,
        decreases line.len() - i,
    {
        proof {
            assert(line@.skip(i as int).drop_first() =~= line@.skip(i + 1));
            assert(line@.skip(i as int)[0] == line@[i as int]);
        }
        if col >= width {
            break;
        }
        let (character, highlight) = line[i];
        let style = if highlight {
            base.with(Style::underline())
        } else {
            base
        };
        proof {
            assert(style == if line@[i as int].1 {
                Style { underline: true, ..base }
            } else {
                base
            });
        }
        let advance = buffer.set_glyph(col, row as u32, character, style);
        col = col + advance;
        i = i + 1;
    }
    proof {
        if i == line.len() {
            assert(line@.skip(i as int) =~= Seq::<(char, bool)>::empty());
        }
    }
}

/// The text a button is drawn with, `[ label ]`.
pub open spec fn button_text(button: Button) -> Seq<char> {
    seq!['[', ' '] + button_label(button) + seq![' ', ']']
}

/// The style of a top-bar button whose run starts at `start` and spans
/// `cols` columns: dimmed when it is the disabled Back button, reversed
/// under the pointer, plain otherwise.
pub open spec fn button_style(
    button: Button,
    start: int,
    cols: int,
    back_enabled: bool,
    hover: Option<(u16, u16)>,
) -> Style {
    if button == Button::Back && !back_enabled {
        Style { dim: true, ..plain_style() }
    } else if (match hover {
        Some((col, row)) => row == 0 && start <= col < start + cols,
        None => false,
    }) {
        Style { reverse: true, ..plain_style() }
    } else {
        plain_style()
    }
}

/// Where the page title stands in a top bar `width` columns wide, and
/// what is drawn of it: centered in the gap between the Forward and Exit
/// buttons, or fitted to the gap when it does not fit; nothing when there
/// is no gap.
pub open spec fn title_placement(width: int, title: Seq<char>) -> Option<(int, Seq<char>)> {
    let runs = button_runs(width);
    let gap_start = runs[1].1 + runs[1].2;
    let gap_end = runs[2].1;
    if gap_end > gap_start {
        let gap = gap_end - gap_start;
        let title_width = text_cols(title);
        if title_width >= gap {
            Some((gap_start, line_chars(fit_cells(title, Seq::empty(), gap))))
        } else {
            Some((gap_start + (gap - title_width) / 2, title))
        }
    } else {
        None
    }
}

/// `grid` after drawing the `index`-th top-bar button.
pub open spec fn put_button(
    grid: Seq<Cell>,
    w: int,
    h: int,
    width: int,
    index: int,
    back_enabled: bool,
    hover: Option<(u16, u16)>,
) -> Seq<Cell> {
    let run = button_runs(width)[index];
    put_text(
        grid,
        w,
        h,
        run.1,
        0,
        button_text(run.0),
        button_style(run.0, run.1, run.2, back_enabled, hover),
    ).0
}

/// `grid` after drawing the top bar of a page `width` columns wide: the
/// three buttons, then the title between them.
pub open spec fn top_bar_grid(
    grid: Seq<Cell>,
    w: int,
    h: int,
    width: int,
    title: Seq<char>,
    back_enabled: bool,
    hover: Option<(u16, u16)>,
) -> Seq<Cell> {
    let g0 = put_button(grid, w, h, width, 0, back_enabled, hover);
    let g1 = put_button(g0, w, h, width, 1, back_enabled, hover);
    let g2 = put_button(g1, w, h, width, 2, back_enabled, hover);
    match title_placement(width, title) {
        Some((col, text)) => put_text(g2, w, h, col, 0, text, plain_style()).0,
        None => g2,
    }
}

/// Draws the `index`-th top-bar button.
fn draw_button(
    buffer: &mut Buffer,
    width: u16,
    index: usize,
    back_enabled: bool,
    hover: Option<(u16, u16)>,
)
    requires
        old(buffer).wf(),
        index < 3,
    ensures
        final(buffer).wf(),
        final(buffer).cols() == old(buffer).cols(),
        final(buffer).rows() == old(buffer).rows(),
        final(buffer).grid() == put_button(
            old(buffer).grid(),
            old(buffer).cols(),
            old(buffer).rows(),
            width as int,
            index as int,
            back_enabled,
            hover,
        ),
{
    let buttons = crate::layout::button_columns(width);
    let (button, span) = buttons[index];
    assert(buttons@[index as int] == buttons[index as int]);
    let disabled = button == Button::Back && !back_enabled;
    let hovered = match hover {
        Some((col, row)) => row == 0 && span.contains(col as u32),
        None => false,
    };
    let style = if disabled {
        Style::dim()
    } else if hovered {
        Style::reverse()
    } else {
        Style::plain()
    };
    let text = button.draw();
    buffer.set_string(span.start(), 0, text.as_str(), style);
}

/// Draws the top bar into `buffer` at the first row: the Back and Forward
/// buttons on the left, the Exit button on the right, and `title`
/// centered between them. When `back_enabled` is false the Back button is
/// drawn dimmed, since there is no previous page. The button under the
/// pointer at `hover`, given as a column and a row, is drawn in reverse
/// video, except the disabled Back button, which stays dimmed.
pub fn render_top_bar(
    buffer: &mut Buffer,
    width: u16,
    title: &str,
    back_enabled: bool,
    hover: Option<(u16, u16)>,
)
    requires
        old(buffer).wf(),
    ensures
        final(buffer).wf(),
        final(buffer).cols() == old(buffer).cols(),
        final(buffer).rows() == old(buffer).rows(),
        final(buffer).grid() == top_bar_grid(
            old(buffer).grid(),
            old(buffer).cols(),
            old(buffer).rows(),
            width as int,
            title@,
            back_enabled,
            hover,
        ),
{
    draw_button(buffer, width, 0, back_enabled, hover);
    draw_button(buffer, width, 1, back_enabled, hover);
    draw_button(buffer, width, 2, back_enabled, hover);
    // Center the title in the space between the Forward and Exit buttons,
    // truncating it there if it does not fit.
    let buttons = crate::layout::button_columns(width);
    assert(buttons@[1] == buttons[1] && buttons@[2] == buttons[2]);
    proof {
        crate::layout::lemma_button_cols_bound(Button::Back);
        crate::layout::lemma_button_cols_bound(Button::Forward);
    }
    let gap_start = buttons[1].1.end();
    let gap_end = buttons[2].1.start() as u64;
    if gap_end > gap_start {
        let gap = (gap_end - gap_start) as u16;
        let title_width = crate::layout::text_width(title);
        if title_width >= gap {
            let shown = crate::layout::fit(title, gap);
            buffer.set_string(gap_start as u32, 0, shown.as_str(), Style::plain());
        } else {
            let indent = (gap - title_width) / 2;
            buffer.set_string(gap_start as u32 + indent as u32, 0, title, Style::plain());
        }
    }
}

/// The single-column list page between two inputs: how many labels it
/// shows, the highlighted one, the last click on a label (its time in
/// nanoseconds since the Unix epoch and its index), and where the pointer
/// last was.
#[derive(Clone, Copy, Debug)]
pub struct ListPage {
    pub len: usize,
    pub cursor: usize,
    pub last_click: Option<(u128, usize)>,
    pub hover: Option<(u16, u16)>,
}

/// The row of the first label, directly below the top bar.
pub open spec fn first_list_row() -> int {
    1
}

impl ListPage {
    /// The cursor stands on a label, or at the top of an empty list.
    pub open spec fn wf(self) -> bool {
        self.cursor < self.len || (self.len == 0 && self.cursor == 0)
    }

    /// The page showing `len` labels with the cursor on `start`, or on
    /// the last label when `start` is past it, to restore a previous
    /// choice.
    pub fn new(len: usize, start: usize) -> (result: ListPage)
        ensures
            result.wf(),
            result.len == len,
            result.cursor == if start + 1 <= len {
                start as int
            } else if len >= 1 {
                len - 1
            } else {
                0
            },
            result.last_click is None,
            result.hover is None,
    {
        let last = if len >= 1 {
            len - 1
        } else {
            0
        };
        let cursor = if start < last {
            start
        } else {
            last
        };
        ListPage { len, cursor, last_click: None, hover: None }
    }
}

/// The page with its cursor moved up one label, staying on the first.
pub open spec fn cursor_up(page: ListPage) -> ListPage {
    ListPage { cursor: if page.cursor >= 1 { (page.cursor - 1) as usize } else { 0 }, ..page }
}

/// The page with its cursor moved down one label, staying on the last.
pub open spec fn cursor_down(page: ListPage) -> ListPage {
    ListPage {
        cursor: if page.cursor + 1 < page.len { (page.cursor + 1) as usize } else { page.cursor },
        ..page
    }
}

/// Confirming the highlighted label, which does nothing on an empty list.
pub open spec fn list_confirm(page: ListPage) -> (ListPage, Reaction) {
    if page.len > 0 {
        (page, Reaction::Done(Navigation::Selected(page.cursor)))
    } else {
        (page, Reaction::Wait)
    }
}

/// A left click at `column`, `row` of a `columns` by `rows` terminal at
/// time `now`: on the top bar it acts on the button under it, where
/// Forward confirms like Enter; on a label row above the help line it
/// highlights that label, and confirms it when it completes a double
/// click; elsewhere it only redraws.
pub open spec fn list_click(
    page: ListPage,
    column: u16,
    row: u16,
    columns: u16,
    rows: u16,
    now: u128,
) -> (ListPage, Reaction) {
    if row == 0 {
        match button_under(columns as int, column as int) {
            Some(Button::Exit) => (page, Reaction::Done(Navigation::Quit)),
            Some(Button::Back) => (page, Reaction::Done(Navigation::Back)),
            Some(Button::Forward) => if page.len > 0 {
                (page, Reaction::Done(Navigation::Selected(page.cursor)))
            } else {
                (page, Reaction::Redraw)
            },
            None => (page, Reaction::Redraw),
        }
    } else if row + 1 < rows && row - first_list_row() < page.len {
        let index = (row - first_list_row()) as usize;
        let confirm = double_click(page.last_click, now as int, index as int);
        let clicked = ListPage { cursor: index, last_click: Some((now, index)), ..page };
        if confirm {
            (clicked, Reaction::Done(Navigation::Selected(index)))
        } else {
            (clicked, Reaction::Redraw)
        }
    } else {
        (page, Reaction::Redraw)
    }
}

/// How the list page responds to `input` in a `columns` by `rows`
/// terminal at time `now`, and the page afterwards.
///
/// Escape and Backspace go back, since a list page always follows an
/// earlier page; Ctrl-C and a bare or shifted Q quit, since the list has
/// no text entry; Up and Down move the cursor within the list; Enter and
/// Space confirm the highlighted label. The scroll wheel moves the
/// cursor, and every pointer event records where the pointer is, so the
/// hover highlight follows it.
pub open spec fn list_react(
    page: ListPage,
    input: Input,
    columns: u16,
    rows: u16,
    now: u128,
) -> (ListPage, Reaction) {
    match input {
        Input::Key { key, control, press } => if !press {
            (page, Reaction::Wait)
        } else {
            match key {
                Key::Esc => (page, Reaction::Done(Navigation::Back)),
                Key::Backspace => (page, Reaction::Done(Navigation::Back)),
                Key::Char(c) => if c == 'c' && control {
                    (page, Reaction::Done(Navigation::Quit))
                } else if c == 'q' || c == 'Q' {
                    (page, Reaction::Done(Navigation::Quit))
                } else if c == ' ' {
                    list_confirm(page)
                } else {
                    (page, Reaction::Wait)
                },
                Key::Up => (cursor_up(page), Reaction::Redraw),
                Key::Down => (cursor_down(page), Reaction::Redraw),
                Key::Enter => list_confirm(page),
                Key::Other => (page, Reaction::Wait),
            }
        },
        Input::Mouse { pointer, column, row } => {
            let moved = ListPage { hover: Some((column, row)), ..page };
            match pointer {
                Pointer::ScrollUp => (cursor_up(moved), Reaction::Redraw),
                Pointer::ScrollDown => (cursor_down(moved), Reaction::Redraw),
                Pointer::LeftDown => list_click(moved, column, row, columns, rows, now),
                Pointer::Other => (moved, Reaction::Redraw),
            }
        },
        Input::Resize => (page, Reaction::Redraw),
        Input::Other => (page, Reaction::Wait),
    }
}

impl ListPage {
    fn move_up(&mut self)
        ensures
            *final(self) == cursor_up(*old(self)),
    {
        if self.cursor >= 1 {
            self.cursor = self.cursor - 1;
        }
    }

    fn move_down(&mut self)
        ensures
            *final(self) == cursor_down(*old(self)),
    {
        if self.cursor < self.len && self.len - self.cursor > 1 {
            self.cursor = self.cursor + 1;
        }
    }

    fn confirm(&self) -> (result: Reaction)
        ensures
            result == list_confirm(*self).1,
    {
        if self.len > 0 {
            Reaction::Done(Navigation::Selected(self.cursor))
        } else {
            Reaction::Wait
        }
    }

    fn click(&mut self, column: u16, row: u16, columns: u16, rows: u16, now: u128) -> (result:
        Reaction)
        ensures
            (*final(self), result) == list_click(*old(self), column, row, columns, rows, now),
    {
        if row == 0 {
            match crate::layout::button_at(columns, column as u32) {
                Some(Button::Exit) => Reaction::Done(Navigation::Quit),
                Some(Button::Back) => Reaction::Done(Navigation::Back),
                Some(Button::Forward) => if self.len > 0 {
                    Reaction::Done(Navigation::Selected(self.cursor))
                } else {
                    Reaction::Redraw
                },
                None => Reaction::Redraw,
            }
        } else if (row as u32) + 1 < rows as u32 && ((row - 1) as usize) < self.len {
            let index = (row - 1) as usize;
            let confirm = crate::layout::is_double_click(self.last_click, now, index);
            self.last_click = Some((now, index));
            self.cursor = index;
            if confirm {
                Reaction::Done(Navigation::Selected(index))
            } else {
                Reaction::Redraw
            }
        } else {
            Reaction::Redraw
        }
    }

    /// Responds to `input` in a `columns` by `rows` terminal at time
    /// `now` (nanoseconds since the Unix epoch): the page changes as
    /// [`list_react`] says, and the result tells whether to redraw, to
    /// wait for the next input, or to leave the page.
    pub fn react(&mut self, input: Input, columns: u16, rows: u16, now: u128) -> (result: Reaction)
        requires
            old(self).wf(),
        ensures
            final(self).wf(),
            (*final(self), result) == list_react(*old(self), input, columns, rows, now),
    {
        match input {
            Input::Key { key, control, press } => {
                if !press {
                    return Reaction::Wait;
                }
                match key {
                    Key::Esc => Reaction::Done(Navigation::Back),
                    Key::Backspace => Reaction::Done(Navigation::Back),
                    Key::Char(c) => {
                        if c == 'c' && control {
                            Reaction::Done(Navigation::Quit)
                        } else if c == 'q' || c == 'Q' {
                            Reaction::Done(Navigation::Quit)
                        } else if c == ' ' {
                            self.confirm()
                        } else {
                            Reaction::Wait
                        }
                    },
                    Key::Up => {
                        self.move_up();
                        Reaction::Redraw
                    },
                    Key::Down => {
                        self.move_down();
                        Reaction::Redraw
                    },
                    Key::Enter => self.confirm(),
                    Key::Other => Reaction::Wait,
                }
            },
            Input::Mouse { pointer, column, row } => {
                self.hover = Some((column, row));
                match pointer {
                    Pointer::ScrollUp => {
                        self.move_up();
                        Reaction::Redraw
                    },
                    Pointer::ScrollDown => {
                        self.move_down();
                        Reaction::Redraw
                    },
                    Pointer::LeftDown => self.click(column, row, columns, rows, now),
                    Pointer::Other => Reaction::Redraw,
                }
            },
            Input::Resize => Reaction::Redraw,
            Input::Other => Reaction::Wait,
        }
    }
}

/// The help line of the list page.
pub open spec fn list_help() -> Seq<char> {
    "↑/↓ move · ⌫/Esc back · ⏎/␣ select · ^Q quit"@
}

/// The views of `labels`.
pub open spec fn label_views(labels: Seq<String>) -> Seq<Seq<char>> {
    labels.map_values(|label: String| label@)
}

/// The screen row of label `index`, as the `u16` row number it is drawn
/// at.
pub open spec fn label_row(index: int) -> int {
    (index + first_list_row()) % 65536
}

/// `grid` after drawing the first `n` labels of the list, each fitted to
/// the width on its own row, reversed under the cursor and bold under
/// the pointer.
pub open spec fn list_rows_grid(
    grid: Seq<Cell>,
    w: int,
    h: int,
    labels: Seq<Seq<char>>,
    n: int,
    cursor: int,
    hover: Option<(u16, u16)>,
) -> Seq<Cell>
    decreases n,
{
    if n <= 0 {
        grid
    } else {
        let before = list_rows_grid(grid, w, h, labels, n - 1, cursor, hover);
        let index = n - 1;
        let row = label_row(index);
        put_text(
            before,
            w,
            h,
            0,
            row,
            line_chars(fit_cells(labels[index], Seq::empty(), w)),
            row_style_of(index == cursor, hover, row),
        ).0
    }
}

/// An empty grid of `width` by `height` cells.
pub open spec fn empty_grid(width: int, height: int) -> Seq<Cell> {
    Seq::new((width * height) as nat, |i: int| Cell::Empty)
}

/// The frame of the list page titled `title` in a `width` by `height`
/// terminal: the top bar with going back available, the labels below it,
/// and the dimmed help line on the last row.
pub open spec fn list_grid(
    title: Seq<char>,
    labels: Seq<Seq<char>>,
    page: ListPage,
    width: int,
    height: int,
) -> Seq<Cell> {
    let top = top_bar_grid(empty_grid(width, height), width, height, width, title, true, page.hover);
    let rows = list_rows_grid(top, width, height, labels, labels.len() as int, page.cursor as int, page.hover);
    put_text(
        rows,
        width,
        height,
        0,
        if height >= 1 { height - 1 } else { 0 },
        line_chars(fit_cells(list_help(), Seq::empty(), width)),
        Style { dim: true, ..plain_style() },
    ).0
}

/// Draws the list page titled `title`, showing `labels`, in a `width` by
/// `height` terminal.
pub fn render_list(title: &str, labels: &Vec<String>, page: &ListPage, width: u16, height: u16) -> (result: Buffer)
    ensures
        result.wf(),
        result.cols() == width,
        result.rows() == height,
        result.grid() == list_grid(title@, label_views(labels@), *page, width as int, height as int),
{
    let mut buffer = Buffer::new(width, height);
    // The top bar names the page; a list page always follows an earlier
    // page, so going back is available.
    render_top_bar(&mut buffer, width, title, true, page.hover);
    let ghost top = buffer.grid();
    let ghost views = label_views(labels@);
    let mut index: usize = 0;
    while index < labels.len()
        invariant
            buffer.wf(),
            buffer.cols() == width,
            buffer.rows() == height,
            index <= labels@.len(),
            views == label_views(labels@),
            buffer.grid() == list_rows_grid(
                top,
                width as int,
                height as int,
                views,
                index as int,
                page.cursor as int,
                page.hover,
            ),
        decreases labels.len() - index,
    {
        let row = ((index as u64 + 1) % 65536) as u16;
        let line = crate::layout::fit(labels[index].as_str(), width);
        let style = row_style(index == page.cursor, page.hover, row);
        buffer.set_string(0, row as u32, line.as_str(), style);
        index = index + 1;
    }
    let help = "↑/↓ move · ⌫/Esc back · ⏎/␣ select · ^Q quit";
    let last_row = if height >= 1 {
        height - 1
    } else {
        0
    };
    let shown = crate::layout::fit(help, width);
    buffer.set_string(0, last_row as u32, shown.as_str(), Style::dim());
    buffer
}


/// A left click on the list acts only on the label it lands on. Below the
/// top bar, a click that selects item `i`, or that moves the cursor or
/// records a click, landed on row `i + 1`, where label `i` is drawn; a
/// click on a row that shows no label (past the last label, or on the
/// help line) leaves the cursor and the last click as they were and ends
/// nothing, while a click on a label always moves the cursor to it and
/// records the click, and selects it exactly when the previous click was
/// on the same label at most half a second earlier.
pub proof fn lemma_list_click_on_label(
    page: ListPage,
    column: u16,
    row: u16,
    columns: u16,
    rows: u16,
    now: u128,
)
    ensures
        ({
            let input = Input::Mouse { pointer: Pointer::LeftDown, column, row };
            let (next, reaction) = list_react(page, input, columns, rows, now);
            &&& row >= 1 ==> (reaction matches Reaction::Done(Navigation::Selected(i)) ==> i + 1 == row
                && i < page.len)
            &&& row >= 1 && (next.cursor != page.cursor || next.last_click != page.last_click)
                ==> next.cursor + 1 == row && next.last_click == Some((now, next.cursor))
            &&& row >= 1 && row - 1 < page.len && row + 1 < rows ==> {
                &&& next.cursor + 1 == row
                &&& next.last_click == Some((now, next.cursor))
                &&& (reaction == Reaction::Redraw || reaction == Reaction::Done(
                    Navigation::Selected(next.cursor),
                ))
                &&& (reaction is Done <==> (page.last_click matches Some((when, last)) && last + 1
                    == row && when <= now && now - when <= 500_000_000))
            }
            &&& row >= 1 && (row - 1 >= page.len || row + 1 >= rows) ==> {
                &&& next.cursor == page.cursor
                &&& next.last_click == page.last_click
                &&& !(reaction is Done)
            }
        }),
{
}

} // verus!
