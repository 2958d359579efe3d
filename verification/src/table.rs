//! The fuzzy table of titles: what it draws, and its response to each
//! input event.
//!
//! The fuzzy matching, the order of the rows and the query text belong to
//! the selector that filters the titles; this module reads them as plain
//! values (the filtered item indices in display order, the position of the
//! cursor among them) and answers each input with a [`TableReaction`] that
//! the selector carries out.

use crate::layout::{
    TitleColumn, button_under, cell_cols, cell_start, columns_cells, double_click, fit_cells,
    line_chars, separator_text, title_column_at,
};
use crate::pages::{
    Input, Key, Navigation, Pointer, draw_highlighted_line, empty_grid, put_line, render_top_bar,
    row_style, row_style_of, top_bar_grid,
};
use crate::screen::{Buffer, Cell, Style, plain_style, put_text};
use vstd::prelude::*;

verus! {

/// The screen row of the search bar, below the top bar.
pub open spec fn search_row() -> int {
    1
}

/// The screen row of the clickable column header.
pub open spec fn header_row() -> int {
    2
}

/// The screen row of the first title.
pub open spec fn first_data_row() -> int {
    3
}

/// What the table does after an input event.
#[derive(Clone, Copy, Debug, PartialEq, Eq, Structural)]
pub enum TableReaction {
    /// Draw the table again, then wait for the next input.
    Redraw,
    /// Wait for the next input without drawing.
    Wait,
    /// Move the cursor up one row, then redraw.
    MoveUp,
    /// Move the cursor down one row, then redraw.
    MoveDown,
    /// Delete the last character of the query, then redraw.
    PopChar,
    /// Append a character to the query, then redraw.
    PushChar(char),
    /// Sort by this column (a click on its header), then redraw.
    SortBy(TitleColumn),
    /// Put the cursor on this item, then redraw.
    Focus(usize),
    /// Leave the table.
    Done(Navigation),
}

/// The table between two inputs: the last click on a title (its time in
/// nanoseconds since the Unix epoch and its item index) and where the
/// pointer last was.
#[derive(Clone, Copy, Debug)]
pub struct TablePage {
    pub last_click: Option<(u128, usize)>,
    pub hover: Option<(u16, u16)>,
}

/// The item under the cursor, if the filtered list has one there.
pub open spec fn selected_item(filtered: Seq<usize>, cursor: int) -> Option<usize> {
    if 0 <= cursor < filtered.len() {
        Some(filtered[cursor])
    } else {
        None
    }
}

/// A left click at `column`, `row` of a `columns` by `rows` terminal at
/// time `now`, with the cursor at position `cursor` of `filtered`. On the
/// top bar it acts on the button under it: Exit quits, Forward confirms
/// like Enter, and Back does nothing on this first page. On the header it
/// sorts by the column under it. On a visible title row it puts the
/// cursor on that item, and confirms it when it completes a double click
/// on the same item.
pub open spec fn table_click(
    page: TablePage,
    column: u16,
    row: u16,
    columns: u16,
    rows: u16,
    now: u128,
    cursor: int,
    filtered: Seq<usize>,
) -> (TablePage, TableReaction) {
    if row == 0 {
        match button_under(columns as int, column as int) {
            Some(crate::layout::Button::Exit) => (page, TableReaction::Done(Navigation::Quit)),
            Some(crate::layout::Button::Forward) => match selected_item(filtered, cursor) {
                Some(index) => (page, TableReaction::Done(Navigation::Selected(index))),
                None => (page, TableReaction::Redraw),
            },
            _ => (page, TableReaction::Redraw),
        }
    } else if row == header_row() {
        match title_column_at(columns as int, column as int) {
            Some(i) => (page, TableReaction::SortBy(crate::layout::title_column(i))),
            None => (page, TableReaction::Redraw),
        }
    } else {
        let visible = crate::layout::visible_count(rows as int);
        let offset = crate::layout::scroll_from(cursor, visible);
        let screen_index = row - first_data_row();
        if 0 <= screen_index < visible && offset + screen_index < filtered.len() {
            let index = filtered[offset + screen_index];
            let confirm = double_click(page.last_click, now as int, index as int);
            let clicked = TablePage { last_click: Some((now, index)), ..page };
            if confirm {
                (clicked, TableReaction::Done(Navigation::Selected(index)))
            } else {
                (clicked, TableReaction::Focus(index))
            }
        } else {
            (page, TableReaction::Redraw)
        }
    }
}

/// How the table responds to `input` in a `columns` by `rows` terminal at
/// time `now`, with the cursor at position `cursor` of `filtered`, and the
/// table afterwards.
///
/// The table is the first page and has a search box, so Escape, Ctrl-C
/// and Ctrl-Q (in either case) quit, Ctrl-Backspace goes back, a plain
/// Backspace deletes from the query and any other character is typed into
/// it; Up and Down move the cursor, and Enter confirms the item under it.
/// The scroll wheel moves the cursor, and every pointer event records
/// where the pointer is.
pub open spec fn table_react(
    page: TablePage,
    input: Input,
    columns: u16,
    rows: u16,
    now: u128,
    cursor: int,
    filtered: Seq<usize>,
) -> (TablePage, TableReaction) {
    match input {
        Input::Key { key, control, press } => if !press {
            (page, TableReaction::Wait)
        } else {
            match key {
                Key::Esc => (page, TableReaction::Done(Navigation::Quit)),
                Key::Char(c) => if control && (c == 'c' || c == 'q' || c == 'Q') {
                    (page, TableReaction::Done(Navigation::Quit))
                } else {
                    (page, TableReaction::PushChar(c))
                },
                Key::Up => (page, TableReaction::MoveUp),
                Key::Down => (page, TableReaction::MoveDown),
                Key::Backspace => if control {
                    (page, TableReaction::Done(Navigation::Back))
                } else {
                    (page, TableReaction::PopChar)
                },
                Key::Enter => match selected_item(filtered, cursor) {
                    Some(index) => (page, TableReaction::Done(Navigation::Selected(index))),
                    None => (page, TableReaction::Wait),
                },
                Key::Other => (page, TableReaction::Wait),
            }
        },
        Input::Mouse { pointer, column, row } => {
            let moved = TablePage { hover: Some((column, row)), ..page };
            match pointer {
                Pointer::ScrollUp => (moved, TableReaction::MoveUp),
                Pointer::ScrollDown => (moved, TableReaction::MoveDown),
                Pointer::LeftDown => table_click(
                    moved,
                    column,
                    row,
                    columns,
                    rows,
                    now,
                    cursor,
                    filtered,
                ),
                Pointer::Other => (moved, TableReaction::Redraw),
            }
        },
        Input::Resize => (page, TableReaction::Redraw),
        Input::Other => (page, TableReaction::Wait),
    }
}

impl TablePage {
    /// A table with no click yet and no pointer position.
    pub fn new() -> (result: TablePage)
        ensures
            result.last_click is None,
            result.hover is None,
    {
        TablePage { last_click: None, hover: None }
    }

    fn selected(cursor: usize, filtered: &[usize]) -> (result: Option<usize>)
        ensures
            result == selected_item(filtered@, cursor as int),
    {
        if cursor < filtered.len() {
            Some(filtered[cursor])
        } else {
            None
        }
    }

    fn click(
        &mut self,
        column: u16,
        row: u16,
        columns: u16,
        rows: u16,
        now: u128,
        cursor: usize,
        filtered: &[usize],
    ) -> (result: TableReaction)
        ensures
            (*final(self), result) == table_click(
                *old(self),
                column,
                row,
                columns,
                rows,
                now,
                cursor as int,
                filtered@,
            ),
    {
        if row == 0 {
            match crate::layout::button_at(columns, column as u32) {
                Some(crate::layout::Button::Exit) => TableReaction::Done(Navigation::Quit),
                Some(crate::layout::Button::Forward) => match Self::selected(cursor, filtered) {
                    Some(index) => TableReaction::Done(Navigation::Selected(index)),
                    None => TableReaction::Redraw,
                },
                // Going back is disabled on the first page.
                _ => TableReaction::Redraw,
            }
        } else if row == 2 {
            match crate::layout::column_at(columns, column as u32) {
                Some(title_column) => TableReaction::SortBy(title_column),
                None => TableReaction::Redraw,
            }
        } else {
            let visible = crate::layout::visible_rows(rows);
            let offset = crate::layout::scroll_offset(cursor, visible);
            // Only the title rows are clickable; a click on the help line
            // below them must not reach an item scrolled off the bottom.
            if row >= 3 && ((row - 3) as u16) < visible && offset <= filtered.len() && (row - 3)
                as usize <= filtered.len() - offset && ((row - 3) as usize) < filtered.len()
                - offset {
                let index = filtered[offset + (row - 3) as usize];
                let confirm = crate::layout::is_double_click(self.last_click, now, index);
                self.last_click = Some((now, index));
                if confirm {
                    TableReaction::Done(Navigation::Selected(index))
                } else {
                    TableReaction::Focus(index)
                }
            } else {
                TableReaction::Redraw
            }
        }
    }

    /// Responds to `input` in a `columns` by `rows` terminal at time `now`
    /// (nanoseconds since the Unix epoch), with the cursor at position
    /// `cursor` of the filtered item indices `filtered`: the table changes
    /// as [`table_react`] says, and the result tells the caller what to do.
    pub fn react(
        &mut self,
        input: Input,
        columns: u16,
        rows: u16,
        now: u128,
        cursor: usize,
        filtered: &[usize],
    ) -> (result: TableReaction)
        ensures
            (*final(self), result) == table_react(
                *old(self),
                input,
                columns,
                rows,
                now,
                cursor as int,
                filtered@,
            ),
    {
        match input {
            Input::Key { key, control, press } => {
                if !press {
                    return TableReaction::Wait;
                }
                match key {
                    Key::Esc => TableReaction::Done(Navigation::Quit),
                    Key::Char(c) => {
                        // Ctrl-Q quits in either case, so Shift or Caps Lock
                        // never change it; a bare letter is typed.
                        if control && (c == 'c' || c == 'q' || c == 'Q') {
                            TableReaction::Done(Navigation::Quit)
                        } else {
                            TableReaction::PushChar(c)
                        }
                    },
                    Key::Up => TableReaction::MoveUp,
                    Key::Down => TableReaction::MoveDown,
                    // Ctrl-Backspace goes back; a plain Backspace only
                    // deletes, so holding it to clear the box never exits.
                    Key::Backspace => if control {
                        TableReaction::Done(Navigation::Back)
                    } else {
                        TableReaction::PopChar
                    },
                    Key::Enter => match Self::selected(cursor, filtered) {
                        Some(index) => TableReaction::Done(Navigation::Selected(index)),
                        None => TableReaction::Wait,
                    },
                    Key::Other => TableReaction::Wait,
                }
            },
            Input::Mouse { pointer, column, row } => {
                self.hover = Some((column, row));
                match pointer {
                    Pointer::ScrollUp => TableReaction::MoveUp,
                    Pointer::ScrollDown => TableReaction::MoveDown,
                    Pointer::LeftDown => self.click(
                        column,
                        row,
                        columns,
                        rows,
                        now,
                        cursor,
                        filtered,
                    ),
                    Pointer::Other => TableReaction::Redraw,
                }
            },
            Input::Resize => TableReaction::Redraw,
            Input::Other => TableReaction::Wait,
        }
    }
}

/// The magnifier at the start of the search bar, with its
/// text-presentation selector.
pub open spec fn magnifier() -> Seq<char> {
    "🔍︎"@
}

/// The label between the magnifier and the query.
pub open spec fn search_label() -> Seq<char> {
    " Search: "@
}

/// `grid` after drawing the search bar of a table `columns` wide: the
/// dimmed magnifier, the italic label, then the query in bold, fitted to
/// what is left of the row.
pub open spec fn search_bar_grid(grid: Seq<Cell>, w: int, h: int, columns: int, query: Seq<char>) -> Seq<
    Cell,
> {
    let (g1, after_magnifier) = put_text(
        grid,
        w,
        h,
        0,
        search_row(),
        magnifier(),
        Style { dim: true, ..plain_style() },
    );
    let (g2, after_label) = put_text(
        g1,
        w,
        h,
        after_magnifier,
        search_row(),
        search_label(),
        Style { italic: true, ..plain_style() },
    );
    let room = if columns > after_label {
        columns - after_label
    } else {
        0
    };
    put_text(
        g2,
        w,
        h,
        after_label,
        search_row(),
        line_chars(fit_cells(query, Seq::empty(), room)),
        Style { bold: true, ..plain_style() },
    ).0
}

/// Draws the search bar: a dimmed magnifier, the italic "Search:" label,
/// and the typed `query` in bold. Each part starts where the one before
/// it ended, so the layout follows the widths the buffer itself used.
pub fn render_search_bar(buffer: &mut Buffer, columns: u16, query: &str)
    requires
        old(buffer).wf(),
    ensures
        final(buffer).wf(),
        final(buffer).cols() == old(buffer).cols(),
        final(buffer).rows() == old(buffer).rows(),
        final(buffer).grid() == search_bar_grid(
            old(buffer).grid(),
            old(buffer).cols(),
            old(buffer).rows(),
            columns as int,
            query@,
        ),
{
    let magnifier = "🔍︎";
    let label = " Search: ";
    let after_magnifier = buffer.set_string(0, 1, magnifier, Style::dim());
    let after_label = buffer.set_string(after_magnifier, 1, label, Style::italic());
    let room: u16 = if (columns as u32) > after_label {
        (columns as u32 - after_label) as u16
    } else {
        0
    };
    let shown = crate::layout::fit(query, room);
    buffer.set_string(after_label, 1, shown.as_str(), Style::bold());
}

/// `label` marked with the direction of the sort when its column is the
/// one the table is sorted by: `Some(true)` ascending, `Some(false)`
/// descending.
pub open spec fn marked_label(label: Seq<char>, ascending: Option<bool>) -> Seq<char> {
    match ascending {
        Some(true) => label + seq![' ', '▲'],
        Some(false) => label + seq![' ', '▼'],
        None => label,
    }
}

/// A column header's label, marked with an arrow for the direction when
/// the table is sorted by that column.
pub fn sort_marked_label(label: &str, ascending: Option<bool>) -> (result: String)
    ensures
        result@ == marked_label(label@, ascending),
{
    let mut text = String::new();
    crate::text::push_str(&mut text, label);
    match ascending {
        Some(up) => {
            crate::text::push_char(&mut text, ' ');
            crate::text::push_char(&mut text, if up { '▲' } else { '▼' });
        },
        None => {},
    }
    text
}

/// `grid` after drawing the column header of a table `columns` wide with
/// the three `labels`: the header bold and dimmed, the separators between
/// the columns bold, and the column under the pointer bold without the
/// dim.
pub open spec fn header_grid(
    grid: Seq<Cell>,
    w: int,
    h: int,
    columns: int,
    labels: Seq<Seq<char>>,
    hover: Option<(u16, u16)>,
) -> Seq<Cell> {
    let each = cell_cols(columns);
    let bold = Style { bold: true, ..plain_style() };
    let g1 = put_text(
        grid,
        w,
        h,
        0,
        header_row(),
        line_chars(
            columns_cells(
                (labels[0], Seq::empty()),
                (labels[1], Seq::empty()),
                (labels[2], Seq::empty()),
                columns,
            ),
        ),
        Style { bold: true, dim: true, ..plain_style() },
    ).0;
    let g2 = put_text(g1, w, h, cell_start(columns, 0) + each, header_row(), separator_text(), bold).0;
    let g3 = put_text(g2, w, h, cell_start(columns, 1) + each, header_row(), separator_text(), bold).0;
    match hover {
        Some((column, row)) => if row == header_row() {
            match title_column_at(columns, column as int) {
                Some(i) => put_text(
                    g3,
                    w,
                    h,
                    cell_start(columns, i),
                    header_row(),
                    line_chars(fit_cells(labels[i], Seq::empty(), each)),
                    bold,
                ).0,
                None => g3,
            }
        } else {
            g3
        },
        None => g3,
    }
}

/// Draws the clickable column header with the three `labels`. The column
/// under the pointer drops the dim to read brighter.
pub fn render_header(buffer: &mut Buffer, columns: u16, labels: &[String; 3], hover: Option<(u16, u16)>)
    requires
        old(buffer).wf(),
    ensures
        final(buffer).wf(),
        final(buffer).cols() == old(buffer).cols(),
        final(buffer).rows() == old(buffer).rows(),
        final(buffer).grid() == header_grid(
            old(buffer).grid(),
            old(buffer).cols(),
            old(buffer).rows(),
            columns as int,
            seq![labels[0]@, labels[1]@, labels[2]@],
            hover,
        ),
{
    let ghost views = seq![labels[0]@, labels[1]@, labels[2]@];
    let header = crate::layout::columns_line(
        labels[0].as_str(),
        labels[1].as_str(),
        labels[2].as_str(),
        columns,
    );
    let spans = crate::layout::column_spans(columns);
    assert(spans@[0] == spans[0] && spans@[1] == spans[1] && spans@[2] == spans[2]);
    proof {
        crate::layout::lemma_cell_bounds(columns as int);
    }
    // The headers are bold and dimmed.
    buffer.set_string(0, 2, header.as_str(), Style::bold().with(Style::dim()));
    // The separators between the headers are bold but not dimmed.
    let separator = crate::layout::column_separator();
    buffer.set_string(spans[0].end() as u32, 2, separator, Style::bold());
    buffer.set_string(spans[1].end() as u32, 2, separator, Style::bold());
    // The column under the pointer drops the dim.
    match hover {
        Some((hover_column, hover_row)) => {
            if hover_row == 2 {
                match crate::layout::column_at(columns, hover_column as u32) {
                    Some(title_column) => {
                        let i = title_column.position();
                        let span = spans[i];
                        assert(spans@[i as int] == spans[i as int]);
                        let fitted = crate::layout::fit(labels[i].as_str(), span.width() as u16);
                        buffer.set_string(span.start(), 2, fitted.as_str(), Style::bold());
                    },
                    None => {},
                }
            }
        },
        None => {},
    }
}

/// One title of the table: its three titles, English, Vietnamese and
/// Chinese, each with the characters the query matched.
#[derive(Clone, Debug)]
pub struct TitleRow {
    pub titles: [String; 3],
    pub masks: [Vec<bool>; 3],
}

/// The highlighted line that shows `row` in a table `width` columns wide.
pub open spec fn title_line(row: TitleRow, width: int) -> Seq<(char, bool)> {
    columns_cells(
        (row.titles@[0]@, row.masks@[0]@),
        (row.titles@[1]@, row.masks@[1]@),
        (row.titles@[2]@, row.masks@[2]@),
        width,
    )
}

/// `grid` after drawing the first `n` visible titles of `rows`, from
/// position `offset` on, each on its own row below the header, reversed
/// under the cursor and bold under the pointer.
pub open spec fn table_rows_grid(
    grid: Seq<Cell>,
    w: int,
    h: int,
    rows: Seq<TitleRow>,
    offset: int,
    n: int,
    cursor: int,
    hover: Option<(u16, u16)>,
) -> Seq<Cell>
    decreases n,
{
    if n <= 0 {
        grid
    } else {
        let before = table_rows_grid(grid, w, h, rows, offset, n - 1, cursor, hover);
        let position = offset + n - 1;
        let screen_row = n - 1 + first_data_row();
        put_line(
            before,
            w,
            h,
            0,
            screen_row,
            title_line(rows[position], w),
            row_style_of(position == cursor, hover, screen_row),
        )
    }
}

/// The help line of the table.
pub open spec fn table_help() -> Seq<char> {
    "↑/↓ move · type to search · ⌫ delete · ^⌫ back · ⏎ select · Esc/^Q quit"@
}

/// The page title of the table.
pub open spec fn table_title() -> Seq<char> {
    "Select a Video"@
}

/// How many titles the table shows from position `offset` on: as many as
/// fit, and no more than there are.
pub open spec fn shown_count(len: int, offset: int, visible: int) -> int {
    if offset >= len {
        0
    } else if len - offset < visible {
        len - offset
    } else {
        visible
    }
}

/// The frame of the table in a `width` by `height` terminal: the top bar
/// without going back, the search bar with `query`, the header with
/// `labels`, the window of `rows` that keeps the cursor in view, and the
/// dimmed help line on the last row.
pub open spec fn table_grid(
    query: Seq<char>,
    labels: Seq<Seq<char>>,
    rows: Seq<TitleRow>,
    cursor: int,
    hover: Option<(u16, u16)>,
    width: int,
    height: int,
) -> Seq<Cell> {
    let g1 = top_bar_grid(empty_grid(width, height), width, height, width, table_title(), false, hover);
    let g2 = search_bar_grid(g1, width, height, width, query);
    let g3 = header_grid(g2, width, height, width, labels, hover);
    let visible = crate::layout::visible_count(height);
    let offset = crate::layout::scroll_from(cursor, visible);
    let g4 = table_rows_grid(g3, width, height, rows, offset, shown_count(rows.len() as int, offset, visible), cursor, hover);
    put_text(
        g4,
        width,
        height,
        0,
        if height >= 1 { height - 1 } else { 0 },
        line_chars(fit_cells(table_help(), Seq::empty(), width)),
        Style { dim: true, ..plain_style() },
    ).0
}

/// Draws the table in a `width` by `height` terminal: the top bar (the
/// table is the first page, so going back is not available), the search
/// bar showing `query`, the header with `labels`, as many of the filtered
/// `rows` as fit around the `cursor`, and the help line.
pub fn render_table(
    query: &str,
    labels: &[String; 3],
    rows: &Vec<TitleRow>,
    cursor: usize,
    hover: Option<(u16, u16)>,
    width: u16,
    height: u16,
) -> (result: Buffer)
    ensures
        result.wf(),
        result.cols() == width,
        result.rows() == height,
        result.grid() == table_grid(
            query@,
            seq![labels[0]@, labels[1]@, labels[2]@],
            rows@,
            cursor as int,
            hover,
            width as int,
            height as int,
        ),
{
    let mut buffer = Buffer::new(width, height);
    let title = "Select a Video";
    render_top_bar(&mut buffer, width, title, false, hover);
    render_search_bar(&mut buffer, width, query);
    render_header(&mut buffer, width, labels, hover);
    let ghost g3 = buffer.grid();
    let visible = crate::layout::visible_rows(height);
    let offset = crate::layout::scroll_offset(cursor, visible);
    let count: usize = if offset >= rows.len() {
        0
    } else if rows.len() - offset < visible as usize {
        rows.len() - offset
    } else {
        visible as usize
    };
    let len = rows.len();
    let mut n: usize = 0;
    while n < count
        invariant
            buffer.wf(),
            buffer.cols() == width,
            buffer.rows() == height,
            n <= count,
            count == shown_count(rows@.len() as int, offset as int, visible as int),
            count <= visible <= 65531,
            len == rows@.len(),
            offset + count <= len || count == 0,
            buffer.grid() == table_rows_grid(
                g3,
                width as int,
                height as int,
                rows@,
                offset as int,
                n as int,
                cursor as int,
                hover,
            ),
        decreases count - n,
    {
        let position = offset + n;
        let row = &rows[position];
        let t0 = row.titles[0].as_str();
        let t1 = row.titles[1].as_str();
        let t2 = row.titles[2].as_str();
        let m0 = row.masks[0].as_slice();
        let m1 = row.masks[1].as_slice();
        let m2 = row.masks[2].as_slice();
        proof {
            assert(t0@ == rows@[position as int].titles@[0]@);
            assert(t1@ == rows@[position as int].titles@[1]@);
            assert(t2@ == rows@[position as int].titles@[2]@);
            assert(m0@ == rows@[position as int].masks@[0]@);
            assert(m1@ == rows@[position as int].masks@[1]@);
            assert(m2@ == rows@[position as int].masks@[2]@);
        }
        let cells = [(t0, m0), (t1, m1), (t2, m2)];
        assert(cells@[0] == (t0, m0) && cells@[1] == (t1, m1) && cells@[2] == (t2, m2));
        let line = crate::layout::columns_line_highlighted(cells, width);
        let screen_row = (n + 3) as u16;
        let base = row_style(position == cursor, hover, screen_row);
        draw_highlighted_line(&mut buffer, screen_row, &line, base);
        n = n + 1;
    }
    let help = "↑/↓ move · type to search · ⌫ delete · ^⌫ back · ⏎ select · Esc/^Q quit";
    let last_row = if height >= 1 {
        height - 1
    } else {
        0
    };
    let shown = crate::layout::fit(help, width);
    buffer.set_string(0, last_row as u32, shown.as_str(), Style::dim());
    buffer
}


/// Whether `input` asks the table to quit: Escape, Control with `c`, `q`
/// or `Q`, or a left click on the Exit button of the top bar of a
/// `columns`-wide terminal.
pub open spec fn table_quit_input(input: Input, columns: u16) -> bool {
    match input {
        Input::Key { key, control, press } => press && (key == Key::Esc || (control && (key
            == Key::Char('c') || key == Key::Char('q') || key == Key::Char('Q')))),
        Input::Mouse { pointer, column, row } => pointer == Pointer::LeftDown && row == 0
            && button_under(columns as int, column as int) == Some(crate::layout::Button::Exit),
        _ => false,
    }
}

/// How the table ends. It goes back exactly on a press of Control with
/// Backspace (a plain Backspace only deletes from the query); it quits
/// exactly on Escape, Control with `c`, `q` or `Q`, or a click on Exit (a
/// click on Go back, or a `q` typed without Control, does not end it); it
/// selects only on Enter or a left click, and only an item of the
/// filtered list, so an index below `count` when every filtered item is.
pub proof fn lemma_table_endings(
    page: TablePage,
    input: Input,
    columns: u16,
    rows: u16,
    now: u128,
    cursor: int,
    filtered: Seq<usize>,
    count: int,
)
    ensures
        ({
            let reaction = table_react(page, input, columns, rows, now, cursor, filtered).1;
            &&& (reaction == TableReaction::Done(Navigation::Back)) <==> (input == Input::Key {
                key: Key::Backspace,
                control: true,
                press: true,
            })
            &&& (reaction == TableReaction::Done(Navigation::Quit)) <==> table_quit_input(
                input,
                columns,
            )
            &&& reaction matches TableReaction::Done(Navigation::Selected(i)) ==> {
                &&& filtered.contains(i)
                &&& (input matches Input::Key { key: Key::Enter, press: true, .. } || input matches Input::Mouse {
                    pointer: Pointer::LeftDown,
                    ..
                })
                &&& (forall|k: int| 0 <= k < filtered.len() ==> filtered[k] < count) ==> i < count
            }
        }),
{
    let reaction = table_react(page, input, columns, rows, now, cursor, filtered).1;
    if let TableReaction::Done(Navigation::Selected(i)) = reaction {
        if let Input::Mouse { pointer, column, row } = input {
            let moved = TablePage { hover: Some((column, row)), ..page };
            if row != 0 && row != header_row() {
                let visible = crate::layout::visible_count(rows as int);
                let offset = crate::layout::scroll_from(cursor, visible);
                let screen_index = row - first_data_row();
                assert(filtered[offset + screen_index] == i);
            } else {
                assert(filtered[cursor] == i);
            }
        } else {
            assert(filtered[cursor] == i);
        }
    }
}


/// A left click on a title row acts on the title shown there. When a
/// click below the header focuses item `i`, or selects it by completing a
/// double click, `i` is the item on the clicked row of the window of
/// titles: the window of `visible_count(rows)` rows starts at position
/// `scroll_from(cursor, ..)` of the filtered list (where the table draws
/// it), and the clicked row is that many rows below the first title row.
/// A click on a row of the window that shows no title does neither, and a
/// click on a row that shows one always does one of them: it records the
/// click, and selects exactly when the previous click was on the same
/// item at most half a second earlier.
pub proof fn lemma_table_click_on_title(
    page: TablePage,
    column: u16,
    row: u16,
    columns: u16,
    rows: u16,
    now: u128,
    cursor: int,
    filtered: Seq<usize>,
)
    ensures
        ({
            let input = Input::Mouse { pointer: Pointer::LeftDown, column, row };
            let (next, reaction) = table_react(page, input, columns, rows, now, cursor, filtered);
            let visible = crate::layout::visible_count(rows as int);
            let at = crate::layout::scroll_from(cursor, visible) + row - first_data_row();
            let shows_title = 0 <= row - first_data_row() < visible && 0 <= at < filtered.len();
            &&& row >= first_data_row() ==> (reaction matches TableReaction::Focus(i) ==> shows_title
                && i == filtered[at])
            &&& row >= first_data_row() ==> (reaction matches TableReaction::Done(
                Navigation::Selected(i),
            ) ==> shows_title && i == filtered[at])
            &&& row >= first_data_row() && !shows_title ==> reaction == TableReaction::Redraw
            &&& row >= first_data_row() && shows_title ==> (reaction == TableReaction::Focus(
                filtered[at],
            ) || reaction == TableReaction::Done(Navigation::Selected(filtered[at])))
            &&& row >= first_data_row() && shows_title ==> {
                &&& next.last_click == Some((now, filtered[at]))
                &&& (reaction is Done <==> (page.last_click matches Some((when, last)) && last
                    == filtered[at] && when <= now && now - when <= 500_000_000))
            }
        }),
{
}

} // verus!
