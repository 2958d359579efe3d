//! A double-buffered screen that diffs frames so only the cells that
//! change are written to the terminal.
//!
//! A frame is drawn into an in-memory [`Buffer`] of character cells, that
//! buffer is compared against the one currently on screen, and only the
//! differing cells become [`DrawCommand`]s for the terminal. The drawn
//! frame then becomes the one on screen.

use crate::layout::glyph_cols;
use crate::width::char_display_width;
use vstd::prelude::*;

verus! {

/// The text attributes a cell is drawn with.
#[derive(Clone, Copy, Debug, PartialEq, Eq, Structural)]
pub struct Style {
    pub bold: bool,
    pub dim: bool,
    pub italic: bool,
    pub underline: bool,
    pub reverse: bool,
}

/// The style with no attribute set.
pub open spec fn plain_style() -> Style {
    Style { bold: false, dim: false, italic: false, underline: false, reverse: false }
}

impl Style {
    /// No attribute.
    pub fn plain() -> (result: Style)
        ensures
            result == plain_style(),
    {
        Style { bold: false, dim: false, italic: false, underline: false, reverse: false }
    }

    /// Bold text alone.
    pub fn bold() -> (result: Style)
        ensures
            result == (Style { bold: true, ..plain_style() }),
    {
        Style { bold: true, dim: false, italic: false, underline: false, reverse: false }
    }

    /// Dimmed text alone.
    pub fn dim() -> (result: Style)
        ensures
            result == (Style { dim: true, ..plain_style() }),
    {
        Style { bold: false, dim: true, italic: false, underline: false, reverse: false }
    }

    /// Italic text alone.
    pub fn italic() -> (result: Style)
        ensures
            result == (Style { italic: true, ..plain_style() }),
    {
        Style { bold: false, dim: false, italic: true, underline: false, reverse: false }
    }

    /// Underlined text alone.
    pub fn underline() -> (result: Style)
        ensures
            result == (Style { underline: true, ..plain_style() }),
    {
        Style { bold: false, dim: false, italic: false, underline: true, reverse: false }
    }

    /// Reverse video alone.
    pub fn reverse() -> (result: Style)
        ensures
            result == (Style { reverse: true, ..plain_style() }),
    {
        Style { bold: false, dim: false, italic: false, underline: false, reverse: true }
    }

    /// The union of two attribute sets, for combining a base style with an
    /// extra attribute such as an underline on a matched character.
    pub fn with(self, other: Style) -> (result: Style)
        ensures
            result == (Style {
                bold: self.bold || other.bold,
                dim: self.dim || other.dim,
                italic: self.italic || other.italic,
                underline: self.underline || other.underline,
                reverse: self.reverse || other.reverse,
            }),
    {
        Style {
            bold: self.bold || other.bold,
            dim: self.dim || other.dim,
            italic: self.italic || other.italic,
            underline: self.underline || other.underline,
            reverse: self.reverse || other.reverse,
        }
    }
}

/// One character cell of the screen. The trailing column of a
/// double-width glyph is marked, so the diff does not overwrite the
/// glyph's right half with a blank; an empty cell is drawn as a plain
/// blank.
#[derive(Clone, Copy, Debug, PartialEq, Eq, Structural)]
pub enum Cell {
    Empty,
    Glyph { ch: char, style: Style },
    /// The second column of the double-width glyph to its left.
    Trailing,
}

/// `grid` after writing `ch` at `col`, `row` of a `width` by `height`
/// grid: nothing outside the grid; otherwise the glyph, and the trailing
/// mark in the next column when the glyph is double-width and that column
/// exists.
pub open spec fn put_glyph(
    grid: Seq<Cell>,
    width: int,
    height: int,
    col: int,
    row: int,
    ch: char,
    style: Style,
) -> Seq<Cell> {
    if 0 <= col < width && 0 <= row < height {
        let written = grid.update(row * width + col, Cell::Glyph { ch, style });
        if glyph_cols(ch) == 2 && col + 1 < width {
            written.update(row * width + col + 1, Cell::Trailing)
        } else {
            written
        }
    } else {
        grid
    }
}

/// How far the cursor moves past a written glyph: its width, and at least
/// one column.
pub open spec fn glyph_advance(ch: char) -> int {
    if glyph_cols(ch) >= 1 {
        glyph_cols(ch)
    } else {
        1
    }
}

/// `grid` after writing `text` from column `cursor` of `row`, and the
/// column after it: a zero-width character is skipped, and writing stops
/// at the right edge.
pub open spec fn put_text(
    grid: Seq<Cell>,
    width: int,
    height: int,
    cursor: int,
    row: int,
    text: Seq<char>,
    style: Style,
) -> (Seq<Cell>, int)
    decreases text.len(),
{
    if text.len() == 0 {
        (grid, cursor)
    } else if glyph_cols(text[0]) == 0 {
        put_text(grid, width, height, cursor, row, text.drop_first(), style)
    } else if cursor >= width {
        (grid, cursor)
    } else {
        put_text(
            put_glyph(grid, width, height, cursor, row, text[0], style),
            width,
            height,
            cursor + glyph_advance(text[0]),
            row,
            text.drop_first(),
            style,
        )
    }
}

/// The character a cell shows: its glyph, or a blank.
pub open spec fn cell_char(cell: Cell) -> char {
    match cell {
        Cell::Glyph { ch, .. } => ch,
        _ => ' ',
    }
}

/// A grid of character cells, in row-major order.
pub struct Buffer {
    width: u16,
    height: u16,
    cells: Vec<Cell>,
}

impl Buffer {
    /// The buffer holds one cell per column of each row.
    pub closed spec fn wf(self) -> bool {
        self.cells@.len() == self.width * self.height
    }

    /// The number of columns.
    pub closed spec fn cols(self) -> int {
        self.width as int
    }

    /// The number of rows.
    pub closed spec fn rows(self) -> int {
        self.height as int
    }

    /// The cells, row after row.
    pub closed spec fn grid(self) -> Seq<Cell> {
        self.cells@
    }

    /// The cell at `col`, `row`.
    pub open spec fn cell(self, col: int, row: int) -> Cell {
        self.grid()[row * self.cols() + col]
    }

    /// An empty buffer of `width` columns and `height` rows.
    pub fn new(width: u16, height: u16) -> (result: Buffer)
        ensures
            result.wf(),
            result.cols() == width,
            result.rows() == height,
            result.grid() == Seq::new((width * height) as nat, |i: int| Cell::Empty),
    {
        assert((width as int) * (height as int) <= 65535 * 65535) by (nonlinear_arith)
            requires
                width <= 65535,
                height <= 65535,
        ;
        let count = width as usize * height as usize;
        let mut cells: Vec<Cell> = Vec::new();
        let mut i: usize = 0;
        while i < count
            invariant
                i <= count,
                cells@ == Seq::new(i as nat, |j: int| Cell::Empty),
            decreases count - i,
        {
            cells.push(Cell::Empty);
            i = i + 1;
            assert(cells@ =~= Seq::new(i as nat, |j: int| Cell::Empty));
        }
        Buffer { width, height, cells }
    }

    /// The number of columns.
    pub fn width(&self) -> (result: u16)
        ensures
            result == self.cols(),
    {
        self.width
    }

    /// The number of rows.
    pub fn height(&self) -> (result: u16)
        ensures
            result == self.rows(),
    {
        self.height
    }

    /// The position in `cells` of `col`, `row`, if it is on the grid.
    fn index(&self, col: u32, row: u32) -> (result: Option<usize>)
        requires
            self.wf(),
        ensures
            match result {
                Some(i) => col < self.cols() && row < self.rows() && i == row * self.cols()
                    + col && i < self.grid().len(),
                None => !(col < self.cols() && row < self.rows()),
            },
    {
        if col < self.width as u32 && row < self.height as u32 {
            let w = self.width as usize;
            let h = self.height as usize;
            let c = col as usize;
            let r = row as usize;
            assert(r * w + c < w * h && r * w <= r * w + c) by (nonlinear_arith)
                requires
                    c < w,
                    r < h,
            ;
            let n = self.cells.len();
            assert(w * h == n);
            Some(r * w + c)
        } else {
            None
        }
    }

    /// Writes `ch` at `col`, `row` with `style`, marking the trailing
    /// column when the glyph is double-width. Returns the number of
    /// columns it spans, and at least one, so a caller laying out a line
    /// can advance past it.
    pub fn set_glyph(&mut self, col: u32, row: u32, ch: char, style: Style) -> (result: u32)
        requires
            old(self).wf(),
        ensures
            final(self).wf(),
            final(self).cols() == old(self).cols(),
            final(self).rows() == old(self).rows(),
            final(self).grid() == put_glyph(
                old(self).grid(),
                old(self).cols(),
                old(self).rows(),
                col as int,
                row as int,
                ch,
                style,
            ),
            result == glyph_advance(ch),
    {
        let width = crate::layout::glyph_width(ch);
        match self.index(col, row) {
            Some(index) => {
                self.cells.set(index, Cell::Glyph { ch, style });
                if width == 2 {
                    match self.index(col + 1, row) {
                        Some(trailing) => {
                            self.cells.set(trailing, Cell::Trailing);
                        },
                        None => {},
                    }
                }
            },
            None => {},
        }
        if width >= 1 {
            width as u32
        } else {
            1
        }
    }

    /// Writes `text` starting at `col`, `row` with a uniform `style`,
    /// advancing by each character's display width and stopping at the
    /// right edge. A zero-width character cannot stand in a cell of its
    /// own and is skipped. Returns the column after the last glyph.
    pub fn set_string(&mut self, col: u32, row: u32, text: &str, style: Style) -> (result: u32)
        requires
            old(self).wf(),
        ensures
            final(self).wf(),
            final(self).cols() == old(self).cols(),
            final(self).rows() == old(self).rows(),
            (final(self).grid(), result as int) == put_text(
                old(self).grid(),
                old(self).cols(),
                old(self).rows(),
                col as int,
                row as int,
                text@,
                style,
            ),
    {
        let characters = crate::text::chars_of(text);
        let ghost width = self.cols();
        let ghost height = self.rows();
        let ghost target = put_text(self.grid(), width, height, col as int, row as int, text@, style);
        let mut cursor = col;
        let mut i: usize = 0;
        assert(text@.skip(0) =~= text@);
        while i < characters.len()
            invariant_except_break
                put_text(self.grid(), width, height, cursor as int, row as int, text@.skip(i as int), style)
                    == target,
            invariant
                self.wf(),
                characters@ == text@,
                i <= characters@.len(),
                width == self.cols(),
                height == self.rows(),
                width <= 65535,
                cursor == col || cursor <= 65535 + 255,
            ensures
                (self.grid(), cursor as int) == target,
            decreases characters.len() - i,
        {
            proof {
                assert(text@.skip(i as int).drop_first() =~= text@.skip(i + 1));
                assert(text@.skip(i as int)[0] == characters@[i as int]);
            }
            let ch = characters[i];
            if crate::layout::glyph_width(ch) == 0 {
                i = i + 1;
                continue;
            }
            if cursor >= self.width as u32 {
                break;
            }
            let advance = self.set_glyph(cursor, row, ch, style);
            cursor = cursor + advance;
            i = i + 1;
        }
        proof {
            if i == characters.len() {
                assert(text@.skip(i as int) =~= Seq::<char>::empty());
            }
        }
        cursor
    }

    /// The text of `row`, with empty and trailing cells shown as blanks;
    /// empty when the row is off the grid.
    pub fn row_text(&self, row: u16) -> (result: String)
        requires
            self.wf(),
        ensures
            result@ == if row < self.rows() {
                Seq::new(self.cols() as nat, |c: int| cell_char(self.cell(c, row as int)))
            } else {
                Seq::empty()
            },
    {
        let mut text = String::new();
        if row >= self.height {
            return text;
        }
        let mut col: u16 = 0;
        while col < self.width
            invariant
                self.wf(),
                row < self.rows(),
                col <= self.cols(),
                text@ == Seq::new(col as nat, |c: int| cell_char(self.cell(c, row as int))),
            decreases self.cols() - col,
        {
            match self.index(col as u32, row as u32) {
                Some(index) => {
                    let ch = match self.cells[index] {
                        Cell::Glyph { ch, .. } => ch,
                        _ => ' ',
                    };
                    crate::text::push_char(&mut text, ch);
                },
                None => {},
            }
            col = col + 1;
            assert(text@ =~= Seq::new(col as nat, |c: int| cell_char(self.cell(c, row as int))));
        }
        text
    }

    /// The style of the glyph at `col`, `row`, or the plain style for an
    /// empty or trailing cell and off the grid.
    pub fn style_at(&self, col: u16, row: u16) -> (result: Style)
        requires
            self.wf(),
        ensures
            result == if col < self.cols() && row < self.rows() {
                match self.cell(col as int, row as int) {
                    Cell::Glyph { style, .. } => style,
                    _ => plain_style(),
                }
            } else {
                plain_style()
            },
    {
        match self.index(col as u32, row as u32) {
            Some(index) => match self.cells[index] {
                Cell::Glyph { style, .. } => style,
                _ => Style::plain(),
            },
            None => Style::plain(),
        }
    }
}

/// One instruction to the terminal, in the order the diff emits them.
#[derive(Clone, Copy, Debug, PartialEq, Eq, Structural)]
pub enum DrawCommand {
    /// Clear the whole screen.
    ClearAll,
    /// Move the cursor to `column`, `row`.
    MoveTo { column: u16, row: u16 },
    /// Reset every attribute.
    ResetAttributes,
    /// Turn on bold.
    Bold,
    /// Turn on dim.
    Dim,
    /// Turn on italic.
    Italic,
    /// Turn on underline.
    Underline,
    /// Turn on reverse video.
    Reverse,
    /// Print a character at the cursor.
    Print(char),
}

/// The command for one attribute, when `on`.
pub open spec fn attribute_if(on: bool, command: DrawCommand) -> Seq<DrawCommand> {
    if on {
        seq![command]
    } else {
        Seq::empty()
    }
}

/// The commands that switch the terminal from `current` to `target`:
/// nothing when they agree, otherwise a reset followed by each attribute
/// of `target`.
pub open spec fn style_commands(current: Style, target: Style) -> Seq<DrawCommand> {
    if current == target {
        Seq::empty()
    } else {
        seq![DrawCommand::ResetAttributes] + attribute_if(target.bold, DrawCommand::Bold)
            + attribute_if(target.dim, DrawCommand::Dim) + attribute_if(
            target.italic,
            DrawCommand::Italic,
        ) + attribute_if(target.underline, DrawCommand::Underline) + attribute_if(
            target.reverse,
            DrawCommand::Reverse,
        )
    }
}

/// How many columns printing `ch` covers: its width, with a control or
/// zero-width character counted as one.
pub open spec fn print_cols(ch: char) -> int {
    match char_display_width(ch) {
        Some(w) => if w >= 1 {
            w as int
        } else {
            1
        },
        None => 1,
    }
}

/// The commands that draw `cell` when the terminal's attributes are
/// `current`, and the attributes afterwards. An empty cell is a plain
/// blank; a trailing cell was already covered by its glyph.
pub open spec fn cell_commands(cell: Cell, current: Style) -> (Seq<DrawCommand>, Style) {
    match cell {
        Cell::Empty => (
            style_commands(current, plain_style()) + seq![DrawCommand::Print(' ')],
            plain_style(),
        ),
        Cell::Glyph { ch, style } => (
            style_commands(current, style) + seq![DrawCommand::Print(ch)],
            style,
        ),
        Cell::Trailing => (Seq::empty(), current),
    }
}

/// How far the diff moves past `cell` once it has drawn it.
pub open spec fn cell_span(cell: Cell) -> int {
    match cell {
        Cell::Glyph { ch, .. } => print_cols(ch),
        _ => 1,
    }
}

/// Drawing a cell always moves the diff on.
pub proof fn lemma_cell_span_positive(cell: Cell)
    ensures
        cell_span(cell) >= 1,
{
}

/// The commands that bring `row` of the screen from `front` to `back`,
/// scanning from `col` with attributes `current`; `in_run` tells whether
/// the cursor already stands at `col` after drawing the cell before it.
/// An unchanged cell costs nothing and ends a run; a run of changed cells
/// costs one cursor move to its start and then its characters.
pub open spec fn row_diff(
    front: Seq<Cell>,
    back: Seq<Cell>,
    width: int,
    row: int,
    col: int,
    in_run: bool,
    current: Style,
) -> (Seq<DrawCommand>, Style)
    decreases if col < width {
        width - col
    } else {
        0
    },
{
    if col >= width || col < 0 {
        (Seq::empty(), current)
    } else {
        let i = row * width + col;
        if back[i] == front[i] {
            row_diff(front, back, width, row, col + 1, false, current)
        } else {
            let moves = if in_run {
                Seq::empty()
            } else {
                seq![DrawCommand::MoveTo { column: col as u16, row: row as u16 }]
            };
            let (drawn, next) = cell_commands(back[i], current);
            proof {
                lemma_cell_span_positive(back[i]);
            }
            let (rest, last) = row_diff(
                front,
                back,
                width,
                row,
                col + cell_span(back[i]),
                true,
                next,
            );
            (moves + drawn + rest, last)
        }
    }
}

/// The commands that bring rows `row` onward from `front` to `back`, with
/// attributes `current`, and the attributes afterwards.
pub open spec fn frame_diff(
    front: Seq<Cell>,
    back: Seq<Cell>,
    width: int,
    height: int,
    row: int,
    current: Style,
) -> (Seq<DrawCommand>, Style)
    decreases height - row,
{
    if row >= height || row < 0 {
        (Seq::empty(), current)
    } else {
        let (this_row, next) = row_diff(front, back, width, row, 0, false, current);
        let (rest, last) = frame_diff(front, back, width, height, row + 1, next);
        (this_row + rest, last)
    }
}

/// Every command that brings a `width` by `height` screen from `front` to
/// `back`, starting and ending with plain attributes.
pub open spec fn diff_commands(front: Seq<Cell>, back: Seq<Cell>, width: int, height: int) -> Seq<
    DrawCommand,
> {
    let (drawn, last) = frame_diff(front, back, width, height, 0, plain_style());
    drawn + style_commands(last, plain_style())
}

/// Switches the terminal's attributes from `current` to `target`, by
/// resetting and re-applying, which keeps the logic the same for every
/// combination of attributes.
fn set_style(commands: &mut Vec<DrawCommand>, current: Style, target: Style)
    ensures
        final(commands)@ == old(commands)@ + style_commands(current, target),
{
    if current == target {
        assert(commands@ =~= commands@ + style_commands(current, target));
        return;
    }
    let ghost start = commands@;
    commands.push(DrawCommand::ResetAttributes);
    if target.bold {
        commands.push(DrawCommand::Bold);
    }
    if target.dim {
        commands.push(DrawCommand::Dim);
    }
    if target.italic {
        commands.push(DrawCommand::Italic);
    }
    if target.underline {
        commands.push(DrawCommand::Underline);
    }
    if target.reverse {
        commands.push(DrawCommand::Reverse);
    }
    assert(commands@ =~= start + style_commands(current, target));
}

/// The columns printing `ch` covers, with a control or zero-width
/// character counted as one.
fn print_width(ch: char) -> (result: u32)
    ensures
        result == print_cols(ch),
        1 <= result <= 255,
{
    match crate::width::char_width(ch) {
        Some(w) => if w >= 1 {
            w as u32
        } else {
            1
        },
        None => 1,
    }
}

/// One step of the scan of a row: an unchanged cell ends the run and
/// moves on; a changed one is drawn, after a cursor move when it starts a
/// run.
proof fn lemma_row_step(
    f: Seq<Cell>,
    b: Seq<Cell>,
    w: int,
    row: int,
    col: int,
    in_run: bool,
    current: Style,
)
    requires
        0 <= col < w,
    ensures
        ({
            let i = row * w + col;
            let now = row_diff(f, b, w, row, col, in_run, current);
            if b[i] == f[i] {
                now == row_diff(f, b, w, row, col + 1, false, current)
            } else {
                let moves = if in_run {
                    Seq::empty()
                } else {
                    seq![DrawCommand::MoveTo { column: col as u16, row: row as u16 }]
                };
                let (drawn, next) = cell_commands(b[i], current);
                let later = row_diff(f, b, w, row, col + cell_span(b[i]), true, next);
                now.0 == moves + drawn + later.0 && now.1 == later.1
            }
        }),
{
}

/// Appends the commands that draw `cell` when the terminal's attributes
/// are `current`; returns the attributes afterwards and how many columns
/// the cell covers.
fn draw_cell(cell: Cell, current: Style, commands: &mut Vec<DrawCommand>) -> (result: (Style, u32))
    ensures
        final(commands)@ == old(commands)@ + cell_commands(cell, current).0,
        result.0 == cell_commands(cell, current).1,
        result.1 == cell_span(cell),
        1 <= result.1 <= 255,
{
    let ghost start = commands@;
    match cell {
        Cell::Empty => {
            set_style(commands, current, Style::plain());
            commands.push(DrawCommand::Print(' '));
            assert(commands@ =~= start + cell_commands(cell, current).0);
            (Style::plain(), 1)
        },
        Cell::Glyph { ch, style } => {
            set_style(commands, current, style);
            commands.push(DrawCommand::Print(ch));
            assert(commands@ =~= start + cell_commands(cell, current).0);
            (style, print_width(ch))
        },
        Cell::Trailing => {
            assert(commands@ =~= start + cell_commands(cell, current).0);
            (current, 1)
        },
    }
}

/// The cells of `front` and `back` at `col`, `row`.
fn cells_at(front: &Buffer, back: &Buffer, col: u32, row: u16) -> (result: (Cell, Cell))
    requires
        front.wf(),
        back.wf(),
        front.cols() == back.cols(),
        front.rows() == back.rows(),
        col < back.cols(),
        row < back.rows(),
    ensures
        result.0 == front.grid()[row * back.cols() + col],
        result.1 == back.grid()[row * back.cols() + col],
{
    let front_cell = match front.index(col, row as u32) {
        Some(i) => front.cells[i],
        None => Cell::Empty,
    };
    let back_cell = match back.index(col, row as u32) {
        Some(i) => back.cells[i],
        None => Cell::Empty,
    };
    (front_cell, back_cell)
}

/// Brings `row` of the screen from `front` to `back`, appending the
/// commands, and returns the attributes the terminal is left with.
fn diff_row(
    front: &Buffer,
    back: &Buffer,
    row: u16,
    current: Style,
    commands: &mut Vec<DrawCommand>,
) -> (result: Style)
    requires
        front.wf(),
        back.wf(),
        front.cols() == back.cols(),
        front.rows() == back.rows(),
        row < back.rows(),
    ensures
        ({
            let (drawn, next) = row_diff(
                front.grid(),
                back.grid(),
                back.cols(),
                row as int,
                0,
                false,
                current,
            );
            final(commands)@ == old(commands)@ + drawn && result == next
        }),
{
    let ghost start = commands@;
    let ghost f = front.grid();
    let ghost b = back.grid();
    let ghost w = back.cols();
    let ghost total = row_diff(f, b, w, row as int, 0, false, current);
    let width = back.width() as u32;
    let mut current = current;
    let mut col: u32 = 0;
    let mut in_run = false;
    assert(commands@ + total.0 =~= start + total.0);
    while col < width
        invariant
            front.wf(),
            back.wf(),
            f == front.grid(),
            b == back.grid(),
            w == width == front.cols() == back.cols(),
            front.rows() == back.rows(),
            row < back.rows(),
            col <= width + 255,
            commands@ + row_diff(f, b, w, row as int, col as int, in_run, current).0 == start
                + total.0,
            row_diff(f, b, w, row as int, col as int, in_run, current).1 == total.1,
        decreases width + 255 - col,
    {
        let ghost before = commands@;
        let ghost was = (col as int, in_run, current);
        proof {
            lemma_row_step(f, b, w, row as int, col as int, in_run, current);
        }
        let (front_cell, back_cell) = cells_at(front, back, col, row);
        if back_cell == front_cell {
            col = col + 1;
            in_run = false;
        } else {
            if !in_run {
                commands.push(DrawCommand::MoveTo { column: col as u16, row });
            }
            let ghost moved = commands@;
            let (next, step) = draw_cell(back_cell, current, commands);
            current = next;
            col = col + step;
            in_run = true;
            proof {
                let moves = if was.1 {
                    Seq::empty()
                } else {
                    seq![DrawCommand::MoveTo { column: was.0 as u16, row: row as u16 }]
                };
                assert(moved =~= before + moves);
                let drawn = cell_commands(back_cell, was.2).0;
                let later = row_diff(f, b, w, row as int, col as int, true, current);
                assert(before + (moves + drawn + later.0) =~= commands@ + later.0);
            }
        }
    }
    current
}

/// Appends to `commands` those that bring the screen from `front` to
/// `back`, two buffers of the same size.
///
/// Each row is scanned for runs of changed cells. A run is drawn with one
/// cursor move to its start followed by its characters, so an unchanged
/// region costs nothing and a changed region costs one move rather than
/// one per cell.
fn diff(front: &Buffer, back: &Buffer, commands: &mut Vec<DrawCommand>)
    requires
        front.wf(),
        back.wf(),
        front.cols() == back.cols(),
        front.rows() == back.rows(),
    ensures
        final(commands)@ == old(commands)@ + diff_commands(
            front.grid(),
            back.grid(),
            back.cols(),
            back.rows(),
        ),
{
    let ghost start = commands@;
    let ghost f = front.grid();
    let ghost b = back.grid();
    let ghost w = back.cols();
    let ghost h = back.rows();
    let ghost total = frame_diff(f, b, w, h, 0, plain_style());
    let height = back.height();
    let mut current = Style::plain();
    let mut row: u16 = 0;
    assert(commands@ + total.0 =~= start + total.0);
    while row < height
        invariant
            front.wf(),
            back.wf(),
            f == front.grid(),
            b == back.grid(),
            w == front.cols() == back.cols(),
            h == height == front.rows() == back.rows(),
            row <= height,
            commands@ + frame_diff(f, b, w, h, row as int, current).0 == start + total.0,
            frame_diff(f, b, w, h, row as int, current).1 == total.1,
        decreases height - row,
    {
        let ghost before = commands@;
        let ghost was = current;
        current = diff_row(front, back, row, current, commands);
        proof {
            let (this_row, next) = row_diff(f, b, w, row as int, 0, false, was);
            let (rest, last) = frame_diff(f, b, w, h, row + 1, next);
            assert(before + (this_row + rest) =~= commands@ + rest);
        }
        row = row + 1;
    }
    let ghost drawn = commands@;
    set_style(commands, current, Style::plain());
    assert(commands@ =~= start + diff_commands(f, b, w, h));
}

/// The double-buffered screen: it remembers the frame on the terminal, so
/// presenting the next frame sends only what changed.
pub struct Screen {
    front: Buffer,
}

impl Screen {
    /// The frame currently on the terminal.
    pub closed spec fn shown(self) -> Buffer {
        self.front
    }

    /// A screen that has shown nothing yet.
    pub fn new() -> (result: Screen)
        ensures
            result.shown().wf(),
            result.shown().cols() == 0,
            result.shown().rows() == 0,
    {
        Screen { front: Buffer::new(0, 0) }
    }

    /// The commands that bring the terminal from the frame on it to
    /// `frame`, which then becomes the frame on it. On a size change the
    /// terminal is cleared and the whole frame compared against an empty
    /// one, so everything drawn is repainted at the new size.
    pub fn present(&mut self, frame: Buffer) -> (result: Vec<DrawCommand>)
        requires
            old(self).shown().wf(),
            frame.wf(),
        ensures
            final(self).shown() == frame,
            result@ == if frame.cols() == old(self).shown().cols() && frame.rows() == old(
                self,
            ).shown().rows() {
                diff_commands(old(self).shown().grid(), frame.grid(), frame.cols(), frame.rows())
            } else {
                seq![DrawCommand::ClearAll] + diff_commands(
                    Seq::new((frame.cols() * frame.rows()) as nat, |i: int| Cell::Empty),
                    frame.grid(),
                    frame.cols(),
                    frame.rows(),
                )
            },
    {
        let mut commands: Vec<DrawCommand> = Vec::new();
        if frame.width != self.front.width || frame.height != self.front.height {
            commands.push(DrawCommand::ClearAll);
            self.front = Buffer::new(frame.width, frame.height);
        }
        diff(&self.front, &frame, &mut commands);
        self.front = frame;
        commands
    }
}

proof fn lemma_unchanged_row(grid: Seq<Cell>, width: int, row: int, col: int, in_run: bool, current: Style)
    ensures
        row_diff(grid, grid, width, row, col, in_run, current) == (Seq::<DrawCommand>::empty(), current),
    decreases if col < width {
        width - col
    } else {
        0
    },
{
    if 0 <= col < width {
        lemma_unchanged_row(grid, width, row, col + 1, false, current);
    }
}

proof fn lemma_unchanged_rows(grid: Seq<Cell>, width: int, height: int, row: int, current: Style)
    ensures
        frame_diff(grid, grid, width, height, row, current) == (Seq::<DrawCommand>::empty(), current),
    decreases height - row,
{
    if 0 <= row < height {
        lemma_unchanged_row(grid, width, row, 0, false, current);
        lemma_unchanged_rows(grid, width, height, row + 1, current);
        assert(Seq::<DrawCommand>::empty() + Seq::<DrawCommand>::empty() =~= Seq::<DrawCommand>::empty());
    }
}

/// Presenting the frame that is already on the terminal sends nothing:
/// the diff of a grid against itself is empty.
pub proof fn lemma_unchanged_frame_draws_nothing(grid: Seq<Cell>, width: int, height: int)
    ensures
        diff_commands(grid, grid, width, height) == Seq::<DrawCommand>::empty(),
{
    lemma_unchanged_rows(grid, width, height, 0, plain_style());
    assert(Seq::<DrawCommand>::empty() + style_commands(plain_style(), plain_style()) =~= Seq::<DrawCommand>::empty());
}

/// Whether every cursor move in `commands` lands on a cell of a `width`
/// by `height` screen that differs between `front` and `back`.
pub open spec fn moves_to_changed_cells(
    commands: Seq<DrawCommand>,
    front: Seq<Cell>,
    back: Seq<Cell>,
    width: int,
    height: int,
) -> bool {
    forall|k: int|
        0 <= k < commands.len() ==> match #[trigger] commands[k] {
            DrawCommand::MoveTo { column, row } => column < width && row < height && back[row
                * width + column] != front[row * width + column],
            _ => true,
        }
}

/// Whether `commands` holds no cursor move at all.
pub open spec fn no_moves(commands: Seq<DrawCommand>) -> bool {
    forall|k: int| 0 <= k < commands.len() ==> !(#[trigger] commands[k] is MoveTo)
}

proof fn lemma_moves_concat(
    a: Seq<DrawCommand>,
    b: Seq<DrawCommand>,
    front: Seq<Cell>,
    back: Seq<Cell>,
    width: int,
    height: int,
)
    requires
        moves_to_changed_cells(a, front, back, width, height),
        moves_to_changed_cells(b, front, back, width, height),
    ensures
        moves_to_changed_cells(a + b, front, back, width, height),
{
    assert forall|k: int| 0 <= k < (a + b).len() implies match #[trigger] (a + b)[k] {
        DrawCommand::MoveTo { column, row } => column < width && row < height && back[row * width
            + column] != front[row * width + column],
        _ => true,
    } by {
        if k < a.len() {
            assert((a + b)[k] == a[k]);
        } else {
            assert((a + b)[k] == b[k - a.len()]);
        }
    }
}

proof fn lemma_no_moves_at_all(commands: Seq<DrawCommand>, front: Seq<Cell>, back: Seq<Cell>, width: int, height: int)
    requires
        no_moves(commands),
    ensures
        moves_to_changed_cells(commands, front, back, width, height),
{
    assert forall|k: int| 0 <= k < commands.len() implies match #[trigger] commands[k] {
        DrawCommand::MoveTo { column, row } => column < width && row < height && back[row * width
            + column] != front[row * width + column],
        _ => true,
    } by {
        assert(!(commands[k] is MoveTo));
    }
}

proof fn lemma_style_commands_no_moves(current: Style, target: Style)
    ensures
        no_moves(style_commands(current, target)),
{
    let s = style_commands(current, target);
    assert forall|k: int| 0 <= k < s.len() implies !(#[trigger] s[k] is MoveTo) by {
        let parts = seq![DrawCommand::ResetAttributes] + attribute_if(target.bold, DrawCommand::Bold)
            + attribute_if(target.dim, DrawCommand::Dim) + attribute_if(
            target.italic,
            DrawCommand::Italic,
        ) + attribute_if(target.underline, DrawCommand::Underline) + attribute_if(
            target.reverse,
            DrawCommand::Reverse,
        );
        if current != target {
            assert(s == parts);
            assert(parts.contains(s[k]));
            assert(s[k] == DrawCommand::ResetAttributes || s[k] == DrawCommand::Bold || s[k]
                == DrawCommand::Dim || s[k] == DrawCommand::Italic || s[k] == DrawCommand::Underline
                || s[k] == DrawCommand::Reverse);
        }
    }
}

proof fn lemma_cell_commands_no_moves(cell: Cell, current: Style)
    ensures
        no_moves(cell_commands(cell, current).0),
{
    let s = cell_commands(cell, current).0;
    match cell {
        Cell::Empty => {
            lemma_style_commands_no_moves(current, plain_style());
            let a = style_commands(current, plain_style());
            assert forall|k: int| 0 <= k < s.len() implies !(#[trigger] s[k] is MoveTo) by {
                if k < a.len() {
                    assert(s[k] == a[k]);
                }
            }
        },
        Cell::Glyph { ch, style } => {
            lemma_style_commands_no_moves(current, style);
            let a = style_commands(current, style);
            assert forall|k: int| 0 <= k < s.len() implies !(#[trigger] s[k] is MoveTo) by {
                if k < a.len() {
                    assert(s[k] == a[k]);
                }
            }
        },
        Cell::Trailing => {},
    }
}

proof fn lemma_row_moves(
    front: Seq<Cell>,
    back: Seq<Cell>,
    width: int,
    height: int,
    row: int,
    col: int,
    in_run: bool,
    current: Style,
)
    requires
        0 <= row < height <= 65536,
        width <= 65536,
        0 <= col,
    ensures
        moves_to_changed_cells(
            row_diff(front, back, width, row, col, in_run, current).0,
            front,
            back,
            width,
            height,
        ),
    decreases if col < width {
        width - col
    } else {
        0
    },
{
    if col < width {
        let i = row * width + col;
        if back[i] == front[i] {
            lemma_row_moves(front, back, width, height, row, col + 1, false, current);
        } else {
            let moves = if in_run {
                Seq::empty()
            } else {
                seq![DrawCommand::MoveTo { column: col as u16, row: row as u16 }]
            };
            let (drawn, next) = cell_commands(back[i], current);
            lemma_cell_span_positive(back[i]);
            lemma_row_moves(front, back, width, height, row, col + cell_span(back[i]), true, next);
            let (rest, last) = row_diff(front, back, width, row, col + cell_span(back[i]), true, next);
            if !in_run {
                assert(moves[0] == DrawCommand::MoveTo { column: col as u16, row: row as u16 });
                assert((col as u16) as int == col);
                assert((row as u16) as int == row);
            }
            assert(moves_to_changed_cells(moves, front, back, width, height));
            lemma_cell_commands_no_moves(back[i], current);
            lemma_no_moves_at_all(drawn, front, back, width, height);
            lemma_moves_concat(moves, drawn, front, back, width, height);
            lemma_moves_concat(moves + drawn, rest, front, back, width, height);
        }
    }
}

proof fn lemma_frame_moves(
    front: Seq<Cell>,
    back: Seq<Cell>,
    width: int,
    height: int,
    row: int,
    current: Style,
)
    requires
        0 <= row,
        height <= 65536,
        width <= 65536,
    ensures
        moves_to_changed_cells(
            frame_diff(front, back, width, height, row, current).0,
            front,
            back,
            width,
            height,
        ),
    decreases height - row,
{
    if row < height {
        let (this_row, next) = row_diff(front, back, width, row, 0, false, current);
        lemma_row_moves(front, back, width, height, row, 0, false, current);
        lemma_frame_moves(front, back, width, height, row + 1, next);
        let (rest, last) = frame_diff(front, back, width, height, row + 1, next);
        lemma_moves_concat(this_row, rest, front, back, width, height);
    }
}

/// Only the cells that change are visited: every cursor move the diff
/// sends lands on a cell whose content differs between the frame on the
/// terminal and the new one.
pub proof fn lemma_moves_land_on_changed_cells(
    front: Seq<Cell>,
    back: Seq<Cell>,
    width: int,
    height: int,
)
    requires
        0 <= width <= 65535,
        0 <= height <= 65535,
    ensures
        moves_to_changed_cells(diff_commands(front, back, width, height), front, back, width, height),
{
    let (drawn, last) = frame_diff(front, back, width, height, 0, plain_style());
    lemma_frame_moves(front, back, width, height, 0, plain_style());
    lemma_style_commands_no_moves(last, plain_style());
    lemma_no_moves_at_all(style_commands(last, plain_style()), front, back, width, height);
    lemma_moves_concat(drawn, style_commands(last, plain_style()), front, back, width, height);
}

} // verus!
