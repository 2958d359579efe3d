//! What a terminal shows after the draw commands of a frame diff.
//!
//! The terminal is modelled by its cells, its cursor and its current
//! attributes. Printing a character writes it with the current attributes
//! at the cursor, marks the next column as the second half of a
//! double-width glyph, and moves the cursor past the columns it covers.
//! Replaying the diff of two frames on a terminal that shows the first
//! one leaves it showing the second.

use crate::screen::{
    Cell, DrawCommand, Style, attribute_if, cell_commands, cell_span, diff_commands, frame_diff,
    lemma_cell_span_positive, plain_style, print_cols, row_diff, style_commands,
};
use vstd::prelude::*;

verus! {

/// A terminal: its cells in row-major order, the cursor's column and row,
/// and the attributes the next character is printed with.
pub type TerminalState = (Seq<Cell>, int, int, Style);

/// The cell at `col`, `row` of a grid `width` columns wide.
pub open spec fn cell_at(grid: Seq<Cell>, width: int, col: int, row: int) -> Cell {
    grid[row * width + col]
}

/// The terminal after one command, on a `width` by `height` screen.
pub open spec fn apply(t: TerminalState, width: int, height: int, command: DrawCommand) -> TerminalState {
    let (cells, col, row, attrs) = t;
    match command {
        DrawCommand::ClearAll => (Seq::new(cells.len(), |i: int| Cell::Empty), col, row, attrs),
        DrawCommand::MoveTo { column, row: to_row } => (cells, column as int, to_row as int, attrs),
        DrawCommand::ResetAttributes => (cells, col, row, plain_style()),
        DrawCommand::Bold => (cells, col, row, Style { bold: true, ..attrs }),
        DrawCommand::Dim => (cells, col, row, Style { dim: true, ..attrs }),
        DrawCommand::Italic => (cells, col, row, Style { italic: true, ..attrs }),
        DrawCommand::Underline => (cells, col, row, Style { underline: true, ..attrs }),
        DrawCommand::Reverse => (cells, col, row, Style { reverse: true, ..attrs }),
        DrawCommand::Print(ch) => {
            let written = if 0 <= col < width && 0 <= row < height {
                let glyph = cells.update(row * width + col, Cell::Glyph { ch, style: attrs });
                if print_cols(ch) == 2 && col + 1 < width {
                    glyph.update(row * width + col + 1, Cell::Trailing)
                } else {
                    glyph
                }
            } else {
                cells
            };
            (written, col + print_cols(ch), row, attrs)
        },
    }
}

/// The terminal after `commands`, in order.
pub open spec fn replay(t: TerminalState, width: int, height: int, commands: Seq<DrawCommand>) -> TerminalState
    decreases commands.len(),
{
    if commands.len() == 0 {
        t
    } else {
        replay(apply(t, width, height, commands[0]), width, height, commands.drop_first())
    }
}

/// Whether two cells look the same on screen: equal, or an empty cell and
/// a plain blank.
pub open spec fn looks_same(a: Cell, b: Cell) -> bool {
    let blank = Cell::Glyph { ch: ' ', style: plain_style() };
    a == b || (a == Cell::Empty && b == blank) || (a == blank && b == Cell::Empty)
}

/// Whether `cell` holds a glyph two columns wide.
pub open spec fn is_wide(cell: Cell) -> bool {
    match cell {
        Cell::Glyph { ch, .. } => print_cols(ch) == 2,
        _ => false,
    }
}

/// A frame as drawing leaves it when no glyph is overwritten by half: a
/// glyph is at most two columns wide, and a cell is the second half of a
/// glyph exactly when a double-width glyph stands just before it.
pub open spec fn frame_well_formed(grid: Seq<Cell>, width: int, height: int) -> bool {
    &&& grid.len() == width * height
    &&& forall|col: int, row: int|
        0 <= col < width && 0 <= row < height ==> ((#[trigger] cell_at(grid, width, col, row)
            is Trailing) <==> (col >= 1 && is_wide(cell_at(grid, width, col - 1, row))))
    &&& forall|col: int, row: int|
        0 <= col < width && 0 <= row < height ==> (#[trigger] cell_at(grid, width, col, row)
            matches Cell::Glyph { ch, .. } ==> print_cols(ch) <= 2)
}

proof fn lemma_replay_concat(t: TerminalState, width: int, height: int, a: Seq<DrawCommand>, b: Seq<DrawCommand>)
    ensures
        replay(t, width, height, a + b) == replay(replay(t, width, height, a), width, height, b),
    decreases a.len(),
{
    if a.len() == 0 {
        assert(a + b =~= b);
    } else {
        assert((a + b).drop_first() =~= a.drop_first() + b);
        assert((a + b)[0] == a[0]);
        lemma_replay_concat(apply(t, width, height, a[0]), width, height, a.drop_first(), b);
    }
}

proof fn lemma_replay_attribute(t: TerminalState, width: int, height: int, on: bool, command: DrawCommand)
    requires
        command == DrawCommand::Bold || command == DrawCommand::Dim || command == DrawCommand::Italic
            || command == DrawCommand::Underline || command == DrawCommand::Reverse,
    ensures
        replay(t, width, height, attribute_if(on, command)) == if on {
            apply(t, width, height, command)
        } else {
            t
        },
{
    let s = attribute_if(on, command);
    if on {
        assert(s.drop_first() =~= Seq::<DrawCommand>::empty());
        assert(s[0] == command);
        assert(replay(apply(t, width, height, command), width, height, Seq::empty()) == apply(
            t,
            width,
            height,
            command,
        ));
    } else {
        assert(s =~= Seq::<DrawCommand>::empty());
    }
}

/// Replaying the switch from `current` to `target` sets the attributes to
/// `target` and touches nothing else.
proof fn lemma_replay_style(t: TerminalState, width: int, height: int, target: Style)
    ensures
        replay(t, width, height, style_commands(t.3, target)) == (t.0, t.1, t.2, target),
{
    if t.3 != target {
        let r = seq![DrawCommand::ResetAttributes];
        let b = attribute_if(target.bold, DrawCommand::Bold);
        let d = attribute_if(target.dim, DrawCommand::Dim);
        let i = attribute_if(target.italic, DrawCommand::Italic);
        let u = attribute_if(target.underline, DrawCommand::Underline);
        let v = attribute_if(target.reverse, DrawCommand::Reverse);
        lemma_replay_concat(t, width, height, r + b + d + i + u, v);
        lemma_replay_concat(t, width, height, r + b + d + i, u);
        lemma_replay_concat(t, width, height, r + b + d, i);
        lemma_replay_concat(t, width, height, r + b, d);
        lemma_replay_concat(t, width, height, r, b);
        assert(r.drop_first() =~= Seq::<DrawCommand>::empty());
        assert(replay(apply(t, width, height, DrawCommand::ResetAttributes), width, height, Seq::empty())
            == apply(t, width, height, DrawCommand::ResetAttributes));
        let t0 = replay(t, width, height, r);
        assert(t0 == (t.0, t.1, t.2, plain_style()));
        lemma_replay_attribute(t0, width, height, target.bold, DrawCommand::Bold);
        let t1 = replay(t0, width, height, b);
        lemma_replay_attribute(t1, width, height, target.dim, DrawCommand::Dim);
        let t2 = replay(t1, width, height, d);
        lemma_replay_attribute(t2, width, height, target.italic, DrawCommand::Italic);
        let t3 = replay(t2, width, height, i);
        lemma_replay_attribute(t3, width, height, target.underline, DrawCommand::Underline);
        let t4 = replay(t3, width, height, u);
        lemma_replay_attribute(t4, width, height, target.reverse, DrawCommand::Reverse);
    } else {
        assert(style_commands(t.3, target) =~= Seq::<DrawCommand>::empty());
    }
}

/// Distinct cells of a grid sit at distinct positions.
proof fn lemma_position(width: int, c1: int, r1: int, c2: int, r2: int)
    requires
        0 <= c1 < width,
        0 <= c2 < width,
        0 <= r1,
        0 <= r2,
    ensures
        (r1 * width + c1 == r2 * width + c2) <==> (c1 == c2 && r1 == r2),
{
    if r1 < r2 {
        assert(r1 * width + c1 < r2 * width + c2) by (nonlinear_arith)
            requires
                r1 < r2,
                0 <= c1 < width,
                0 <= c2,
        ;
    } else if r2 < r1 {
        assert(r2 * width + c2 < r1 * width + c1) by (nonlinear_arith)
            requires
                r2 < r1,
                0 <= c2 < width,
                0 <= c1,
        ;
    }
}

/// A cell of the grid lies within its cells.
proof fn lemma_position_in_grid(width: int, height: int, col: int, row: int)
    requires
        0 <= col < width,
        0 <= row < height,
    ensures
        0 <= row * width + col < width * height,
{
    assert(0 <= row * width + col < width * height) by (nonlinear_arith)
        requires
            0 <= col < width,
            0 <= row < height,
    ;
}

/// The terminal has drawn the cells before column `col` of `row` (and
/// every row above) as `back` shows them, and still shows `front`
/// everywhere after.
pub open spec fn drawn_up_to(
    shown: Seq<Cell>,
    front: Seq<Cell>,
    back: Seq<Cell>,
    width: int,
    height: int,
    col: int,
    row: int,
) -> bool {
    &&& shown.len() == width * height
    &&& forall|c: int, r: int|
        0 <= c < width && 0 <= r < height ==> (if r < row || (r == row && c < col) {
            looks_same(#[trigger] cell_at(shown, width, c, r), cell_at(back, width, c, r))
        } else {
            cell_at(shown, width, c, r) == cell_at(front, width, c, r)
        })
}

/// The scan never stops on the second half of a glyph that differs.
pub open spec fn no_trailing_ahead(front: Seq<Cell>, back: Seq<Cell>, width: int, col: int, row: int) -> bool {
    0 <= col < width ==> (cell_at(back, width, col, row) is Trailing ==> cell_at(back, width, col, row)
        == cell_at(front, width, col, row))
}


/// Writing one position of a grid changes the cell there and no other.
proof fn lemma_cell_at_update(
    grid: Seq<Cell>,
    width: int,
    height: int,
    col: int,
    row: int,
    value: Cell,
    c: int,
    r: int,
)
    requires
        grid.len() == width * height,
        0 <= col < width,
        0 <= row < height,
        0 <= c < width,
        0 <= r < height,
    ensures
        cell_at(grid.update(row * width + col, value), width, c, r) == if c == col && r == row {
            value
        } else {
            cell_at(grid, width, c, r)
        },
{
    lemma_position(width, c, r, col, row);
    lemma_position_in_grid(width, height, c, r);
    lemma_position_in_grid(width, height, col, row);
}

/// An unchanged cell is already drawn.
proof fn lemma_skip_equal(
    shown: Seq<Cell>,
    front: Seq<Cell>,
    back: Seq<Cell>,
    width: int,
    height: int,
    col: int,
    row: int,
)
    requires
        drawn_up_to(shown, front, back, width, height, col, row),
        0 <= col < width,
        cell_at(back, width, col, row) == cell_at(front, width, col, row),
    ensures
        drawn_up_to(shown, front, back, width, height, col + 1, row),
{
    assert forall|c: int, r: int| 0 <= c < width && 0 <= r < height implies (if r < row || (r
        == row && c < col + 1) {
        looks_same(#[trigger] cell_at(shown, width, c, r), cell_at(back, width, c, r))
    } else {
        cell_at(shown, width, c, r) == cell_at(front, width, c, r)
    }) by {}
}

/// Past the right edge, the row is drawn.
proof fn lemma_row_end(
    shown: Seq<Cell>,
    front: Seq<Cell>,
    back: Seq<Cell>,
    width: int,
    height: int,
    col: int,
    row: int,
)
    requires
        drawn_up_to(shown, front, back, width, height, col, row),
        col >= width,
    ensures
        drawn_up_to(shown, front, back, width, height, 0, row + 1),
{
    assert forall|c: int, r: int| 0 <= c < width && 0 <= r < height implies (if r < row + 1 || (r
        == row + 1 && c < 0) {
        looks_same(#[trigger] cell_at(shown, width, c, r), cell_at(back, width, c, r))
    } else {
        cell_at(shown, width, c, r) == cell_at(front, width, c, r)
    }) by {}
}

/// Printing `ch` with `style` at `col`, `row`, where `back` holds that
/// glyph, draws it and, for a double-width glyph, its second half.
#[verifier::rlimit(40)]
proof fn lemma_print_glyph(
    shown: Seq<Cell>,
    front: Seq<Cell>,
    back: Seq<Cell>,
    width: int,
    height: int,
    col: int,
    row: int,
    ch: char,
    style: Style,
)
    requires
        0 <= col < width,
        0 <= row < height,
        frame_well_formed(back, width, height),
        drawn_up_to(shown, front, back, width, height, col, row),
        looks_same(Cell::Glyph { ch, style }, cell_at(back, width, col, row)),
        1 <= print_cols(ch) <= 2,
        print_cols(ch) == 2 ==> is_wide(cell_at(back, width, col, row)),
    ensures
        ({
            let glyph = shown.update(row * width + col, Cell::Glyph { ch, style });
            let written = if print_cols(ch) == 2 && col + 1 < width {
                glyph.update(row * width + col + 1, Cell::Trailing)
            } else {
                glyph
            };
            drawn_up_to(written, front, back, width, height, col + print_cols(ch), row)
        }),
{
    let glyph = shown.update(row * width + col, Cell::Glyph { ch, style });
    let written = if print_cols(ch) == 2 && col + 1 < width {
        glyph.update(row * width + col + 1, Cell::Trailing)
    } else {
        glyph
    };
    let span = print_cols(ch);
    lemma_position_in_grid(width, height, col, row);
    assert(glyph.len() == width * height);
    if span == 2 && col + 1 < width {
        assert(cell_at(back, width, col + 1, row) is Trailing);
        lemma_position_in_grid(width, height, col + 1, row);
        assert(row * width + col + 1 == row * width + (col + 1));
    }
    assert(written.len() == width * height);
    assert forall|c: int, r: int| 0 <= c < width && 0 <= r < height implies (if r < row || (r
        == row && c < col + span) {
        looks_same(#[trigger] cell_at(written, width, c, r), cell_at(back, width, c, r))
    } else {
        cell_at(written, width, c, r) == cell_at(front, width, c, r)
    }) by {
        lemma_cell_at_update(shown, width, height, col, row, Cell::Glyph { ch, style }, c, r);
        if span == 2 && col + 1 < width {
            assert(row * width + col + 1 == row * width + (col + 1));
            lemma_cell_at_update(glyph, width, height, col + 1, row, Cell::Trailing, c, r);
            if c == col + 1 && r == row {
                assert(cell_at(written, width, c, r) == Cell::Trailing);
            } else {
                assert(cell_at(written, width, c, r) == cell_at(glyph, width, c, r));
            }
        } else {
            assert(written == glyph);
        }
    }
}

proof fn lemma_draw_cell(
    t: TerminalState,
    front: Seq<Cell>,
    back: Seq<Cell>,
    width: int,
    height: int,
    col: int,
    row: int,
)
    requires
        0 <= col < width <= 65535,
        0 <= row < height <= 65535,
        frame_well_formed(front, width, height),
        frame_well_formed(back, width, height),
        drawn_up_to(t.0, front, back, width, height, col, row),
        t.1 == col,
        t.2 == row,
        print_cols(' ') == 1,
        !(cell_at(back, width, col, row) is Trailing),
    ensures
        ({
            let cell = cell_at(back, width, col, row);
            let (drawn, next) = cell_commands(cell, t.3);
            let after = replay(t, width, height, drawn);
            &&& drawn_up_to(after.0, front, back, width, height, col + cell_span(cell), row)
            &&& after.1 == col + cell_span(cell)
            &&& after.2 == row
            &&& after.3 == next
            &&& no_trailing_ahead(front, back, width, col + cell_span(cell), row)
            &&& 1 <= cell_span(cell) <= 2
        }),
{
    let cell = cell_at(back, width, col, row);
    let (drawn, next) = cell_commands(cell, t.3);
    let (ch, style) = match cell {
        Cell::Glyph { ch, style } => (ch, style),
        _ => (' ', plain_style()),
    };
    let styled = style_commands(t.3, style);
    let print = seq![DrawCommand::Print(ch)];
    lemma_replay_style(t, width, height, style);
    let t1 = replay(t, width, height, styled);
    lemma_replay_concat(t, width, height, styled, print);
    assert(drawn == styled + print);
    assert(print.drop_first() =~= Seq::<DrawCommand>::empty());
    assert(replay(apply(t1, width, height, print[0]), width, height, Seq::empty()) == apply(
        t1,
        width,
        height,
        print[0],
    ));
    let after = replay(t, width, height, drawn);
    assert(after == apply(t1, width, height, DrawCommand::Print(ch)));
    assert(cell_span(cell) == print_cols(ch));
    lemma_cell_span_positive(cell);
    lemma_position_in_grid(width, height, col, row);
    lemma_print_glyph(t1.0, front, back, width, height, col, row, ch, style);
    let span = cell_span(cell);
    if col + span < width {
        if cell_at(back, width, col + span, row) is Trailing {
            assert(is_wide(cell_at(back, width, col + span - 1, row)));
            if span == 2 {
                assert(cell_at(back, width, col + 1, row) is Trailing);
            }
        }
    }
}

proof fn lemma_row_replay(
    t: TerminalState,
    front: Seq<Cell>,
    back: Seq<Cell>,
    width: int,
    height: int,
    col: int,
    row: int,
    in_run: bool,
)
    requires
        0 <= width <= 65535,
        0 <= row < height <= 65535,
        0 <= col,
        frame_well_formed(front, width, height),
        frame_well_formed(back, width, height),
        drawn_up_to(t.0, front, back, width, height, col, row),
        in_run ==> t.1 == col && t.2 == row,
        no_trailing_ahead(front, back, width, col, row),
        print_cols(' ') == 1,
    ensures
        ({
            let (drawn, next) = row_diff(front, back, width, row, col, in_run, t.3);
            let after = replay(t, width, height, drawn);
            drawn_up_to(after.0, front, back, width, height, 0, row + 1) && after.3 == next
        }),
    decreases if col < width {
        width - col
    } else {
        0
    },
{
    if col >= width {
        lemma_row_end(t.0, front, back, width, height, col, row);
    } else {
        let i = row * width + col;
        lemma_position_in_grid(width, height, col, row);
        assert(cell_at(back, width, col, row) == back[i]);
        assert(cell_at(front, width, col, row) == front[i]);
        if back[i] == front[i] {
            lemma_skip_equal(t.0, front, back, width, height, col, row);
            if col + 1 < width && cell_at(back, width, col + 1, row) is Trailing {
                assert(is_wide(cell_at(back, width, col, row)));
                assert(cell_at(front, width, col + 1, row) is Trailing);
            }
            lemma_row_replay(t, front, back, width, height, col + 1, row, false);
        } else {
            lemma_row_changed(t, front, back, width, height, col, row, in_run);
        }
    }
}

proof fn lemma_row_changed(
    t: TerminalState,
    front: Seq<Cell>,
    back: Seq<Cell>,
    width: int,
    height: int,
    col: int,
    row: int,
    in_run: bool,
)
    requires
        0 <= width <= 65535,
        0 <= row < height <= 65535,
        0 <= col < width,
        frame_well_formed(front, width, height),
        frame_well_formed(back, width, height),
        drawn_up_to(t.0, front, back, width, height, col, row),
        in_run ==> t.1 == col && t.2 == row,
        no_trailing_ahead(front, back, width, col, row),
        print_cols(' ') == 1,
        back[row * width + col] != front[row * width + col],
    ensures
        ({
            let (drawn, next) = row_diff(front, back, width, row, col, in_run, t.3);
            let after = replay(t, width, height, drawn);
            drawn_up_to(after.0, front, back, width, height, 0, row + 1) && after.3 == next
        }),
    decreases width - col, 0int,
{
    let i = row * width + col;
    lemma_position_in_grid(width, height, col, row);
    assert(cell_at(back, width, col, row) == back[i]);
    assert(cell_at(front, width, col, row) == front[i]);
    let moves = if in_run {
        Seq::empty()
    } else {
        seq![DrawCommand::MoveTo { column: col as u16, row: row as u16 }]
    };
    if !in_run {
        assert(moves.drop_first() =~= Seq::<DrawCommand>::empty());
        assert((col as u16) as int == col);
        assert((row as u16) as int == row);
        assert(replay(apply(t, width, height, moves[0]), width, height, Seq::empty()) == apply(
            t,
            width,
            height,
            moves[0],
        ));
    } else {
        assert(moves =~= Seq::<DrawCommand>::empty());
    }
    let tm = replay(t, width, height, moves);
    assert(tm.0 == t.0 && tm.1 == col && tm.2 == row && tm.3 == t.3);
    lemma_draw_cell(tm, front, back, width, height, col, row);
    let cell = back[i];
    let (cells, next_style) = cell_commands(cell, t.3);
    let td = replay(tm, width, height, cells);
    lemma_row_replay(td, front, back, width, height, col + cell_span(cell), row, true);
    let (rest, last) = row_diff(front, back, width, row, col + cell_span(cell), true, next_style);
    lemma_replay_concat(t, width, height, moves, cells);
    lemma_replay_concat(t, width, height, moves + cells, rest);
    assert(row_diff(front, back, width, row, col, in_run, t.3).0 == moves + cells + rest);
}

proof fn lemma_frame_replay(t: TerminalState, front: Seq<Cell>, back: Seq<Cell>, width: int, height: int, row: int)
    requires
        0 <= width <= 65535,
        0 <= row <= height <= 65535,
        frame_well_formed(front, width, height),
        frame_well_formed(back, width, height),
        drawn_up_to(t.0, front, back, width, height, 0, row),
        print_cols(' ') == 1,
    ensures
        ({
            let (drawn, next) = frame_diff(front, back, width, height, row, t.3);
            let after = replay(t, width, height, drawn);
            drawn_up_to(after.0, front, back, width, height, 0, height) && after.3 == next
        }),
    decreases height - row,
{
    if row < height {
        let (this_row, next) = row_diff(front, back, width, row, 0, false, t.3);
        lemma_row_replay(t, front, back, width, height, 0, row, false);
        let t1 = replay(t, width, height, this_row);
        lemma_frame_replay(t1, front, back, width, height, row + 1);
        let (rest, last) = frame_diff(front, back, width, height, row + 1, next);
        lemma_replay_concat(t, width, height, this_row, rest);
    }
}

/// Presenting a frame shows it: replaying the diff from the frame on the
/// terminal to the next one, on a terminal that shows the first with
/// plain attributes, leaves every cell looking as the next frame draws it
/// and the attributes plain again, wherever the cursor started. Both
/// frames are well formed, and a blank is one column wide.
pub proof fn lemma_presenting_shows_the_frame(
    front: Seq<Cell>,
    back: Seq<Cell>,
    width: int,
    height: int,
    col: int,
    row: int,
)
    requires
        0 <= width <= 65535,
        0 <= height <= 65535,
        frame_well_formed(front, width, height),
        frame_well_formed(back, width, height),
        print_cols(' ') == 1,
    ensures
        ({
            let after = replay(
                (front, col, row, plain_style()),
                width,
                height,
                diff_commands(front, back, width, height),
            );
            &&& forall|c: int, r: int|
                0 <= c < width && 0 <= r < height ==> looks_same(
                    #[trigger] cell_at(after.0, width, c, r),
                    cell_at(back, width, c, r),
                )
            &&& after.3 == plain_style()
        }),
{
    let t: TerminalState = (front, col, row, plain_style());
    let (drawn, last) = frame_diff(front, back, width, height, 0, plain_style());
    assert(drawn_up_to(front, front, back, width, height, 0, 0));
    lemma_frame_replay(t, front, back, width, height, 0);
    let t1 = replay(t, width, height, drawn);
    lemma_replay_concat(t, width, height, drawn, style_commands(last, plain_style()));
    lemma_replay_style(t1, width, height, plain_style());
    let after = replay(t1, width, height, style_commands(last, plain_style()));
    assert forall|c: int, r: int| 0 <= c < width && 0 <= r < height implies looks_same(
        #[trigger] cell_at(after.0, width, c, r),
        cell_at(back, width, c, r),
    ) by {
        assert(cell_at(after.0, width, c, r) == cell_at(t1.0, width, c, r));
    }
}

} // verus!
