//! The layout primitives the selector pages draw with: fitting text to a
//! column budget, laying out the three-column title line, and the small
//! geometry helpers the pages share with the click handling.
//!
//! Widths are display columns as `unicode-width` measures them, narrowed
//! to `u16` the way the frame buffer addresses its cells. Runs of columns
//! are held in `u32`, so adding a run's start and width never wraps.

use crate::width::{char_display_width, char_width, str_display_width, str_width};
use vstd::prelude::*;

verus! {

/// `n` narrowed to the widest a `u16` can hold.
pub open spec fn saturate16(n: int) -> int {
    if n > 65535 {
        65535
    } else {
        n
    }
}

/// The display width of `text`, saturating at the widest a `u16` can
/// measure.
pub open spec fn text_cols(text: Seq<char>) -> int {
    saturate16(str_display_width(text) as int)
}

/// The display width of `c`, counting a character with no column of its
/// own (a control character) as no columns at all.
pub open spec fn glyph_cols(c: char) -> int {
    match char_display_width(c) {
        Some(w) => saturate16(w as int),
        None => 0,
    }
}

/// The total display width of the first `n` characters of `s`, measured
/// one character at a time.
pub open spec fn cols_sum(s: Seq<char>, n: int) -> int
    decreases n,
{
    if n <= 0 {
        0
    } else {
        cols_sum(s, n - 1) + glyph_cols(s[n - 1])
    }
}

/// Scanning `s` from index `i`, the index of the first character that
/// would overrun `room` columns, or the length of `s` when all fit.
pub open spec fn kept_from(s: Seq<char>, room: int, i: int) -> int
    decreases s.len() - i,
{
    if i >= s.len() || cols_sum(s, i + 1) > room {
        i
    } else {
        kept_from(s, room, i + 1)
    }
}

/// The highlight flag of character `i`: the mask's entry, or `false` past
/// the mask's end.
pub open spec fn mark_at(mask: Seq<bool>, i: int) -> bool {
    if 0 <= i < mask.len() {
        mask[i]
    } else {
        false
    }
}

/// The first `n` characters of `s`, each paired with its highlight flag.
pub open spec fn marked(s: Seq<char>, mask: Seq<bool>, n: int) -> Seq<(char, bool)> {
    Seq::new(n as nat, |i: int| (s[i], mark_at(mask, i)))
}

/// `n` unhighlighted blanks.
pub open spec fn blanks(n: int) -> Seq<(char, bool)> {
    Seq::new(n as nat, |i: int| (' ', false))
}

/// `text` padded or truncated to exactly `width` display columns: padded
/// with blanks when it fits; otherwise cut before the first character that
/// would leave no room for a one-column ellipsis, then the ellipsis, then
/// blanks for the column a wide glyph could not fill. The ellipsis and the
/// padding are never highlighted.
pub open spec fn fit_cells(text: Seq<char>, mask: Seq<bool>, width: int) -> Seq<(char, bool)> {
    let full = text_cols(text);
    if full <= width {
        marked(text, mask, text.len() as int) + blanks(width - full)
    } else if width == 0 {
        Seq::empty()
    } else {
        let room = width - 1;
        let kept = kept_from(text, room, 0);
        marked(text, mask, kept) + seq![('…', false)] + blanks(room - cols_sum(text, kept))
    }
}

/// The characters of a line of highlighted cells.
pub open spec fn line_chars(cells: Seq<(char, bool)>) -> Seq<char> {
    cells.map_values(|cell: (char, bool)| cell.0)
}

/// The characters of `cells`, each paired with `false`.
pub open spec fn unmarked(s: Seq<char>) -> Seq<(char, bool)> {
    s.map_values(|c: char| (c, false))
}

/// The display width of `text`, through `unicode-width`, narrowed to
/// `u16`.
pub fn text_width(text: &str) -> (result: u16)
    ensures
        result == text_cols(text@),
{
    let columns = str_width(text);
    if columns > 65535 {
        65535
    } else {
        columns as u16
    }
}

/// The display width of `c`, through `unicode-width`, with a control
/// character counted as no columns.
pub fn glyph_width(c: char) -> (result: u16)
    ensures
        result == glyph_cols(c),
        result <= 255,
{
    match char_width(c) {
        Some(w) => if w > 65535 {
            65535
        } else {
            w as u16
        },
        None => 0,
    }
}

proof fn lemma_cols_sum_step(s: Seq<char>, n: int)
    requires
        0 <= n,
    ensures
        cols_sum(s, n + 1) == cols_sum(s, n) + glyph_cols(s[n]),
        0 <= glyph_cols(s[n]) <= 65535,
{
}

proof fn lemma_cols_sum_nonneg(s: Seq<char>, n: int)
    ensures
        cols_sum(s, n) >= 0,
    decreases n,
{
    if n > 0 {
        lemma_cols_sum_nonneg(s, n - 1);
    }
}

/// Appends `count` unhighlighted blanks to `cells`.
fn push_blanks(cells: &mut Vec<(char, bool)>, count: u32)
    ensures
        final(cells)@ == old(cells)@ + blanks(count as int),
{
    let ghost start = cells@;
    let mut i: u32 = 0;
    while i < count
        invariant
            i <= count,
            cells@ == start + blanks(i as int),
        decreases count - i,
    {
        cells.push((' ', false));
        i = i + 1;
        assert(cells@ =~= start + blanks(i as int));
    }
}

/// Pads or truncates `text` to exactly `width` display columns, pairing
/// each resulting character with whether it is highlighted. The `mask` is
/// aligned with the characters of `text`; a missing entry counts as not
/// highlighted, and the ellipsis and padding are never highlighted. A wide
/// glyph such as a CJK ideograph counts as two columns.
pub fn fit_chars(text: &str, mask: &[bool], width: u16) -> (result: Vec<(char, bool)>)
    ensures
        result@ == fit_cells(text@, mask@, width as int),
        text_cols(text@) == cols_sum(text@, text@.len() as int) ==> line_cols(result@) == width,
{
    // A blank and the ellipsis are one column each, which is what makes
    // the fitted line exactly `width` columns wide.
    let _blank_cols = char_width(' ');
    let _ellipsis_cols = char_width('\u{2026}');
    proof {
        assert(glyph_cols(' ') == 1);
        assert(glyph_cols('\u{2026}') == 1);
        if text_cols(text@) == cols_sum(text@, text@.len() as int) {
            lemma_fit_fills_the_width(text@, mask@, width as int);
        }
    }
    let characters = crate::text::chars_of(text);
    let full_width = text_width(text);
    let mut result: Vec<(char, bool)> = Vec::new();
    let n = characters.len();
    if full_width <= width {
        let mut i: usize = 0;
        while i < n
            invariant
                n == characters@.len() == text@.len(),
                characters@ == text@,
                i <= n,
                result@ == marked(text@, mask@, i as int),
            decreases n - i,
        {
            let flag = if i < mask.len() {
                mask[i]
            } else {
                false
            };
            result.push((characters[i], flag));
            i = i + 1;
            assert(result@ =~= marked(text@, mask@, i as int));
        }
        push_blanks(&mut result, (width - full_width) as u32);
        return result;
    }
    if width == 0 {
        assert(result@ =~= fit_cells(text@, mask@, width as int));
        return result;
    }
    // Keep whole characters until the next one would not leave room for
    // the one-column ellipsis, then pad the column a wide glyph could not
    // fill.
    let room: u32 = (width - 1) as u32;
    let mut used: u32 = 0;
    let mut i: usize = 0;
    while i < n
        invariant_except_break
            kept_from(text@, room as int, 0) == kept_from(text@, room as int, i as int),
        invariant
            n == characters@.len() == text@.len(),
            characters@ == text@,
            i <= n,
            room < 65535,
            used <= room,
            used == cols_sum(text@, i as int),
            result@ == marked(text@, mask@, i as int),
        ensures
            kept_from(text@, room as int, 0) == i,
            used == cols_sum(text@, i as int),
            result@ == marked(text@, mask@, i as int),
        decreases n - i,
    {
        let character_width = glyph_width(characters[i]);
        proof {
            lemma_cols_sum_step(text@, i as int);
        }
        if used + character_width as u32 > room {
            break;
        }
        let flag = if i < mask.len() {
            mask[i]
        } else {
            false
        };
        result.push((characters[i], flag));
        used = used + character_width as u32;
        i = i + 1;
        assert(result@ =~= marked(text@, mask@, i as int));
    }
    result.push(('…', false));
    push_blanks(&mut result, room - used);
    assert(result@ =~= fit_cells(text@, mask@, width as int));
    result
}

/// The characters of a line of highlighted cells, as a string.
pub fn cells_text(cells: &Vec<(char, bool)>) -> (result: String)
    ensures
        result@ == line_chars(cells@),
{
    let mut result = String::new();
    let mut i: usize = 0;
    while i < cells.len()
        invariant
            i <= cells@.len(),
            result@ == line_chars(cells@.take(i as int)),
        decreases cells.len() - i,
    {
        crate::text::push_char(&mut result, cells[i].0);
        i = i + 1;
        assert(line_chars(cells@.take(i as int)) =~= line_chars(cells@.take((i - 1) as int)).push(
            cells@[i - 1].0,
        ));
    }
    assert(cells@.take(cells@.len() as int) =~= cells@);
    result
}

/// Pads or truncates `text` to exactly `width` display columns, appending
/// an ellipsis when it has to cut the text short.
pub fn fit(text: &str, width: u16) -> (result: String)
    ensures
        result@ == line_chars(fit_cells(text@, Seq::empty(), width as int)),
{
    let no_marks: [bool; 0] = [];
    let cells = fit_chars(text, &no_marks, width);
    proof {
        assert(no_marks@ =~= Seq::<bool>::empty());
    }
    cells_text(&cells)
}

/// The separator drawn between the three title cells, `" │ "`.
pub open spec fn separator_text() -> Seq<char> {
    seq![' ', '│', ' ']
}

/// The separator drawn between the three title cells.
pub fn column_separator() -> (result: &'static str)
    ensures
        result@ == separator_text(),
{
    proof {
        reveal_strlit(" │ ");
    }
    " │ "
}

/// The width of each of the three title cells in a line `total` columns
/// wide, once the two separators have taken their share; never below one.
pub open spec fn cell_cols(total: int) -> int {
    let available = total - 2 * text_cols(separator_text());
    let share = if available > 0 {
        available / 3
    } else {
        0
    };
    if share < 1 {
        1
    } else {
        share
    }
}

/// The cells and their starts stay well inside what a `u32` holds.
pub proof fn lemma_cell_bounds(total: int)
    requires
        0 <= total <= 65535,
    ensures
        1 <= cell_cols(total) <= 65535,
        0 <= text_cols(separator_text()) <= 65535,
        cell_start(total, 0) == 0,
        cell_start(total, 1) == cell_cols(total) + text_cols(separator_text()),
        cell_start(total, 2) == 2 * (cell_cols(total) + text_cols(separator_text())),
{
}

/// The width of each of the three title cells in a line `total` columns
/// wide. A cell always keeps at least one column, so a very narrow
/// terminal still shows the layout.
pub fn cell_width(total: u16) -> (result: u16)
    ensures
        result == cell_cols(total as int),
        1 <= result,
{
    let separator = text_width(column_separator()) as u32;
    let total = total as u32;
    let available: u32 = if total > 2 * separator {
        total - 2 * separator
    } else {
        0
    };
    let share = available / 3;
    if share < 1 {
        1
    } else {
        share as u16
    }
}

/// The three cells laid out into one line: each fitted to the cell width,
/// with an unhighlighted separator between two of them.
pub open spec fn columns_cells(
    first: (Seq<char>, Seq<bool>),
    second: (Seq<char>, Seq<bool>),
    third: (Seq<char>, Seq<bool>),
    total: int,
) -> Seq<(char, bool)> {
    let each = cell_cols(total);
    let separator = unmarked(separator_text());
    fit_cells(first.0, first.1, each) + separator + fit_cells(second.0, second.1, each)
        + separator + fit_cells(third.0, third.1, each)
}

/// Appends the unhighlighted separator to `line`.
fn push_separator(line: &mut Vec<(char, bool)>)
    ensures
        final(line)@ == old(line)@ + unmarked(separator_text()),
{
    let ghost start = line@;
    line.push((' ', false));
    line.push(('│', false));
    line.push((' ', false));
    assert(line@ =~= start + unmarked(separator_text()));
}

/// Appends `cells` to `line`.
fn append_cells(line: &mut Vec<(char, bool)>, cells: Vec<(char, bool)>)
    ensures
        final(line)@ == old(line)@ + cells@,
{
    let mut cells = cells;
    line.append(&mut cells);
}

/// Lays out three highlighted cells into one line of `total` columns,
/// pairing each character with whether it is highlighted. Separators and
/// padding are never highlighted.
pub fn columns_line_highlighted(cells: [(&str, &[bool]); 3], total: u16) -> (result: Vec<
    (char, bool),
>)
    ensures
        result@ == columns_cells(
            (cells[0].0@, cells[0].1@),
            (cells[1].0@, cells[1].1@),
            (cells[2].0@, cells[2].1@),
            total as int,
        ),
{
    let each = cell_width(total);
    let mut line: Vec<(char, bool)> = Vec::new();
    let (first, first_mask) = cells[0];
    let (second, second_mask) = cells[1];
    let (third, third_mask) = cells[2];
    append_cells(&mut line, fit_chars(first, first_mask, each));
    push_separator(&mut line);
    append_cells(&mut line, fit_chars(second, second_mask, each));
    push_separator(&mut line);
    append_cells(&mut line, fit_chars(third, third_mask, each));
    line
}

/// Lays out three cells into a single line that fits `total` columns.
pub fn columns_line(english: &str, vietnamese: &str, chinese: &str, total: u16) -> (result: String)
    ensures
        result@ == line_chars(
            columns_cells(
                (english@, Seq::empty()),
                (vietnamese@, Seq::empty()),
                (chinese@, Seq::empty()),
                total as int,
            ),
        ),
{
    let no_marks: [bool; 0] = [];
    proof {
        assert(no_marks@ =~= Seq::<bool>::empty());
    }
    let cells = columns_line_highlighted(
        [(english, &no_marks), (vietnamese, &no_marks), (chinese, &no_marks)],
        total,
    );
    cells_text(&cells)
}

/// A run of screen columns: where it begins and how wide it is. The
/// layout helpers report their runs this way so the renderer and the
/// click handling agree on both ends without either measuring again.
#[derive(Clone, Copy, Debug, PartialEq, Eq, Structural)]
pub struct ColumnSpan {
    start: u32,
    width: u32,
}

impl ColumnSpan {
    /// The run's leftmost column.
    pub closed spec fn start_at(self) -> int {
        self.start as int
    }

    /// How many columns the run spans.
    pub closed spec fn cols(self) -> int {
        self.width as int
    }

    /// Whether `column` falls inside the run.
    pub open spec fn covers(self, column: int) -> bool {
        self.start_at() <= column < self.start_at() + self.cols()
    }

    /// The run of `width` columns beginning at `start`.
    pub fn new(start: u32, width: u32) -> (result: ColumnSpan)
        requires
            start + width <= u32::MAX,
        ensures
            result.start_at() == start,
            result.cols() == width,
    {
        ColumnSpan { start, width }
    }

    /// The run from `start` up to but not including `end`, which is empty
    /// when `end` is not past `start`.
    pub fn between(start: u32, end: u32) -> (result: ColumnSpan)
        ensures
            result.start_at() == start,
            result.cols() == if end > start {
                end - start
            } else {
                0
            },
    {
        ColumnSpan { start, width: if end > start { end - start } else { 0 } }
    }

    /// The run's leftmost column.
    pub fn start(self) -> (result: u32)
        ensures
            result == self.start_at(),
    {
        self.start
    }

    /// The column just past the run's rightmost one.
    pub fn end(self) -> (result: u64)
        ensures
            result == self.start_at() + self.cols(),
    {
        self.start as u64 + self.width as u64
    }

    /// How many columns the run spans.
    pub fn width(self) -> (result: u32)
        ensures
            result == self.cols(),
    {
        self.width
    }

    /// Whether `column` falls inside the run.
    pub fn contains(self, column: u32) -> (result: bool)
        ensures
            result == self.covers(column as int),
    {
        self.start <= column && (column as u64) < self.start as u64 + self.width as u64
    }
}

/// The screen column where title cell `index` (0, 1 or 2) begins in a
/// line `total` columns wide.
pub open spec fn cell_start(total: int, index: int) -> int {
    index * (cell_cols(total) + text_cols(separator_text()))
}

/// The screen columns each of the three title cells spans, matching the
/// layout of [`columns_line`]. The header renderer and the header click
/// handling share this so they agree on where each column sits.
pub fn column_spans(total: u16) -> (result: [ColumnSpan; 3])
    ensures
        forall|i: int|
            0 <= i < 3 ==> #[trigger] result@[i].start_at() == cell_start(total as int, i)
                && result@[i].cols() == cell_cols(total as int),
{
    let each = cell_width(total) as u32;
    let step = each + text_width(column_separator()) as u32;
    let result = [
        ColumnSpan::new(0, each),
        ColumnSpan::new(step, each),
        ColumnSpan::new(step + step, each),
    ];
    proof {
        assert(result@[0] == result[0] && result@[1] == result[1] && result@[2] == result[2]);
        assert(cell_start(total as int, 0) == 0);
        assert(cell_start(total as int, 1) == step);
        assert(cell_start(total as int, 2) == step + step);
    }
    result
}

/// Which of the three title columns is meant, counting from the left:
/// English, then Vietnamese, then Chinese. Only [`column_at`] produces
/// one, from a screen column inside a cell.
#[derive(Clone, Copy, Debug, PartialEq, Eq, Structural)]
pub struct TitleColumn(usize);

impl TitleColumn {
    /// The column's place among the three.
    pub closed spec fn place(self) -> int {
        self.0 as int
    }

    /// The column's place among the three, for indexing a per-column array
    /// such as the header labels or their spans.
    pub fn position(self) -> (result: usize)
        ensures
            result == self.place(),
    {
        self.0
    }
}

/// The title column at place `i` among the three.
pub closed spec fn title_column(i: int) -> TitleColumn {
    TitleColumn(i as usize)
}

/// The title cell under screen `column` in a line `total` columns wide,
/// if any.
pub open spec fn title_column_at(total: int, column: int) -> Option<int> {
    let each = cell_cols(total);
    if cell_start(total, 0) <= column < cell_start(total, 0) + each {
        Some(0)
    } else if cell_start(total, 1) <= column < cell_start(total, 1) + each {
        Some(1)
    } else if cell_start(total, 2) <= column < cell_start(total, 2) + each {
        Some(2)
    } else {
        None
    }
}

/// The title column at screen `column`, for a header `total` columns
/// wide, or `None` for a click on a separator or past the columns.
pub fn column_at(total: u16, column: u32) -> (result: Option<TitleColumn>)
    ensures
        match title_column_at(total as int, column as int) {
            Some(i) => result == Some(title_column(i)) && title_column(i).place() == i,
            None => result is None,
        },
{
    let spans = column_spans(total);
    assert(spans@[0] == spans[0] && spans@[1] == spans[1] && spans@[2] == spans[2]);
    if spans[0].contains(column) {
        Some(TitleColumn(0))
    } else if spans[1].contains(column) {
        Some(TitleColumn(1))
    } else if spans[2].contains(column) {
        Some(TitleColumn(2))
    } else {
        None
    }
}

/// How close together two clicks on the same item must be to count as a
/// double click, in nanoseconds.
pub open spec fn double_click_window() -> int {
    500_000_000
}

/// Whether a click on item `index` at `now` completes a double click that
/// began with `previous`: the same item, clicked again within the window.
/// A clock that stepped backward reads as no double click.
pub open spec fn double_click(previous: Option<(u128, usize)>, now: int, index: int) -> bool {
    match previous {
        Some((when, last)) => last == index && when <= now && now - when <= double_click_window(),
        None => false,
    }
}

/// Whether a left click on the item at `index` at time `now` completes a
/// double click that began at `previous` (the time and item of the last
/// click). Times are nanoseconds since the Unix epoch. Keying on the item
/// rather than the screen row means a sort or scroll that moves an item
/// between two clicks does not read as a double click.
pub fn is_double_click(previous: Option<(u128, usize)>, now: u128, index: usize) -> (result: bool)
    ensures
        result == double_click(previous, now as int, index as int),
{
    match previous {
        Some((when, last_index)) => last_index == index && when <= now && now - when
            <= 500_000_000,
        None => false,
    }
}

/// The topmost row to draw so that row `cursor` stays visible within a
/// window `visible` rows tall.
pub open spec fn scroll_from(cursor: int, visible: int) -> int {
    let shown = if visible >= 1 {
        visible - 1
    } else {
        0
    };
    if cursor >= shown {
        cursor - shown
    } else {
        0
    }
}

/// The topmost row to draw so that `cursor` stays visible within a window
/// `visible` rows tall.
pub fn scroll_offset(cursor: usize, visible: u16) -> (result: usize)
    ensures
        result == scroll_from(cursor as int, visible as int),
{
    let shown = if visible >= 1 {
        (visible - 1) as usize
    } else {
        0
    };
    if cursor >= shown {
        cursor - shown
    } else {
        0
    }
}

/// The number of title rows that fit in a terminal `rows` rows tall, after
/// the top bar, the search prompt, the column header and the help line;
/// never below one.
pub open spec fn visible_count(rows: int) -> int {
    if rows >= 5 {
        rows - 4
    } else {
        1
    }
}

/// The number of title rows that fit in a terminal `rows` rows tall,
/// after reserving the chrome. At least one row is always reported, so
/// the table never collapses to nothing.
pub fn visible_rows(rows: u16) -> (result: u16)
    ensures
        result == visible_count(rows as int),
{
    if rows >= 5 {
        rows - 4
    } else {
        1
    }
}

/// A clickable button shown in the top bar, paired with the action a
/// click on it performs.
#[derive(Clone, Copy, Debug, PartialEq, Eq, Structural)]
pub enum Button {
    /// Quit the program.
    Exit,
    /// Return to the previous page.
    Back,
    /// Confirm the current item, the same as pressing Enter.
    Forward,
}

/// The text shown inside a button's brackets, led by a symbol.
pub open spec fn button_label(button: Button) -> Seq<char> {
    match button {
        Button::Exit => seq!['✕', ' ', 'E', 'x', 'i', 't'],
        Button::Back => seq!['←', ' ', 'G', 'o', ' ', 'b', 'a', 'c', 'k'],
        Button::Forward => seq!['→', ' ', 'F', 'o', 'r', 'w', 'a', 'r', 'd'],
    }
}

/// The brackets and padding drawn around a label, `"[  ]"`.
pub open spec fn button_frame() -> Seq<char> {
    seq!['[', ' ', ' ', ']']
}

/// The number of columns a drawn button occupies: its label, the brackets
/// and one space of padding on each side.
pub open spec fn button_cols(button: Button) -> int {
    text_cols(button_label(button)) + text_cols(button_frame())
}

/// A button is never wider than two saturated widths.
pub proof fn lemma_button_cols_bound(button: Button)
    ensures
        0 <= button_cols(button) <= 2 * 65535,
{
}

/// The columns of each top-bar button in a bar `width` columns wide: Back
/// at the left edge, Forward two columns after it, Exit right-aligned.
pub open spec fn button_runs(width: int) -> Seq<(Button, int, int)> {
    let back_end = button_cols(Button::Back);
    let exit_start = if width > button_cols(Button::Exit) {
        width - button_cols(Button::Exit)
    } else {
        0
    };
    seq![
        (Button::Back, 0, back_end),
        (Button::Forward, back_end + 2, button_cols(Button::Forward)),
        (Button::Exit, exit_start, if width > exit_start { width - exit_start } else { 0 }),
    ]
}

impl Button {
    /// The text shown inside the button's brackets, led by a symbol.
    pub fn label(self) -> (result: &'static str)
        ensures
            result@ == button_label(self),
    {
        match self {
            Button::Exit => {
                proof {
                    reveal_strlit("✕ Exit");
                }
                "✕ Exit"
            },
            Button::Back => {
                proof {
                    reveal_strlit("← Go back");
                }
                "← Go back"
            },
            Button::Forward => {
                proof {
                    reveal_strlit("→ Forward");
                }
                "→ Forward"
            },
        }
    }

    /// The number of columns the drawn button occupies, counting the
    /// brackets and the single space of padding on each side of the label.
    pub fn width(self) -> (result: u32)
        ensures
            result == button_cols(self),
    {
        let frame = "[  ]";
        proof {
            reveal_strlit("[  ]");
            assert(frame@ =~= button_frame());
        }
        text_width(self.label()) as u32 + text_width(frame) as u32
    }

    /// The button drawn as `[ label ]`.
    pub fn draw(self) -> (result: String)
        ensures
            result@ == seq!['[', ' '] + button_label(self) + seq![' ', ']'],
    {
        let mut text = String::new();
        crate::text::push_char(&mut text, '[');
        crate::text::push_char(&mut text, ' ');
        crate::text::push_str(&mut text, self.label());
        crate::text::push_char(&mut text, ' ');
        crate::text::push_char(&mut text, ']');
        proof {
            assert(text@ =~= seq!['[', ' '] + button_label(self) + seq![' ', ']']);
        }
        text
    }
}

/// The screen columns each top-bar button spans, for a bar `width`
/// columns wide. Back and Forward sit on the left; Exit is right-aligned.
/// The renderer and the click handling share this.
pub fn button_columns(width: u16) -> (result: [(Button, ColumnSpan); 3])
    ensures
        forall|i: int|
            0 <= i < 3 ==> (#[trigger] result@[i]).0 == button_runs(width as int)[i].0
                && result@[i].1.start_at() == button_runs(width as int)[i].1
                && result@[i].1.cols() == button_runs(width as int)[i].2,
{
    let back_width = Button::Back.width();
    let back = ColumnSpan::new(0, back_width);
    let forward = ColumnSpan::new(back_width + 2, Button::Forward.width());
    let exit_width = Button::Exit.width();
    let right_edge = width as u32;
    let exit_start = if right_edge > exit_width {
        right_edge - exit_width
    } else {
        0
    };
    let exit = ColumnSpan::between(exit_start, right_edge);
    let result = [(Button::Back, back), (Button::Forward, forward), (Button::Exit, exit)];
    proof {
        assert(result@[0] == result[0]);
        assert(result@[1] == result[1]);
        assert(result@[2] == result[2]);
    }
    result
}

/// The top-bar button under `column` in a bar `width` columns wide: the
/// first of the runs that covers it.
pub open spec fn button_under(width: int, column: int) -> Option<Button> {
    let runs = button_runs(width);
    if runs[0].1 <= column < runs[0].1 + runs[0].2 {
        Some(runs[0].0)
    } else if runs[1].1 <= column < runs[1].1 + runs[1].2 {
        Some(runs[1].0)
    } else if runs[2].1 <= column < runs[2].1 + runs[2].2 {
        Some(runs[2].0)
    } else {
        None
    }
}

/// The top-bar button drawn at screen `column`, if any, for a bar `width`
/// columns wide. A click between or past the buttons lands on none.
pub fn button_at(width: u16, column: u32) -> (result: Option<Button>)
    ensures
        result == button_under(width as int, column as int),
{
    let buttons = button_columns(width);
    assert(buttons@[0] == buttons[0] && buttons@[1] == buttons[1] && buttons@[2] == buttons[2]);
    if buttons[0].1.contains(column) {
        Some(buttons[0].0)
    } else if buttons[1].1.contains(column) {
        Some(buttons[1].0)
    } else if buttons[2].1.contains(column) {
        Some(buttons[2].0)
    } else {
        None
    }
}

/// The display width of a line of cells, measured one character at a
/// time.
pub open spec fn line_cols(cells: Seq<(char, bool)>) -> int
    decreases cells.len(),
{
    if cells.len() == 0 {
        0
    } else {
        line_cols(cells.drop_last()) + glyph_cols(cells.last().0)
    }
}

proof fn lemma_line_cols_append(a: Seq<(char, bool)>, b: Seq<(char, bool)>)
    ensures
        line_cols(a + b) == line_cols(a) + line_cols(b),
    decreases b.len(),
{
    if b.len() == 0 {
        assert(a + b =~= a);
    } else {
        lemma_line_cols_append(a, b.drop_last());
        assert((a + b).drop_last() =~= a + b.drop_last());
    }
}

proof fn lemma_line_cols_marked(s: Seq<char>, mask: Seq<bool>, n: int)
    requires
        0 <= n <= s.len(),
    ensures
        line_cols(marked(s, mask, n)) == cols_sum(s, n),
    decreases n,
{
    if n > 0 {
        lemma_line_cols_marked(s, mask, n - 1);
        assert(marked(s, mask, n).drop_last() =~= marked(s, mask, n - 1));
    }
}

proof fn lemma_line_cols_blanks(k: int)
    requires
        0 <= k,
        glyph_cols(' ') == 1,
    ensures
        line_cols(blanks(k)) == k,
    decreases k,
{
    if k > 0 {
        lemma_line_cols_blanks(k - 1);
        assert(blanks(k).drop_last() =~= blanks(k - 1));
    }
}

proof fn lemma_kept_fits(s: Seq<char>, room: int, i: int)
    requires
        0 <= i <= s.len(),
        cols_sum(s, i) <= room,
    ensures
        i <= kept_from(s, room, i) <= s.len(),
        cols_sum(s, kept_from(s, room, i)) <= room,
    decreases s.len() - i,
{
    if i < s.len() && cols_sum(s, i + 1) <= room {
        lemma_kept_fits(s, room, i + 1);
    }
}

/// Fitting fills exactly the column budget: the fitted line is `width`
/// columns wide, counted character by character, for text as wide as its
/// characters, where a blank and the ellipsis are one column each.
pub proof fn lemma_fit_fills_the_width(text: Seq<char>, mask: Seq<bool>, width: int)
    requires
        0 <= width,
        glyph_cols(' ') == 1,
        glyph_cols('…') == 1,
        text_cols(text) == cols_sum(text, text.len() as int),
    ensures
        line_cols(fit_cells(text, mask, width)) == width,
{
    let full = text_cols(text);
    if full <= width {
        lemma_line_cols_append(marked(text, mask, text.len() as int), blanks(width - full));
        lemma_line_cols_marked(text, mask, text.len() as int);
        lemma_line_cols_blanks(width - full);
        assert(fit_cells(text, mask, width) == marked(text, mask, text.len() as int) + blanks(width - full));
    } else if width > 0 {
        let room = width - 1;
        lemma_kept_fits(text, room, 0);
        let kept = kept_from(text, room, 0);
        let head = marked(text, mask, kept);
        let ellipsis = seq![('…', false)];
        lemma_line_cols_append(head + ellipsis, blanks(room - cols_sum(text, kept)));
        lemma_line_cols_append(head, ellipsis);
        lemma_line_cols_marked(text, mask, kept);
        lemma_line_cols_blanks(room - cols_sum(text, kept));
        assert(ellipsis.drop_last() =~= Seq::<(char, bool)>::empty());
        assert(line_cols(Seq::<(char, bool)>::empty()) == 0);
        assert(line_cols(ellipsis) == 1);
        assert(fit_cells(text, mask, width) == head + ellipsis + blanks(room - cols_sum(text, kept)));
    } else {
        assert(fit_cells(text, mask, width) =~= Seq::<(char, bool)>::empty());
    }
}

} // verus!
