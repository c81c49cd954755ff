//! What a terminal pane shows: its visible cells as runs of equal color, its
//! cursor and selection, and its scrollback as text.

use std::collections::hash_map::DefaultHasher;
use std::hash::Hasher;
use vstd::bytes::{u32_to_le_bytes, u64_to_le_bytes};
use vstd::prelude::*;
use vstd::std_specs::hash::DefaultHasherAdditionalSpecFns;

use crate::color;
use crate::color::{dim_rgba, resolve, resolve_fg, AnsiColor, Rgba};
use crate::text;
use crate::text::{from_chars, trim_end_range};

verus! {

/// Tracks whether a pane produced new output since the last redraw.
pub struct EventProxy {
    pub dirty: bool,
}

impl EventProxy {
    /// A pane without new output.
    pub fn new() -> (r: Self)
        ensures
            !r.dirty,
    {
        EventProxy { dirty: false }
    }

    /// Returns true (and clears the flag) if the terminal produced new output
    /// since the last check.
    pub fn take_dirty(&mut self) -> (r: bool)
        ensures
            r == old(self).dirty,
            !final(self).dirty,
    {
        let was: bool = self.dirty;
        self.dirty = false;
        was
    }

    /// Notes new output.
    pub fn mark_dirty(&mut self)
        ensures
            final(self).dirty,
    {
        self.dirty = true;
    }
}

/// A visible cell of a terminal.
#[derive(Clone, Copy)]
pub struct Cell {
    /// The line of the terminal's grid that the cell is on: 0 is the top of
    /// the screen, scrollback is negative.
    pub line: i32,
    pub c: char,
    pub fg: AnsiColor,
    pub bg: AnsiColor,
    pub bold: bool,
    pub inverse: bool,
    pub dim: bool,
}

/// A selected stretch of a terminal's grid, from its first to its last cell.
#[derive(Clone, Copy)]
pub struct SelectionRange {
    pub start_line: i32,
    pub start_column: usize,
    pub end_line: i32,
    pub end_column: usize,
}

/// The state of a terminal that a frame is drawn from.
pub struct TermView {
    /// The visible cells, row by row.
    pub cells: Vec<Cell>,
    pub columns: usize,
    /// How many lines the view is scrolled up from the bottom.
    pub display_offset: usize,
    pub cursor_line: i32,
    pub cursor_column: usize,
    pub cursor_hidden: bool,
    /// How many lines have scrolled off the screen.
    pub history: usize,
    /// How many lines the screen has.
    pub screen_lines: usize,
    /// How many rows the pane shows.
    pub rows: usize,
    pub selection: Option<SelectionRange>,
}

/// A run of consecutive cells sharing the same fg/bg color on one row.
pub struct Run {
    pub col_start: usize,
    pub fg: Rgba,
    pub bg: Rgba,
    pub text: String,
}

/// A [`Run`] with its text.
pub struct RunView {
    pub col_start: nat,
    pub fg: Rgba,
    pub bg: Rgba,
    pub text: Seq<char>,
}

impl View for Run {
    type V = RunView;

    open spec fn view(&self) -> RunView {
        RunView { col_start: self.col_start as nat, fg: self.fg, bg: self.bg, text: self.text@ }
    }
}

/// All color runs for a single visible row.
pub struct RowRuns {
    pub runs: Vec<Run>,
}

impl View for RowRuns {
    type V = Seq<RunView>;

    open spec fn view(&self) -> Seq<RunView> {
        self.runs@.map_values(|r: Run| r@)
    }
}

/// The texts of runs one behind the other.
pub open spec fn runs_text(runs: Seq<RunView>) -> Seq<char>
    decreases runs.len(),
{
    if runs.len() == 0 {
        seq![]
    } else {
        runs_text(runs.drop_last()) + runs.last().text
    }
}

/// The rows with their runs.
pub open spec fn row_views(rows: Seq<RowRuns>) -> Seq<Seq<RunView>> {
    rows.map_values(|r: RowRuns| r@)
}

/// A consistent view of a pane's contents for one rendered frame.
pub struct Snapshot {
    /// Styled text runs, one entry per visible row (top to bottom).
    pub rows: Vec<RowRuns>,
    /// (col, row) of the cursor in viewport cells, if visible.
    pub cursor: Option<(usize, usize)>,
    pub cursor_shape_block: bool,
    /// (row, start_col, end_col) inclusive selection spans in viewport cells.
    pub selection_spans: Vec<(usize, usize, usize)>,
    /// Hash of visible content; lets the renderer skip re-shaping when equal.
    pub content_hash: u64,
    /// Lines scrolled up from the live bottom (0 = at bottom).
    pub scroll_offset: usize,
    /// Total lines including scrollback history.
    pub total_lines: usize,
    /// Number of visible rows on screen.
    pub screen_lines: usize,
}

// ---------------------------------------------------------------------------
// What the cells look like.
// ---------------------------------------------------------------------------

/// How a cell is drawn: its character and its two colors.
#[derive(Clone, Copy, PartialEq, Eq, Structural)]
pub struct Look {
    pub ch: char,
    pub fg: Rgba,
    pub bg: Rgba,
}

/// How a cell is drawn: an empty cell is a space, reverse video swaps the
/// colors, and the dim attribute darkens the foreground.
pub open spec fn look(cell: Cell) -> Look {
    let fg = color::resolved_fg(cell.fg, cell.bold);
    let bg = color::resolved(cell.bg);
    let front = if cell.inverse {
        bg
    } else {
        fg
    };
    Look {
        ch: shown(cell.c),
        fg: if cell.dim {
            color::dimmed(front)
        } else {
            front
        },
        bg: if cell.inverse {
            fg
        } else {
            bg
        },
    }
}

/// The character shown for the content of a cell.
pub open spec fn shown(c: char) -> char {
    if c == '\0' {
        ' '
    } else {
        c
    }
}

fn shown_char(c: char) -> (r: char)
    ensures
        r == shown(c),
{
    if c == '\0' {
        ' '
    } else {
        c
    }
}

fn look_of(cell: &Cell) -> (r: Look)
    ensures
        r == look(*cell),
{
    let fg: Rgba = resolve_fg(cell.fg, cell.bold);
    let bg: Rgba = resolve(cell.bg);
    let front: Rgba = if cell.inverse {
        bg
    } else {
        fg
    };
    let back: Rgba = if cell.inverse {
        fg
    } else {
        bg
    };
    Look {
        ch: shown_char(cell.c),
        fg: if cell.dim {
            dim_rgba(front)
        } else {
            front
        },
        bg: back,
    }
}

// ---------------------------------------------------------------------------
// Rows and runs.
// ---------------------------------------------------------------------------

/// Whether two looks have the same colors.
pub open spec fn same_colors(a: Look, b: Look) -> bool {
    a.fg == b.fg && a.bg == b.bg
}

/// How many cells at the beginning of `cells` have the colors of the first.
pub open spec fn run_len(cells: Seq<Cell>) -> nat
    decreases cells.len(),
{
    if cells.len() == 0 {
        0
    } else if cells.len() == 1 || !same_colors(look(cells[0]), look(cells[1])) {
        1
    } else {
        1 + run_len(cells.drop_first())
    }
}

/// How many cells at the beginning of `cells` are on the line of the first.
pub open spec fn row_len(cells: Seq<Cell>) -> nat
    decreases cells.len(),
{
    if cells.len() == 0 {
        0
    } else if cells.len() == 1 || cells[0].line != cells[1].line {
        1
    } else {
        1 + row_len(cells.drop_first())
    }
}

/// A run and a row have a cell, and no more than there are.
pub proof fn lemma_lens(cells: Seq<Cell>)
    ensures
        cells.len() > 0 ==> 1 <= run_len(cells) <= cells.len(),
        cells.len() > 0 ==> 1 <= row_len(cells) <= cells.len(),
    decreases cells.len(),
{
    if cells.len() > 1 {
        lemma_lens(cells.drop_first());
    }
}

/// The text of the cells.
pub open spec fn cells_text(cells: Seq<Cell>) -> Seq<char> {
    cells.map_values(|c: Cell| look(c).ch)
}

/// The cells of a row, of which the first is in column `col`, as the longest
/// runs of equal colors.
pub open spec fn runs_of(cells: Seq<Cell>, col: nat) -> Seq<RunView>
    decreases cells.len(),
{
    if cells.len() == 0 {
        seq![]
    } else {
        proof {
            lemma_lens(cells);
        }
        let n = run_len(cells) as int;
        seq![
            RunView {
                col_start: col,
                fg: look(cells[0]).fg,
                bg: look(cells[0]).bg,
                text: cells_text(cells.take(n)),
            },
        ] + runs_of(cells.skip(n), (col + n) as nat)
    }
}

/// The visible cells as rows of runs.
pub open spec fn rows_of(cells: Seq<Cell>) -> Seq<Seq<RunView>>
    decreases cells.len(),
{
    if cells.len() == 0 {
        seq![]
    } else {
        proof {
            lemma_lens(cells);
        }
        let n = row_len(cells) as int;
        seq![runs_of(cells.take(n), 0)] + rows_of(cells.skip(n))
    }
}

/// The first row whose cells are on the given line.
pub open spec fn row_at(cells: Seq<Cell>, line: i32) -> Option<nat>
    decreases cells.len(),
{
    if cells.len() == 0 {
        None
    } else if cells[0].line == line {
        Some(0)
    } else {
        proof {
            lemma_lens(cells);
        }
        match row_at(cells.skip(row_len(cells) as int), line) {
            Some(r) => Some(r + 1),
            None => None,
        }
    }
}

proof fn lemma_run_len_is(cells: Seq<Cell>, k: int)
    requires
        0 < k <= cells.len(),
        forall|j: int| 0 <= j < k ==> same_colors(look(cells[0]), look(#[trigger] cells[j])),
        k < cells.len() ==> !same_colors(look(cells[0]), look(cells[k])),
    ensures
        run_len(cells) == k,
    decreases k,
{
    if k > 1 {
        let t = cells.drop_first();
        assert(same_colors(look(cells[0]), look(cells[1])));
        assert forall|j: int| 0 <= j < k - 1 implies same_colors(
            look(t[0]),
            look(#[trigger] t[j]),
        ) by {
            assert(t[j] == cells[j + 1]);
        }
        lemma_run_len_is(t, k - 1);
    }
}

proof fn lemma_row_len_is(cells: Seq<Cell>, k: int)
    requires
        0 < k <= cells.len(),
        forall|j: int| 0 <= j < k ==> cells[0].line == (#[trigger] cells[j]).line,
        k < cells.len() ==> cells[0].line != cells[k].line,
    ensures
        row_len(cells) == k,
    decreases k,
{
    if k > 1 {
        let t = cells.drop_first();
        assert(cells[0].line == cells[1].line);
        assert forall|j: int| 0 <= j < k - 1 implies t[0].line == (#[trigger] t[j]).line by {
            assert(t[j] == cells[j + 1]);
        }
        lemma_row_len_is(t, k - 1);
    }
}

/// The end of the row that begins at `from`.
fn row_end(cells: &Vec<Cell>, from: usize) -> (r: usize)
    requires
        from < cells.len(),
    ensures
        from < r <= cells.len(),
        r - from == row_len(cells@.skip(from as int)),
{
    let n: usize = cells.len();
    let mut i: usize = from + 1;
    while i < n && cells[i].line == cells[from].line
        invariant
            from < i <= n,
            n == cells.len(),
            forall|j: int| from <= j < i ==> cells@[from as int].line == (#[trigger] cells@[j]).line,
        decreases n - i,
    {
        i = i + 1;
    }
    proof {
        let s = cells@.skip(from as int);
        assert forall|j: int| 0 <= j < i - from implies s[0].line == (#[trigger] s[j]).line by {
            assert(s[j] == cells@[from + j]);
        }
        lemma_row_len_is(s, i - from);
    }
    i
}

/// The runs of the row of cells from `from` up to `to`.
fn row_runs(cells: &Vec<Cell>, from: usize, to: usize) -> (r: RowRuns)
    requires
        from <= to <= cells.len(),
    ensures
        r@ == runs_of(cells@.subrange(from as int, to as int), 0),
{
    let mut runs: Vec<Run> = Vec::new();
    let mut i: usize = from;
    let ghost all = cells@.subrange(from as int, to as int);
    let ghost f = |r: Run| r@;
    proof {
        assert(all.skip(0) =~= all);
        assert(runs@.map_values(f) + runs_of(all, 0) =~= runs_of(all, 0));
    }
    while i < to
        invariant
            from <= i <= to <= cells.len(),
            all == cells@.subrange(from as int, to as int),
            f == (|r: Run| r@),
            runs@.map_values(f) + runs_of(all.skip(i - from), (i - from) as nat) == runs_of(all, 0),
        decreases to - i,
    {
        let ghost rest = all.skip(i - from);
        let ghost before = runs@;
        let start: usize = i;
        let first: Look = look_of(&cells[start]);
        let mut line: String = String::new();
        line.push(first.ch);
        i = start + 1;
        let mut more: bool = true;
        assert(cells_text(rest.take(1)) =~= seq![first.ch]);
        while more && i < to
            invariant
                from <= start < i <= to <= cells.len(),
                all == cells@.subrange(from as int, to as int),
                rest == all.skip(start - from),
                first == look(cells@[start as int]),
                line@ == cells_text(rest.take(i - start)),
                forall|j: int|
                    start <= j < i ==> same_colors(first, look(#[trigger] cells@[j])),
                !more ==> i < to && !same_colors(first, look(cells@[i as int])),
            decreases to - i + (if more {
                1int
            } else {
                0
            }),
        {
            let here: Look = look_of(&cells[i]);
            if here.fg == first.fg && here.bg == first.bg {
                line.push(here.ch);
                proof {
                    assert(rest[i - start] == cells@[i as int]);
                    assert(cells_text(rest.take(i - start + 1)) =~= cells_text(
                        rest.take(i - start),
                    ).push(here.ch));
                }
                i = i + 1;
            } else {
                more = false;
            }
        }
        proof {
            assert forall|j: int| 0 <= j < i - start implies same_colors(
                look(rest[0]),
                look(#[trigger] rest[j]),
            ) by {
                assert(rest[j] == cells@[start + j]);
            }
            if i < to {
                assert(rest[i - start] == cells@[i as int]);
            }
            lemma_run_len_is(rest, i - start);
            assert(rest.skip(i - start) =~= all.skip(i - from));
        }
        let run = Run { col_start: start - from, fg: first.fg, bg: first.bg, text: line };
        runs.push(run);
        proof {
            assert(runs@.map_values(f) =~= before.map_values(f).push(run@));
            assert(runs@.map_values(f) + runs_of(all.skip(i - from), (i - from) as nat)
                =~= before.map_values(f) + runs_of(rest, (start - from) as nat));
        }
    }
    proof {
        assert(all.skip(i - from).len() == 0);
        assert(runs@.map_values(f) + runs_of(all.skip(i - from), (i - from) as nat)
            =~= runs@.map_values(f));
    }
    RowRuns { runs }
}

/// The rows of the cells, and the first of them on the given line.
fn all_rows(cells: &Vec<Cell>, line: i32) -> (r: (Vec<RowRuns>, Option<usize>))
    ensures
        row_views(r.0@) == rows_of(cells@),
        match row_at(cells@, line) {
            Some(k) => r.1 matches Some(x) && x == k,
            None => r.1 is None,
        },
{
    let mut rows: Vec<RowRuns> = Vec::new();
    let mut found: Option<usize> = None;
    let n: usize = cells.len();
    let mut i: usize = 0;
    proof {
        assert(cells@.skip(0) =~= cells@);
        assert(row_views(rows@) + rows_of(cells@) =~= rows_of(cells@));
    }
    while i < n
        invariant
            i <= n,
            n == cells.len(),
            rows.len() <= i,
            row_views(rows@) + rows_of(cells@.skip(i as int)) == rows_of(cells@),
            match found {
                Some(k) => row_at(cells@, line) == Some(k as nat),
                None => row_at(cells@, line) == (match row_at(cells@.skip(i as int), line) {
                    Some(k) => Some(rows.len() as nat + k),
                    None => None,
                }),
            },
        decreases n - i,
    {
        let ghost rest = cells@.skip(i as int);
        let ghost before = rows@;
        let e: usize = row_end(cells, i);
        if found.is_none() && cells[i].line == line {
            found = Some(rows.len());
        }
        let row: RowRuns = row_runs(cells, i, e);
        proof {
            assert(rest.take(e - i) =~= cells@.subrange(i as int, e as int));
            assert(rest.skip(e - i) =~= cells@.skip(e as int));
        }
        rows.push(row);
        proof {
            assert(row_views(rows@) =~= row_views(before).push(row@));
            assert(row_views(rows@) + rows_of(cells@.skip(e as int)) =~= row_views(before)
                + rows_of(rest));
        }
        i = e;
    }
    proof {
        assert(cells@.skip(i as int).len() == 0);
        assert(row_views(rows@) + rows_of(cells@.skip(i as int)) =~= row_views(rows@));
    }
    (rows, found)
}

// ---------------------------------------------------------------------------
// The hash of what is visible.
// ---------------------------------------------------------------------------

/// What is fed to the hasher for a cell: its character, then its colors.
pub open spec fn cell_writes(l: Look) -> Seq<Seq<u8>> {
    seq![
        vstd::bytes::spec_u32_to_le_bytes(l.ch as u32),
        seq![l.fg.r, l.fg.g, l.fg.b, l.bg.r, l.bg.g, l.bg.b],
    ]
}

/// What is fed to the hasher for the cells.
pub open spec fn cells_writes(cells: Seq<Cell>) -> Seq<Seq<u8>>
    decreases cells.len(),
{
    if cells.len() == 0 {
        seq![]
    } else {
        cells_writes(cells.drop_last()) + cell_writes(look(cells.last()))
    }
}

/// What is fed to the hasher for the cursor.
pub open spec fn cursor_writes(cursor: Option<(usize, usize)>) -> Seq<Seq<u8>> {
    match cursor {
        None => seq![seq![0u8]],
        Some(p) => seq![
            seq![1u8],
            vstd::bytes::spec_u64_to_le_bytes(p.0 as u64),
            vstd::bytes::spec_u64_to_le_bytes(p.1 as u64),
        ],
    }
}

/// What is fed to the hasher for all that is visible.
pub open spec fn content_writes(
    cells: Seq<Cell>,
    display_offset: usize,
    cursor: Option<(usize, usize)>,
) -> Seq<Seq<u8>> {
    seq![vstd::bytes::spec_u64_to_le_bytes(display_offset as u64)] + cells_writes(cells)
        + cursor_writes(cursor)
}

fn hash_content(
    cells: &Vec<Cell>,
    display_offset: usize,
    cursor: Option<(usize, usize)>,
) -> (r: u64)
    ensures
        r == DefaultHasher::spec_finish(content_writes(cells@, display_offset, cursor)),
{
    let mut hasher: DefaultHasher = DefaultHasher::new();
    hasher.write(u64_to_le_bytes(display_offset as u64).as_slice());
    let ghost head = seq![vstd::bytes::spec_u64_to_le_bytes(display_offset as u64)];
    let n: usize = cells.len();
    let mut i: usize = 0;
    proof {
        assert(cells@.take(0) =~= Seq::<Cell>::empty());
        assert(hasher@ =~= head + cells_writes(cells@.take(0)));
    }
    while i < n
        invariant
            i <= n,
            n == cells.len(),
            hasher@ == head + cells_writes(cells@.take(i as int)),
        decreases n - i,
    {
        let l: Look = look_of(&cells[i]);
        let ghost before = hasher@;
        hasher.write(u32_to_le_bytes(l.ch as u32).as_slice());
        let colors: Vec<u8> = vec![l.fg.r, l.fg.g, l.fg.b, l.bg.r, l.bg.g, l.bg.b];
        hasher.write(colors.as_slice());
        proof {
            assert(colors@ =~= seq![l.fg.r, l.fg.g, l.fg.b, l.bg.r, l.bg.g, l.bg.b]);
            assert(hasher@ =~= before + cell_writes(l));
            assert(cells@.take(i + 1).drop_last() =~= cells@.take(i as int));
            assert(hasher@ =~= head + cells_writes(cells@.take(i + 1)));
        }
        i = i + 1;
    }
    assert(cells@.take(n as int) =~= cells@);
    let ghost before = hasher@;
    match cursor {
        None => {
            let mark: Vec<u8> = vec![0u8];
            hasher.write(mark.as_slice());
            assert(mark@ =~= seq![0u8]);
        },
        Some((col, row)) => {
            let mark: Vec<u8> = vec![1u8];
            hasher.write(mark.as_slice());
            hasher.write(u64_to_le_bytes(col as u64).as_slice());
            hasher.write(u64_to_le_bytes(row as u64).as_slice());
            assert(mark@ =~= seq![1u8]);
        },
    }
    assert(hasher@ =~= before + cursor_writes(cursor));
    hasher.finish()
}

// ---------------------------------------------------------------------------
// The selection.
// ---------------------------------------------------------------------------

/// The visible part of the selection on one line of the grid: its row in the
/// view and its first and last column.
pub open spec fn span_on(
    sel: SelectionRange,
    line: int,
    display_offset: int,
    rows: int,
    columns: int,
) -> Option<(int, int, int)> {
    let row = line + display_offset;
    let first = if line == sel.start_line {
        sel.start_column as int
    } else {
        0
    };
    let last = if line == sel.end_line {
        sel.end_column as int
    } else if columns > 0 {
        columns - 1
    } else {
        0
    };
    if 0 <= row < rows && first <= last {
        Some((row, first, last))
    } else {
        None
    }
}

/// The visible parts of the selection from the given line on, top to bottom.
pub open spec fn spans_from(
    sel: SelectionRange,
    line: int,
    display_offset: int,
    rows: int,
    columns: int,
) -> Seq<(int, int, int)>
    decreases sel.end_line - line + 1,
{
    if line > sel.end_line {
        seq![]
    } else {
        let rest = spans_from(sel, line + 1, display_offset, rows, columns);
        match span_on(sel, line, display_offset, rows, columns) {
            Some(span) => seq![span] + rest,
            None => rest,
        }
    }
}

/// The spans as numbers.
pub open spec fn span_views(spans: Seq<(usize, usize, usize)>) -> Seq<(int, int, int)> {
    spans.map_values(|s: (usize, usize, usize)| (s.0 as int, s.1 as int, s.2 as int))
}

fn selection_spans(
    sel: &SelectionRange,
    display_offset: usize,
    rows: usize,
    columns: usize,
) -> (r: Vec<(usize, usize, usize)>)
    ensures
        span_views(r@) == spans_from(
            *sel,
            sel.start_line as int,
            display_offset as int,
            rows as int,
            columns as int,
        ),
{
    let mut spans: Vec<(usize, usize, usize)> = Vec::new();
    let mut line: i64 = sel.start_line as i64;
    let ghost all = spans_from(
        *sel,
        sel.start_line as int,
        display_offset as int,
        rows as int,
        columns as int,
    );
    assert(span_views(spans@) + all =~= all);
    while line <= sel.end_line as i64
        invariant
            sel.start_line <= line,
            line <= sel.end_line + 1 || line == sel.start_line,
            span_views(spans@) + spans_from(
                *sel,
                line as int,
                display_offset as int,
                rows as int,
                columns as int,
            ) == all,
        decreases sel.end_line + 1 - line,
    {
        let ghost before = spans@;
        let ghost rest = spans_from(
            *sel,
            line + 1,
            display_offset as int,
            rows as int,
            columns as int,
        );
        let row: i128 = line as i128 + display_offset as i128;
        if 0 <= row && row < rows as i128 {
            let first: usize = if line == sel.start_line as i64 {
                sel.start_column
            } else {
                0
            };
            let last: usize = if line == sel.end_line as i64 {
                sel.end_column
            } else {
                columns.saturating_sub(1)
            };
            if first <= last {
                spans.push((row as usize, first, last));
                proof {
                    let span = (row as int, first as int, last as int);
                    assert(span_views(spans@) =~= span_views(before).push(span));
                    assert(span_views(spans@) + rest =~= span_views(before) + (seq![span] + rest));
                }
            }
        }
        line = line + 1;
    }
    assert(span_views(spans@) + Seq::<(int, int, int)>::empty() =~= span_views(spans@));
    spans
}

/// The line of the grid that a row of the view shows.
pub fn grid_line(row: usize, display_offset: usize) -> (r: i32)
    requires
        row <= i32::MAX,
        display_offset <= i32::MAX,
    ensures
        r == row - display_offset,
{
    row as i32 - display_offset as i32
}

// ---------------------------------------------------------------------------
// Snapshots.
// ---------------------------------------------------------------------------

/// The cell of the cursor in the view, if its row is visible.
pub open spec fn cursor_cell(view: TermView) -> Option<(usize, usize)> {
    match row_at(view.cells@, view.cursor_line) {
        Some(r) if r < view.rows => Some((view.cursor_column, r as usize)),
        _ => None,
    }
}

/// The visible parts of the selection.
pub open spec fn visible_selection(view: TermView) -> Seq<(int, int, int)> {
    match view.selection {
        Some(sel) => spans_from(
            sel,
            sel.start_line as int,
            view.display_offset as int,
            view.rows as int,
            view.columns as int,
        ),
        None => seq![],
    }
}

/// Everything needed to render a pane: styled text runs, the cursor cell, and
/// the per-row selection spans.
pub fn snapshot(view: &TermView) -> (r: Snapshot)
    requires
        view.history + view.screen_lines <= usize::MAX,
    ensures
        row_views(r.rows@) == rows_of(view.cells@),
        r.cursor == cursor_cell(*view),
        r.cursor_shape_block == !view.cursor_hidden,
        span_views(r.selection_spans@) == visible_selection(*view),
        r.content_hash == DefaultHasher::spec_finish(
            content_writes(view.cells@, view.display_offset, cursor_cell(*view)),
        ),
        r.scroll_offset == view.display_offset,
        r.total_lines == view.history + view.screen_lines,
        r.screen_lines == view.screen_lines,
{
    let (rows, row): (Vec<RowRuns>, Option<usize>) = all_rows(&view.cells, view.cursor_line);
    let cursor: Option<(usize, usize)> = match row {
        Some(r) => if r < view.rows {
            Some((view.cursor_column, r))
        } else {
            None
        },
        None => None,
    };
    let content_hash: u64 = hash_content(&view.cells, view.display_offset, cursor);
    let spans: Vec<(usize, usize, usize)> = match &view.selection {
        Some(sel) => selection_spans(sel, view.display_offset, view.rows, view.columns),
        None => Vec::new(),
    };
    assert(view.selection is None ==> span_views(spans@) =~= seq![]);
    Snapshot {
        rows,
        cursor,
        cursor_shape_block: !view.cursor_hidden,
        selection_spans: spans,
        content_hash,
        scroll_offset: view.display_offset,
        total_lines: view.history + view.screen_lines,
        screen_lines: view.screen_lines,
    }
}

// ---------------------------------------------------------------------------
// Scrollback as text.
// ---------------------------------------------------------------------------

/// How many of the last `lines` lines there are.
pub open spec fn last_lines(total: int, lines: int) -> int {
    if lines < total {
        lines
    } else {
        total
    }
}

/// The lines of the grid that hold the last `lines` lines of a buffer of
/// `total` lines, of which the last `screen` are on the screen. The top of the
/// screen is line 0.
pub fn scrollback_lines(total: usize, screen: usize, lines: usize) -> (r: Vec<i32>)
    requires
        screen <= total <= i32::MAX,
    ensures
        r@.len() == last_lines(total as int, lines as int),
        forall|k: int| 0 <= k < r@.len() ==> r@[k] == screen - r@.len() + k,
{
    let start: usize = total.saturating_sub(lines);
    let history: usize = total - screen;
    let mut r: Vec<i32> = Vec::new();
    let mut b: usize = start;
    while b < total
        invariant
            start <= b <= total,
            screen <= total <= i32::MAX,
            history == total - screen,
            r@.len() == b - start,
            forall|k: int| 0 <= k < r@.len() ==> r@[k] == start + k - history,
        decreases total - b,
    {
        r.push(b as i32 - history as i32);
        b = b + 1;
    }
    r
}

/// A line of the buffer as text: empty cells are spaces, and white space at
/// its end is left out.
pub open spec fn line_text(row: Seq<char>) -> Seq<char> {
    text::trim_end(row.map_values(|c: char| shown(c)))
}

/// The lines as text, each with a line feed after it.
pub open spec fn lines_text(rows: Seq<Seq<char>>) -> Seq<char>
    decreases rows.len(),
{
    if rows.len() == 0 {
        seq![]
    } else {
        lines_text(rows.drop_last()) + line_text(rows.last()).push('\n')
    }
}

/// The lines of a buffer as plain text, for feeding terminal output to the
/// assistant.
pub fn scrollback_text(rows: &Vec<Vec<char>>) -> (r: String)
    ensures
        r@ == lines_text(rows@.map_values(|row: Vec<char>| row@)),
{
    let mut out: String = String::new();
    let n: usize = rows.len();
    let mut i: usize = 0;
    let ghost views = rows@.map_values(|row: Vec<char>| row@);
    assert(views.take(0) =~= seq![]);
    while i < n
        invariant
            i <= n,
            n == rows.len(),
            views == rows@.map_values(|row: Vec<char>| row@),
            out@ == lines_text(views.take(i as int)),
        decreases n - i,
    {
        let row: &Vec<char> = &rows[i];
        let mut cells: Vec<char> = Vec::new();
        let m: usize = row.len();
        let mut j: usize = 0;
        while j < m
            invariant
                j <= m,
                m == row.len(),
                cells@ == row@.take(j as int).map_values(|c: char| shown(c)),
            decreases m - j,
        {
            cells.push(shown_char(row[j]));
            proof {
                assert(row@.take(j + 1) =~= row@.take(j as int).push(row@[j as int]));
                assert(cells@ =~= row@.take(j + 1).map_values(|c: char| shown(c)));
            }
            j = j + 1;
        }
        let e: usize = trim_end_range(&cells, 0, m);
        let line: String = from_chars(&cells, 0, e);
        proof {
            assert(row@.take(m as int) =~= row@);
            assert(cells@.subrange(0, m as int) =~= cells@);
            assert(line@ == line_text(row@));
            assert(views.take(i + 1).drop_last() =~= views.take(i as int));
            assert(views.take(i + 1).last() == row@);
        }
        out.append(line.as_str());
        out.push('\n');
        proof {
            assert(out@ =~= lines_text(views.take(i as int)) + line@.push('\n'));
        }
        i = i + 1;
    }
    assert(views.take(n as int) =~= views);
    out
}

/// The shell to run in a pane: the user's, where the environment names one.
pub fn shell_of(var: Option<String>) -> (r: String)
    ensures
        r@ == (match var {
            Some(s) => s@,
            None => "/bin/zsh"@,
        }),
{
    match var {
        Some(s) => s,
        None => "/bin/zsh".to_owned(),
    }
}

/// The address at which usage is collected.
pub open spec fn collector_url(port: nat) -> Seq<char> {
    "http://127.0.0.1:"@ + text::decimal(port)
}

/// How the metrics of a pane are tagged.
pub open spec fn pane_tag(pane: nat) -> Seq<char> {
    "gridterm.pane="@ + text::decimal(pane)
}

/// The environment of every shell.
pub open spec fn terminal_env() -> Seq<(Seq<char>, Seq<char>)> {
    seq![
        ("TERM"@, "xterm-256color"@),
        ("COLORTERM"@, "truecolor"@),
        ("TERM_PROGRAM"@, "gridterm"@),
    ]
}

/// The environment that points coding agents in a pane to the collector.
pub open spec fn telemetry_env(port: nat, pane: nat) -> Seq<(Seq<char>, Seq<char>)> {
    seq![
        ("CLAUDE_CODE_ENABLE_TELEMETRY"@, "1"@),
        ("CODEX_ENABLE_TELEMETRY"@, "1"@),
        ("OTEL_METRICS_EXPORTER"@, "otlp"@),
        ("OTEL_EXPORTER_OTLP_PROTOCOL"@, "http/json"@),
        ("OTEL_EXPORTER_OTLP_ENDPOINT"@, collector_url(port)),
        ("OTEL_EXPORTER_OTLP_METRICS_ENDPOINT"@, collector_url(port) + "/v1/metrics"@),
        ("OTEL_METRICS_INCLUDE_RESOURCE_ATTRIBUTES"@, "true"@),
        ("OTEL_RESOURCE_ATTRIBUTES"@, pane_tag(pane)),
        ("OTEL_METRIC_EXPORT_INTERVAL"@, "5000"@),
    ]
}

/// What pairs of texts hold.
pub open spec fn pair_views(pairs: Seq<(String, String)>) -> Seq<(Seq<char>, Seq<char>)> {
    pairs.map_values(|p: (String, String)| (p.0@, p.1@))
}

fn pair(name: &str, value: &str) -> (r: (String, String))
    ensures
        r.0@ == name@,
        r.1@ == value@,
{
    (name.to_owned(), value.to_owned())
}

/// The environment of the shell of a pane: full color, and the collector where
/// there is one, by its port and the index of the pane.
pub fn pane_env(telemetry: Option<(u16, usize)>) -> (r: Vec<(String, String)>)
    ensures
        pair_views(r@) == (match telemetry {
            Some((port, pane)) => terminal_env() + telemetry_env(port as nat, pane as nat),
            None => terminal_env(),
        }),
{
    let mut env: Vec<(String, String)> = vec![
        pair("TERM", "xterm-256color"),
        pair("COLORTERM", "truecolor"),
        pair("TERM_PROGRAM", "gridterm"),
    ];
    assert(pair_views(env@) =~= terminal_env());
    if let Some((port, pane)) = telemetry {
        let mut endpoint: String = "http://127.0.0.1:".to_owned();
        text::push_decimal(&mut endpoint, port as u128);
        let mut metrics: String = endpoint.clone();
        metrics.append("/v1/metrics");
        let mut tag: String = "gridterm.pane=".to_owned();
        text::push_decimal(&mut tag, pane as u128);
        env.push(pair("CLAUDE_CODE_ENABLE_TELEMETRY", "1"));
        env.push(pair("CODEX_ENABLE_TELEMETRY", "1"));
        env.push(pair("OTEL_METRICS_EXPORTER", "otlp"));
        env.push(pair("OTEL_EXPORTER_OTLP_PROTOCOL", "http/json"));
        env.push(pair("OTEL_EXPORTER_OTLP_ENDPOINT", endpoint.as_str()));
        env.push(pair("OTEL_EXPORTER_OTLP_METRICS_ENDPOINT", metrics.as_str()));
        env.push(pair("OTEL_METRICS_INCLUDE_RESOURCE_ATTRIBUTES", "true"));
        env.push(pair("OTEL_RESOURCE_ATTRIBUTES", tag.as_str()));
        env.push(pair("OTEL_METRIC_EXPORT_INTERVAL", "5000"));
        assert(pair_views(env@) =~= terminal_env() + telemetry_env(port as nat, pane as nat));
    }
    env
}

/// Whether a terminal is to be resized: to a size that it can have and does not
/// have yet.
pub fn must_resize(cols: usize, rows: usize, old_cols: usize, old_rows: usize) -> (r: bool)
    ensures
        r == (cols != 0 && rows != 0 && (cols != old_cols || rows != old_rows)),
{
    cols != 0 && rows != 0 && (cols != old_cols || rows != old_rows)
}

/// What is sent to a shell for text that is pasted: the text between marks, so
/// that the shell takes it literally.
pub fn pasted(s: &str) -> (r: String)
    ensures
        r@ == "\x1b[200~"@ + s@ + "\x1b[201~"@,
{
    let mut r: String = "\x1b[200~".to_owned();
    r.append(s);
    r.append("\x1b[201~");
    r
}

/// The pane in the tag of a shell is read back as that pane from what the
/// agents in it report.
pub proof fn law_pane_tag_is_read_back(pane: usize)
    requires
        pane <= i64::MAX,
    ensures
        text::small_integer(text::decimal(pane as nat)) == Some(pane as i64),
{
    text::lemma_decimal_read_back(pane as nat);
    text::lemma_decimal_digits(pane as nat);
    assert('0' <= text::decimal(pane as nat)[0] <= '9');
}

proof fn lemma_runs_text_front(r: RunView, rest: Seq<RunView>)
    ensures
        runs_text(seq![r] + rest) == r.text + runs_text(rest),
    decreases rest.len(),
{
    let all = seq![r] + rest;
    if rest.len() == 0 {
        assert(all.drop_last() =~= seq![]);
        assert(runs_text(all.drop_last()) =~= seq![]);
        assert(runs_text(all) =~= r.text);
        assert(r.text + runs_text(rest) =~= r.text);
    } else {
        lemma_runs_text_front(r, rest.drop_last());
        assert(all.drop_last() =~= seq![r] + rest.drop_last());
        assert(r.text + runs_text(rest.drop_last()) + rest.last().text =~= r.text + runs_text(
            rest,
        ));
    }
}

proof fn lemma_run_len_means(cells: Seq<Cell>)
    requires
        cells.len() > 0,
    ensures
        1 <= run_len(cells) <= cells.len(),
        forall|j: int|
            0 <= j < run_len(cells) ==> same_colors(look(cells[0]), look(#[trigger] cells[j])),
        run_len(cells) < cells.len() ==> !same_colors(
            look(cells[0]),
            look(cells[run_len(cells) as int]),
        ),
    decreases cells.len(),
{
    if cells.len() > 1 && same_colors(look(cells[0]), look(cells[1])) {
        let t = cells.drop_first();
        lemma_run_len_means(t);
        assert forall|j: int| 0 <= j < run_len(cells) implies same_colors(
            look(cells[0]),
            look(#[trigger] cells[j]),
        ) by {
            if j > 0 {
                assert(t[j - 1] == cells[j]);
            }
        }
        if run_len(cells) < cells.len() {
            assert(t[run_len(t) as int] == cells[run_len(cells) as int]);
        }
    }
}

/// Cutting a row into runs loses no character, and leaves no gap between two
/// runs.
pub proof fn law_runs_keep_the_row(cells: Seq<Cell>, col: nat)
    ensures
        runs_text(runs_of(cells, col)) == cells_text(cells),
        cells.len() > 0 ==> runs_of(cells, col).len() > 0 && runs_of(cells, col)[0].col_start
            == col,
        forall|i: int, j: int|
            0 <= i < j < runs_of(cells, col).len() && j == i + 1 ==> (#[trigger] runs_of(
                cells,
                col,
            )[j]).col_start == (#[trigger] runs_of(cells, col)[i]).col_start + runs_of(
                cells,
                col,
            )[i].text.len(),
    decreases cells.len(),
{
    if cells.len() == 0 {
        assert(cells_text(cells) =~= seq![]);
    } else {
        lemma_lens(cells);
        let n = run_len(cells) as int;
        let rest = runs_of(cells.skip(n), (col + n) as nat);
        let all = runs_of(cells, col);
        let first = all[0];
        law_runs_keep_the_row(cells.skip(n), (col + n) as nat);
        assert(all =~= seq![first] + rest);
        lemma_runs_text_front(first, rest);
        assert(cells_text(cells.take(n)) + cells_text(cells.skip(n)) =~= cells_text(cells));
        assert forall|i: int, j: int| 0 <= i < j < all.len() && j == i + 1 implies (
        #[trigger] all[j]).col_start == (#[trigger] all[i]).col_start + all[i].text.len() by {
            assert(all[j] == rest[i]);
            if i > 0 {
                assert(all[i] == rest[i - 1]);
            } else {
                if cells.skip(n).len() == 0 {
                    assert(rest =~= seq![]);
                }
                assert(first.text.len() == n);
            }
        }
    }
}

/// Runs are as long as they can be: two neighbours never have the same colors.
pub proof fn law_runs_are_maximal(cells: Seq<Cell>, col: nat, i: int)
    requires
        0 <= i < runs_of(cells, col).len() - 1,
    ensures
        runs_of(cells, col)[i].fg != runs_of(cells, col)[i + 1].fg || runs_of(cells, col)[i].bg
            != runs_of(cells, col)[i + 1].bg,
    decreases cells.len(),
{
    lemma_lens(cells);
    lemma_run_len_means(cells);
    let n = run_len(cells) as int;
    let rest = runs_of(cells.skip(n), (col + n) as nat);
    let all = runs_of(cells, col);
    assert(all =~= seq![all[0]] + rest);
    if i == 0 {
        assert(all[1] == rest[0]);
        assert(cells.skip(n).len() > 0);
        assert(cells.skip(n)[0] == cells[n]);
    } else {
        law_runs_are_maximal(cells.skip(n), (col + n) as nat, i - 1);
        assert(all[i] == rest[i - 1]);
        assert(all[i + 1] == rest[i]);
    }
}

/// Panes that show the same have the same hash, whatever produced it: what is
/// drawn of each cell, how far the view is scrolled, and where the cursor is.
pub proof fn law_same_content_same_hash(
    a: Seq<Cell>,
    b: Seq<Cell>,
    display_offset: usize,
    cursor: Option<(usize, usize)>,
)
    requires
        a.map_values(|c: Cell| look(c)) == b.map_values(|c: Cell| look(c)),
    ensures
        content_writes(a, display_offset, cursor) == content_writes(b, display_offset, cursor),
{
    lemma_same_writes(a, b);
}

proof fn lemma_same_writes(a: Seq<Cell>, b: Seq<Cell>)
    requires
        a.map_values(|c: Cell| look(c)) == b.map_values(|c: Cell| look(c)),
    ensures
        cells_writes(a) == cells_writes(b),
    decreases a.len(),
{
    let la = a.map_values(|c: Cell| look(c));
    let lb = b.map_values(|c: Cell| look(c));
    assert(a.len() == la.len() && b.len() == lb.len());
    if a.len() > 0 {
        assert(la[a.len() - 1] == lb[b.len() - 1]);
        assert forall|i: int| 0 <= i < a.len() - 1 implies look(a[i]) == look(b[i]) by {
            assert(la[i] == look(a[i]));
            assert(lb[i] == look(b[i]));
        }
        assert(a.drop_last().map_values(|c: Cell| look(c)) =~= b.drop_last().map_values(
            |c: Cell| look(c),
        ));
        lemma_same_writes(a.drop_last(), b.drop_last());
    }
}

/// What is shown as selected lies in the rows that are seen, from a column to
/// one that is not before it, with at most one stretch in each row, from the top
/// down.
pub proof fn law_selection_is_in_view(
    sel: SelectionRange,
    line: int,
    display_offset: int,
    rows: int,
    columns: int,
)
    ensures
        forall|i: int|
            0 <= i < spans_from(sel, line, display_offset, rows, columns).len() ==> {
                let span = #[trigger] spans_from(sel, line, display_offset, rows, columns)[i];
                0 <= span.0 < rows && span.0 >= line + display_offset && span.1 <= span.2
            },
        forall|i: int, j: int|
            0 <= i < j < spans_from(sel, line, display_offset, rows, columns).len() ==> (
            #[trigger] spans_from(sel, line, display_offset, rows, columns)[i]).0 < (
            #[trigger] spans_from(sel, line, display_offset, rows, columns)[j]).0,
    decreases sel.end_line - line + 1,
{
    if line <= sel.end_line {
        law_selection_is_in_view(sel, line + 1, display_offset, rows, columns);
        let rest = spans_from(sel, line + 1, display_offset, rows, columns);
        let all = spans_from(sel, line, display_offset, rows, columns);
        if let Some(span) = span_on(sel, line, display_offset, rows, columns) {
            assert(all =~= seq![span] + rest);
            assert forall|i: int, j: int| 0 <= i < j < all.len() implies (#[trigger] all[i]).0 < (
            #[trigger] all[j]).0 by {
                assert(all[j] == rest[j - 1]);
                if i > 0 {
                    assert(all[i] == rest[i - 1]);
                }
            }
        }
    }
}

/// Whether a cell of the view lies in one of the spans.
pub open spec fn covered(spans: Seq<(int, int, int)>, row: int, column: int) -> bool {
    exists|i: int|
        0 <= i < spans.len() && (#[trigger] spans[i]).0 == row && spans[i].1 <= column
            <= spans[i].2
}

proof fn lemma_covered(
    sel: SelectionRange,
    line: int,
    display_offset: int,
    rows: int,
    columns: int,
    row: int,
    column: int,
)
    requires
        0 <= row < rows,
        0 <= column < columns,
    ensures
        covered(spans_from(sel, line, display_offset, rows, columns), row, column) <==> {
            let l = row - display_offset;
            &&& line <= l <= sel.end_line
            &&& l == sel.start_line ==> sel.start_column <= column
            &&& l == sel.end_line ==> column <= sel.end_column
        },
    decreases sel.end_line - line + 1,
{
    let all = spans_from(sel, line, display_offset, rows, columns);
    if line <= sel.end_line {
        let rest = spans_from(sel, line + 1, display_offset, rows, columns);
        lemma_covered(sel, line + 1, display_offset, rows, columns, row, column);
        match span_on(sel, line, display_offset, rows, columns) {
            Some(span) => {
                assert(all =~= seq![span] + rest);
                assert(all[0] == span);
                if covered(rest, row, column) {
                    let i = choose|i: int|
                        0 <= i < rest.len() && (#[trigger] rest[i]).0 == row && rest[i].1 <= column
                            <= rest[i].2;
                    assert(all[i + 1] == rest[i]);
                }
                if covered(all, row, column) {
                    let i = choose|i: int|
                        0 <= i < all.len() && (#[trigger] all[i]).0 == row && all[i].1 <= column
                            <= all[i].2;
                    if i > 0 {
                        assert(rest[i - 1] == all[i]);
                    }
                }
            },
            None => {},
        }
    }
}

/// A cell of the view is shown as selected exactly where it is, in the order of
/// reading, not before the first and not behind the last cell of the selection:
/// of the first line from the first cell on, of the last line up to the last
/// cell, and all of the lines in between.
pub proof fn law_selected_cells_are_shown(view: TermView, row: int, column: int)
    requires
        0 <= row < view.rows,
        0 <= column < view.columns,
    ensures
        view.selection is None ==> !covered(visible_selection(view), row, column),
        view.selection matches Some(sel) ==> (covered(visible_selection(view), row, column) <==> {
            let line = row - view.display_offset;
            &&& line > sel.start_line || (line == sel.start_line && column >= sel.start_column)
            &&& line < sel.end_line || (line == sel.end_line && column <= sel.end_column)
        }),
{
    if let Some(sel) = view.selection {
        lemma_covered(
            sel,
            sel.start_line as int,
            view.display_offset as int,
            view.rows as int,
            view.columns as int,
            row,
            column,
        );
    }
}

/// Every cell of a row is drawn in its place: in one of the runs, as its
/// character and in its two colors.
pub proof fn law_every_cell_is_drawn(cells: Seq<Cell>, col: nat, k: int)
    requires
        0 <= k < cells.len(),
    ensures
        exists|i: int|
            0 <= i < runs_of(cells, col).len() && {
                let run = #[trigger] runs_of(cells, col)[i];
                &&& run.col_start <= col + k < run.col_start + run.text.len()
                &&& run.text[col + k - run.col_start] == look(cells[k]).ch
                &&& run.fg == look(cells[k]).fg
                &&& run.bg == look(cells[k]).bg
            },
    decreases cells.len(),
{
    lemma_run_len_means(cells);
    let n = run_len(cells) as int;
    let rest = runs_of(cells.skip(n), (col + n) as nat);
    let all = runs_of(cells, col);
    assert(all =~= seq![all[0]] + rest);
    if k < n {
        assert(same_colors(look(cells[0]), look(cells[k])));
        assert(all[0].text[k] == look(cells.take(n)[k]).ch);
        assert(all[0].col_start == col);
    } else {
        let t = cells.skip(n);
        law_every_cell_is_drawn(t, (col + n) as nat, k - n);
        assert(t[k - n] == cells[k]);
        let i = choose|i: int|
            0 <= i < rest.len() && {
                let run = #[trigger] rest[i];
                &&& run.col_start <= col + n + (k - n) < run.col_start + run.text.len()
                &&& run.text[col + n + (k - n) - run.col_start] == look(t[k - n]).ch
                &&& run.fg == look(t[k - n]).fg
                &&& run.bg == look(t[k - n]).bg
            };
        assert(all[i + 1] == rest[i]);
    }
}

/// A cell is drawn as its character, but an empty one as a space; in its own
/// colors, bold or not; in reverse with the two swapped; and dim with a darker
/// foreground and the background as it is.
pub proof fn law_cells_look_as_they_say(cell: Cell)
    ensures
        cell.c != '\0' ==> look(cell).ch == cell.c,
        cell.c == '\0' ==> look(cell).ch == ' ',
        !cell.inverse && !cell.dim ==> look(cell).fg == color::resolved_fg(cell.fg, cell.bold)
            && look(cell).bg == color::resolved(cell.bg),
        ({
            let plain = Cell { inverse: false, dim: false, ..cell };
            let front = if cell.inverse {
                look(plain).bg
            } else {
                look(plain).fg
            };
            let back = if cell.inverse {
                look(plain).fg
            } else {
                look(plain).bg
            };
            &&& look(cell).bg == back
            &&& !cell.dim ==> look(cell).fg == front
            &&& cell.dim ==> look(cell).fg.r == front.r as int * 7 / 10 && look(cell).fg.g
                == front.g as int * 7 / 10 && look(cell).fg.b == front.b as int * 7 / 10
        }),
{
}

proof fn lemma_row_len_means(cells: Seq<Cell>)
    requires
        cells.len() > 0,
    ensures
        1 <= row_len(cells) <= cells.len(),
        forall|j: int| 0 <= j < row_len(cells) ==> cells[0].line == (#[trigger] cells[j]).line,
        row_len(cells) < cells.len() ==> cells[0].line != cells[row_len(cells) as int].line,
    decreases cells.len(),
{
    if cells.len() > 1 && cells[0].line == cells[1].line {
        let t = cells.drop_first();
        lemma_row_len_means(t);
        assert forall|j: int| 0 <= j < row_len(cells) implies cells[0].line == (
        #[trigger] cells[j]).line by {
            if j > 0 {
                assert(t[j - 1] == cells[j]);
            }
        }
        if row_len(cells) < cells.len() {
            assert(t[row_len(t) as int] == cells[row_len(cells) as int]);
        }
    }
}

/// The rows are the lines of the grid, each with all of its cells, in order:
/// where the first line of the view has the cells `a` and others follow, the
/// first row is that of `a` and the other rows are those of the others. The
/// cursor's row counts the same way.
pub proof fn law_rows_are_lines(a: Seq<Cell>, b: Seq<Cell>, line: i32)
    requires
        a.len() > 0,
        forall|j: int| 0 <= j < a.len() ==> (#[trigger] a[j]).line == a[0].line,
        b.len() > 0 ==> b[0].line != a[0].line,
    ensures
        rows_of(a + b).len() == 1 + rows_of(b).len(),
        rows_of(a + b)[0] == runs_of(a, 0),
        rows_of(a + b).skip(1) == rows_of(b),
        rows_of(seq![]) == Seq::<Seq<RunView>>::empty(),
        a[0].line == line ==> row_at(a + b, line) == Some(0nat),
        a[0].line != line ==> row_at(a + b, line) == (match row_at(b, line) {
            Some(r) => Some(r + 1),
            None => None,
        }),
{
    let cells = a + b;
    assert forall|j: int| 0 <= j < a.len() implies cells[0].line == (#[trigger] cells[j]).line by {
        assert(cells[j] == a[j]);
    }
    lemma_row_len_is(cells, a.len() as int);
    assert(cells.take(a.len() as int) =~= a);
    assert(cells.skip(a.len() as int) =~= b);
    assert(rows_of(cells) =~= seq![runs_of(a, 0)] + rows_of(b));
    assert(rows_of(cells).skip(1) =~= rows_of(b));
    assert(cells[0] == a[0]);
}

/// The cursor has a row exactly where a visible cell is on its line, and then
/// stands in its own column of that row.
pub proof fn law_the_cursor_is_on_its_line(cells: Seq<Cell>, line: i32)
    ensures
        row_at(cells, line) is Some <==> exists|k: int|
            0 <= k < cells.len() && (#[trigger] cells[k]).line == line,
        row_at(cells, line) matches Some(r) ==> r < rows_of(cells).len(),
    decreases cells.len(),
{
    if cells.len() > 0 {
        lemma_row_len_means(cells);
        let n = row_len(cells) as int;
        let t = cells.skip(n);
        law_the_cursor_is_on_its_line(t, line);
        if exists|k: int| 0 <= k < t.len() && (#[trigger] t[k]).line == line {
            let k = choose|k: int| 0 <= k < t.len() && (#[trigger] t[k]).line == line;
            assert(cells[k + n].line == line);
        }
        if exists|k: int| 0 <= k < cells.len() && (#[trigger] cells[k]).line == line {
            let k = choose|k: int| 0 <= k < cells.len() && (#[trigger] cells[k]).line == line;
            if k >= n {
                assert(t[k - n].line == line);
            }
        }
        if cells[0].line == line {
            assert(cells[0].line == line);
        }
    }
}

/// The cursor is shown in its own column, in the row of its line, where that is
/// one of the rows that the pane shows.
pub proof fn law_the_cursor_keeps_its_column(view: TermView)
    ensures
        cursor_cell(view) matches Some(p) ==> p.0 == view.cursor_column && p.1 < view.rows
            && row_at(view.cells@, view.cursor_line) == Some(p.1 as nat),
        cursor_cell(view) is None ==> (row_at(view.cells@, view.cursor_line) matches Some(r)
            ==> r >= view.rows),
{
}

proof fn lemma_cell_writes_apart(a: Look, b: Look)
    requires
        cell_writes(a) == cell_writes(b),
    ensures
        a == b,
{
    vstd::bytes::lemma_auto_spec_u32_to_from_le_bytes();
    let x = cell_writes(a);
    let y = cell_writes(b);
    assert(x[0] == y[0] && x[1] == y[1]);
    let ca = seq![a.fg.r, a.fg.g, a.fg.b, a.bg.r, a.bg.g, a.bg.b];
    let cb = seq![b.fg.r, b.fg.g, b.fg.b, b.bg.r, b.bg.g, b.bg.b];
    assert(ca[0] == cb[0] && ca[1] == cb[1] && ca[2] == cb[2] && ca[3] == cb[3] && ca[4] == cb[4]
        && ca[5] == cb[5]);
    let na = a.ch as u32;
    let nb = b.ch as u32;
    assert(x[0] == vstd::bytes::spec_u32_to_le_bytes(na));
    assert(y[0] == vstd::bytes::spec_u32_to_le_bytes(nb));
    assert(vstd::bytes::spec_u32_to_le_bytes(na).len() == 4);
    assert(vstd::bytes::spec_u32_to_le_bytes(nb).len() == 4);
    assert(na == nb);
}

proof fn lemma_cells_writes_len(cells: Seq<Cell>)
    ensures
        cells_writes(cells).len() == 2 * cells.len(),
    decreases cells.len(),
{
    if cells.len() > 0 {
        lemma_cells_writes_len(cells.drop_last());
    }
}

proof fn lemma_cells_writes_apart(a: Seq<Cell>, b: Seq<Cell>)
    requires
        cells_writes(a) == cells_writes(b),
    ensures
        a.len() == b.len(),
        forall|k: int| 0 <= k < a.len() ==> look(#[trigger] a[k]) == look(b[k]),
    decreases a.len(),
{
    lemma_cells_writes_len(a);
    lemma_cells_writes_len(b);
    if a.len() > 0 {
        let n = 2 * (a.len() - 1);
        lemma_cells_writes_len(a.drop_last());
        lemma_cells_writes_len(b.drop_last());
        assert(cells_writes(a).take(n) =~= cells_writes(a.drop_last()));
        assert(cells_writes(b).take(n) =~= cells_writes(b.drop_last()));
        assert(cells_writes(a).skip(n) =~= cell_writes(look(a.last())));
        assert(cells_writes(b).skip(n) =~= cell_writes(look(b.last())));
        lemma_cell_writes_apart(look(a.last()), look(b.last()));
        lemma_cells_writes_apart(a.drop_last(), b.drop_last());
        assert forall|k: int| 0 <= k < a.len() implies look(#[trigger] a[k]) == look(b[k]) by {
            if k < a.len() - 1 {
                assert(a.drop_last()[k] == a[k]);
                assert(b.drop_last()[k] == b[k]);
            }
        }
    }
}

/// All that is visible goes into the hash: views that differ in what is drawn of
/// a cell, in how far they are scrolled or in the cursor are fed to the hasher
/// differently.
pub proof fn law_all_that_is_visible_is_hashed(
    a: Seq<Cell>,
    offset_a: usize,
    cursor_a: Option<(usize, usize)>,
    b: Seq<Cell>,
    offset_b: usize,
    cursor_b: Option<(usize, usize)>,
)
    requires
        content_writes(a, offset_a, cursor_a) == content_writes(b, offset_b, cursor_b),
    ensures
        a.len() == b.len(),
        forall|k: int| 0 <= k < a.len() ==> look(#[trigger] a[k]) == look(b[k]),
        offset_a == offset_b,
        cursor_a == cursor_b,
{
    vstd::bytes::lemma_auto_spec_u64_to_from_le_bytes();
    let x = content_writes(a, offset_a, cursor_a);
    let y = content_writes(b, offset_b, cursor_b);
    lemma_cells_writes_len(a);
    lemma_cells_writes_len(b);
    assert(x[0] == vstd::bytes::spec_u64_to_le_bytes(offset_a as u64));
    assert(y[0] == vstd::bytes::spec_u64_to_le_bytes(offset_b as u64));
    let n = x.len() as int;
    assert(x.last() == cursor_writes(cursor_a).last());
    assert(y.last() == cursor_writes(cursor_b).last());
    assert(cursor_a is None <==> x.last().len() == 1);
    assert(cursor_b is None <==> y.last().len() == 1);
    let m = cursor_writes(cursor_a).len() as int;
    assert(x.subrange(1, n - m) =~= cells_writes(a));
    assert(y.subrange(1, n - m) =~= cells_writes(b));
    lemma_cells_writes_apart(a, b);
    if cursor_a is Some {
        assert(x[n - 2] == cursor_writes(cursor_a)[1]);
        assert(y[n - 2] == cursor_writes(cursor_b)[1]);
        assert(x[n - 1] == cursor_writes(cursor_a)[2]);
        assert(y[n - 1] == cursor_writes(cursor_b)[2]);
        let p = cursor_a->0;
        let q = cursor_b->0;
        assert(p.0 as u64 == q.0 as u64);
        assert(p.1 as u64 == q.1 as u64);
    }
}

/// A line of the scrollback is told as what its cells show, up to the last that
/// is not blank.
pub proof fn law_lines_are_told_up_to_their_blanks(row: Seq<char>)
    ensures
        line_text(row).len() <= row.len(),
        forall|k: int|
            0 <= k < line_text(row).len() ==> #[trigger] line_text(row)[k] == (if row[k] == '\0' {
                ' '
            } else {
                row[k]
            }),
        forall|k: int|
            line_text(row).len() <= k < row.len() ==> #[trigger] row[k] == '\0' || text::is_white(
                row[k],
            ),
        line_text(row).len() > 0 ==> !text::is_white(line_text(row).last()),
{
    let s = row.map_values(|c: char| shown(c));
    text::law_trimming_the_end(s);
    assert forall|k: int| line_text(row).len() <= k < row.len() implies #[trigger] row[k] == '\0'
        || text::is_white(row[k]) by {
        assert(text::is_white(s[k]));
    }
}

/// The scrollback is told line by line, all of them in order, each with a line
/// feed behind it.
pub proof fn law_all_lines_are_told(a: Seq<Seq<char>>, b: Seq<Seq<char>>, row: Seq<char>)
    ensures
        lines_text(a + b) == lines_text(a) + lines_text(b),
        lines_text(seq![row]) == line_text(row).push('\n'),
        lines_text(seq![]) == Seq::<char>::empty(),
    decreases b.len(),
{
    assert(seq![row].drop_last() =~= Seq::<Seq<char>>::empty());
    assert(lines_text(Seq::<Seq<char>>::empty()) =~= Seq::<char>::empty());
    assert(lines_text(seq![row]) == lines_text(seq![row].drop_last()) + line_text(row).push('\n'));
    assert(lines_text(seq![row]) =~= line_text(row).push('\n'));
    if b.len() == 0 {
        assert(a + b =~= a);
        assert(lines_text(a) + lines_text(b) =~= lines_text(a));
    } else {
        law_all_lines_are_told(a, b.drop_last(), row);
        assert((a + b).drop_last() =~= a + b.drop_last());
        assert(lines_text(a) + (lines_text(b.drop_last()) + line_text(b.last()).push('\n'))
            =~= lines_text(a) + lines_text(b.drop_last()) + line_text(b.last()).push('\n'));
    }
}

/// The shells of two panes are tagged differently, and are told of the collector
/// at its own port; what every shell is told does not depend on either.
pub proof fn law_panes_are_tagged_apart(port: nat, pane: nat, other_port: nat, other: nat)
    ensures
        pane != other ==> pane_tag(pane) != pane_tag(other),
        port != other_port ==> collector_url(port) != collector_url(other_port),
        telemetry_env(port, pane).contains(("OTEL_RESOURCE_ATTRIBUTES"@, pane_tag(pane))),
        telemetry_env(port, pane).contains(
            ("OTEL_EXPORTER_OTLP_ENDPOINT"@, collector_url(port)),
        ),
        telemetry_env(port, pane).contains(
            ("OTEL_EXPORTER_OTLP_METRICS_ENDPOINT"@, collector_url(port) + "/v1/metrics"@),
        ),
        telemetry_env(port, pane).len() == telemetry_env(other_port, other).len(),
        forall|i: int|
            0 <= i < telemetry_env(port, pane).len() ==> (#[trigger] telemetry_env(port, pane)[i]).0
                == telemetry_env(other_port, other)[i].0,
{
    text::lemma_decimal_read_back(port);
    text::lemma_decimal_read_back(other_port);
    text::lemma_decimal_read_back(pane);
    text::lemma_decimal_read_back(other);
    let n = "gridterm.pane="@.len() as int;
    let m = "http://127.0.0.1:"@.len() as int;
    assert(pane_tag(pane).skip(n) =~= text::decimal(pane));
    assert(pane_tag(other).skip(n) =~= text::decimal(other));
    assert(collector_url(port).skip(m) =~= text::decimal(port));
    assert(collector_url(other_port).skip(m) =~= text::decimal(other_port));
    let env = telemetry_env(port, pane);
    assert(env[7] == ("OTEL_RESOURCE_ATTRIBUTES"@, pane_tag(pane)));
    assert(env[4] == ("OTEL_EXPORTER_OTLP_ENDPOINT"@, collector_url(port)));
    assert(env[5] == (
        "OTEL_EXPORTER_OTLP_METRICS_ENDPOINT"@,
        collector_url(port) + "/v1/metrics"@,
    ));
}

/// As many lines are read as were asked for, or all of them where there are not
/// so many.
pub proof fn law_as_many_lines_as_asked(total: nat, lines: nat)
    ensures
        lines <= total ==> last_lines(total as int, lines as int) == lines,
        lines >= total ==> last_lines(total as int, lines as int) == total,
{
}

/// Programs in a pane are told to report their usage every five seconds, over
/// plain HTTP, with the tag of the pane; and what kind of terminal it is.
pub proof fn law_programs_are_told_to_report(port: nat, pane: nat)
    ensures
        ({
            let env = telemetry_env(port, pane);
            &&& env.contains(("CLAUDE_CODE_ENABLE_TELEMETRY"@, "1"@))
            &&& env.contains(("CODEX_ENABLE_TELEMETRY"@, "1"@))
            &&& env.contains(("OTEL_METRICS_EXPORTER"@, "otlp"@))
            &&& env.contains(("OTEL_EXPORTER_OTLP_PROTOCOL"@, "http/json"@))
            &&& env.contains(("OTEL_METRICS_INCLUDE_RESOURCE_ATTRIBUTES"@, "true"@))
            &&& env.contains(("OTEL_METRIC_EXPORT_INTERVAL"@, "5000"@))
            &&& terminal_env().contains(("TERM"@, "xterm-256color"@))
            &&& terminal_env().contains(("COLORTERM"@, "truecolor"@))
            &&& terminal_env().contains(("TERM_PROGRAM"@, "gridterm"@))
        }),
{
    let env = telemetry_env(port, pane);
    assert(env[0] == ("CLAUDE_CODE_ENABLE_TELEMETRY"@, "1"@));
    assert(env[1] == ("CODEX_ENABLE_TELEMETRY"@, "1"@));
    assert(env[2] == ("OTEL_METRICS_EXPORTER"@, "otlp"@));
    assert(env[3] == ("OTEL_EXPORTER_OTLP_PROTOCOL"@, "http/json"@));
    assert(env[6] == ("OTEL_METRICS_INCLUDE_RESOURCE_ATTRIBUTES"@, "true"@));
    assert(env[8] == ("OTEL_METRIC_EXPORT_INTERVAL"@, "5000"@));
    assert(terminal_env()[0] == ("TERM"@, "xterm-256color"@));
    assert(terminal_env()[1] == ("COLORTERM"@, "truecolor"@));
    assert(terminal_env()[2] == ("TERM_PROGRAM"@, "gridterm"@));
}

} // verus!
