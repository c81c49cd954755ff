//! What is drawn, in cells, bytes and colors: the text of a pane with its
//! colors, the boxes behind and over it, and the texts of the chat panel. How
//! large a cell is, and where it lies on the screen, is the renderer's.

use vstd::prelude::*;

use crate::ai_ui::{ChatState, Role};
use crate::bytes;
use crate::bytes::{index_at, offset_of, text_len};
use crate::color::{default_bg, Rgba};
use crate::pty;
use crate::pty::{RowRuns, Snapshot};
use crate::rounding;
use crate::rounding::compact_tokens;
use crate::text;
use crate::text::{find_char, from_chars, to_chars};
use crate::usage::BillingMode;

verus! {

/// A piece of text in one color; without one, in the color that text has by
/// default.
pub struct Span {
    pub text: String,
    pub color: Option<Rgba>,
}

impl View for Span {
    type V = (Seq<char>, Option<Rgba>);

    open spec fn view(&self) -> (Seq<char>, Option<Rgba>) {
        (self.text@, self.color)
    }
}

/// What pieces hold.
pub open spec fn span_views(spans: Seq<Span>) -> Seq<(Seq<char>, Option<Rgba>)> {
    spans.map_values(|s: Span| s@)
}

/// Pieces, and text behind them that has no color yet.
pub ghost struct Painted {
    pub spans: Seq<(Seq<char>, Option<Rgba>)>,
    pub rest: Seq<char>,
}

impl Painted {
    /// The text without a color becomes a piece, unless there is none.
    pub open spec fn closed(self) -> Seq<(Seq<char>, Option<Rgba>)> {
        if self.rest.len() > 0 {
            self.spans.push((self.rest, None))
        } else {
            self.spans
        }
    }

    /// Text without a color comes behind.
    pub open spec fn plus(self, s: Seq<char>) -> Painted {
        Painted { spans: self.spans, rest: self.rest + s }
    }

    /// A run comes behind.
    pub open spec fn run(self, r: pty::RunView) -> Painted {
        Painted { spans: self.closed().push((r.text, Some(r.fg))), rest: seq![] }
    }

    /// Runs come behind, one after the other.
    pub open spec fn runs(self, runs: Seq<pty::RunView>) -> Painted
        decreases runs.len(),
    {
        if runs.len() == 0 {
            self
        } else {
            self.runs(runs.drop_last()).run(runs.last())
        }
    }
}

/// Rows, one line each; the ends of lines between them have no color.
pub open spec fn painted(rows: Seq<Seq<pty::RunView>>) -> Painted
    decreases rows.len(),
{
    if rows.len() == 0 {
        Painted { spans: seq![], rest: seq![] }
    } else {
        let above = painted(rows.drop_last());
        (if rows.len() > 1 {
            above.plus("\n"@)
        } else {
            above
        }).runs(rows.last())
    }
}

fn close_span(spans: &mut Vec<Span>, rest: String)
    ensures
        span_views(final(spans)@) == (Painted {
            spans: span_views(old(spans)@),
            rest: rest@,
        }).closed(),
{
    let ghost before = span_views(spans@);
    if !rest.as_str().is_empty() {
        spans.push(Span { text: rest, color: None });
        assert(span_views(spans@) =~= before.push((rest@, None)));
    }
}

/// The text of a pane in pieces of one color each.
pub fn pane_spans(rows: &Vec<RowRuns>) -> (r: Vec<Span>)
    ensures
        span_views(r@) == painted(pty::row_views(rows@)).closed(),
{
    let mut spans: Vec<Span> = Vec::new();
    let mut rest: String = String::new();
    let n: usize = rows.len();
    let ghost all = pty::row_views(rows@);
    let mut i: usize = 0;
    proof {
        assert(span_views(spans@) =~= seq![]);
        assert(rest@ =~= seq![]);
    }
    while i < n
        invariant
            i <= n,
            n == rows.len(),
            all == pty::row_views(rows@),
            painted(all.take(i as int)) == (Painted { spans: span_views(spans@), rest: rest@ }),
        decreases n - i,
    {
        proof {
            assert(all.take(i + 1).drop_last() =~= all.take(i as int));
            assert(all.take(i + 1).last() == rows@[i as int]@);
        }
        if i > 0 {
            rest.append("\n");
        }
        let ghost above = Painted { spans: span_views(spans@), rest: rest@ };
        let m: usize = rows[i].runs.len();
        let ghost runs = rows@[i as int]@;
        let mut j: usize = 0;
        assert(above.runs(runs.take(0)) == above);
        while j < m
            invariant
                i < n,
                n == rows.len(),
                j <= m,
                m == rows@[i as int].runs.len(),
                runs == rows@[i as int]@,
                above.runs(runs.take(j as int)) == (Painted {
                    spans: span_views(spans@),
                    rest: rest@,
                }),
            decreases m - j,
        {
            proof {
                assert(runs.take(j + 1).drop_last() =~= runs.take(j as int));
                assert(runs.take(j + 1).last() == rows@[i as int].runs@[j as int]@);
            }
            close_span(&mut spans, rest);
            let ghost before = span_views(spans@);
            let run = &rows[i].runs[j];
            spans.push(Span { text: run.text.clone(), color: Some(run.fg) });
            rest = String::new();
            proof {
                assert(span_views(spans@) =~= before.push((run@.text, Some(run@.fg))));
                assert(rest@ =~= seq![]);
            }
            j = j + 1;
        }
        assert(runs.take(m as int) =~= runs);
        i = i + 1;
    }
    assert(all.take(n as int) =~= all);
    close_span(&mut spans, rest);
    spans
}

/// The text of pieces one behind the other.
pub open spec fn spans_text(spans: Seq<(Seq<char>, Option<Rgba>)>) -> Seq<char>
    decreases spans.len(),
{
    if spans.len() == 0 {
        seq![]
    } else {
        spans_text(spans.drop_last()) + spans.last().0
    }
}

/// The text of rows, with the end of a line between two.
pub open spec fn rows_joined(rows: Seq<Seq<pty::RunView>>) -> Seq<char>
    decreases rows.len(),
{
    if rows.len() == 0 {
        seq![]
    } else if rows.len() == 1 {
        pty::runs_text(rows[0])
    } else {
        rows_joined(rows.drop_last()) + "\n"@ + pty::runs_text(rows.last())
    }
}

proof fn lemma_closed_text(p: Painted)
    ensures
        spans_text(p.closed()) == spans_text(p.spans) + p.rest,
{
    if p.rest.len() > 0 {
        assert(p.closed().drop_last() =~= p.spans);
    } else {
        assert(spans_text(p.spans) + p.rest =~= spans_text(p.spans));
    }
}

proof fn lemma_runs_text(p: Painted, runs: Seq<pty::RunView>)
    ensures
        spans_text(p.runs(runs).spans) + p.runs(runs).rest == spans_text(p.spans) + p.rest
            + pty::runs_text(runs),
    decreases runs.len(),
{
    if runs.len() == 0 {
        assert(spans_text(p.spans) + p.rest + pty::runs_text(runs) =~= spans_text(p.spans) + p.rest);
    } else {
        let q = p.runs(runs.drop_last());
        lemma_runs_text(p, runs.drop_last());
        lemma_closed_text(q);
        let r = q.run(runs.last());
        assert(r.spans.drop_last() =~= q.closed());
        assert(spans_text(r.spans) + r.rest =~= spans_text(q.closed()) + runs.last().text);
        assert(spans_text(p.spans) + p.rest + pty::runs_text(runs) =~= spans_text(p.spans) + p.rest
            + pty::runs_text(runs.drop_last()) + runs.last().text);
    }
}

/// No text is lost in cutting a pane into pieces: one behind the other they are
/// the rows, with the end of a line between two.
pub proof fn law_spans_keep_the_text(rows: Seq<Seq<pty::RunView>>)
    ensures
        spans_text(painted(rows).closed()) == rows_joined(rows),
    decreases rows.len(),
{
    lemma_closed_text(painted(rows));
    if rows.len() > 0 {
        let above = painted(rows.drop_last());
        law_spans_keep_the_text(rows.drop_last());
        lemma_closed_text(above);
        if rows.len() > 1 {
            lemma_runs_text(above.plus("\n"@), rows.last());
            assert(spans_text(above.spans) + (above.rest + "\n"@) =~= spans_text(above.spans)
                + above.rest + "\n"@);
        } else {
            assert(rows.drop_last() =~= seq![]);
            lemma_runs_text(above, rows.last());
            assert(spans_text(above.spans) + above.rest + pty::runs_text(rows.last())
                =~= pty::runs_text(rows.last()));
        }
    } else {
        assert(spans_text(painted(rows).spans) + painted(rows).rest =~= seq![]);
    }
}

// ---- boxes of a pane --------------------------------------------------------

/// A box that is drawn for a pane, in its cells.
#[derive(Clone, Copy, Debug, PartialEq, Eq, Structural)]
pub enum CellQuad {
    /// The background of cells in a row, where it is not the default one.
    Background { row: usize, col: usize, cells: usize, color: Rgba },
    /// The selected cells of a row, with the last of them.
    Selection { row: usize, first: usize, last: usize },
    /// The cursor.
    Cursor { row: usize, col: usize },
    /// The bar that shows which part of the lines is seen: `visible` of
    /// `total`, and `offset` of at most `max_offset` up from the newest.
    Scrollbar { total: usize, visible: usize, offset: usize, max_offset: usize },
}

/// The backgrounds of the runs of a row.
pub open spec fn row_backgrounds(row: usize, runs: Seq<pty::RunView>) -> Seq<CellQuad>
    decreases runs.len(),
{
    if runs.len() == 0 {
        seq![]
    } else {
        let before = row_backgrounds(row, runs.drop_last());
        let r = runs.last();
        if r.bg == default_bg() {
            before
        } else {
            before.push(
                CellQuad::Background {
                    row,
                    col: r.col_start as usize,
                    cells: r.text.len() as usize,
                    color: r.bg,
                },
            )
        }
    }
}

/// The backgrounds of rows.
pub open spec fn backgrounds(rows: Seq<Seq<pty::RunView>>) -> Seq<CellQuad>
    decreases rows.len(),
{
    if rows.len() == 0 {
        seq![]
    } else {
        backgrounds(rows.drop_last()) + row_backgrounds(
            (rows.len() - 1) as usize,
            rows.last(),
        )
    }
}

/// The selected cells.
pub open spec fn selections(spans: Seq<(usize, usize, usize)>) -> Seq<CellQuad> {
    spans.map_values(
        |s: (usize, usize, usize)| CellQuad::Selection { row: s.0, first: s.1, last: s.2 },
    )
}

/// The cursor, where it is seen and is a block.
pub open spec fn cursor_quad(snap: Snapshot) -> Seq<CellQuad> {
    match snap.cursor {
        Some((col, row)) => if snap.cursor_shape_block {
            seq![CellQuad::Cursor { row, col }]
        } else {
            seq![]
        },
        None => seq![],
    }
}

/// The bar, where there are more lines than are seen.
pub open spec fn scrollbar(snap: Snapshot) -> Seq<CellQuad> {
    if snap.total_lines > snap.screen_lines {
        seq![
            CellQuad::Scrollbar {
                total: snap.total_lines,
                visible: snap.screen_lines,
                offset: snap.scroll_offset,
                max_offset: (snap.total_lines - snap.screen_lines) as usize,
            },
        ]
    } else {
        seq![]
    }
}

/// The boxes of a pane, in the order in which they are drawn.
pub open spec fn pane_quads(snap: Snapshot) -> Seq<CellQuad> {
    backgrounds(pty::row_views(snap.rows@)) + selections(snap.selection_spans@) + cursor_quad(snap)
        + scrollbar(snap)
}

fn push_backgrounds(out: &mut Vec<CellQuad>, row: usize, runs: &RowRuns)
    ensures
        final(out)@ == old(out)@ + row_backgrounds(row, runs@),
{
    let ghost before = out@;
    let n: usize = runs.runs.len();
    let ghost all = runs@;
    let mut j: usize = 0;
    assert(before =~= before + row_backgrounds(row, all.take(0)));
    while j < n
        invariant
            j <= n,
            n == runs.runs.len(),
            all == runs@,
            out@ == before + row_backgrounds(row, all.take(j as int)),
        decreases n - j,
    {
        let run = &runs.runs[j];
        proof {
            assert(all.take(j + 1).drop_last() =~= all.take(j as int));
            assert(all.take(j + 1).last() == run@);
        }
        if run.bg != default_bg() {
            let cells: Vec<char> = to_chars(run.text.as_str());
            out.push(
                CellQuad::Background {
                    row,
                    col: run.col_start,
                    cells: cells.len(),
                    color: run.bg,
                },
            );
        }
        assert(out@ =~= before + row_backgrounds(row, all.take(j + 1)));
        j = j + 1;
    }
    assert(all.take(n as int) =~= all);
}

/// The boxes of a pane, in the order in which they are drawn.
pub fn pane_scene(snap: &Snapshot) -> (r: Vec<CellQuad>)
    ensures
        r@ == pane_quads(*snap),
{
    let mut out: Vec<CellQuad> = Vec::new();
    let n: usize = snap.rows.len();
    let ghost rows = pty::row_views(snap.rows@);
    let mut i: usize = 0;
    assert(out@ =~= backgrounds(rows.take(0)));
    while i < n
        invariant
            i <= n,
            n == snap.rows.len(),
            rows == pty::row_views(snap.rows@),
            out@ == backgrounds(rows.take(i as int)),
        decreases n - i,
    {
        proof {
            assert(rows.take(i + 1).drop_last() =~= rows.take(i as int));
            assert(rows.take(i + 1).last() == snap.rows@[i as int]@);
        }
        push_backgrounds(&mut out, i, &snap.rows[i]);
        i = i + 1;
    }
    assert(rows.take(n as int) =~= rows);
    let m: usize = snap.selection_spans.len();
    let mut k: usize = 0;
    let ghost spans = selections(snap.selection_spans@);
    assert(out@ =~= backgrounds(rows) + spans.take(0));
    while k < m
        invariant
            k <= m,
            m == snap.selection_spans.len(),
            spans == selections(snap.selection_spans@),
            out@ == backgrounds(rows) + spans.take(k as int),
        decreases m - k,
    {
        let s: (usize, usize, usize) = snap.selection_spans[k];
        out.push(CellQuad::Selection { row: s.0, first: s.1, last: s.2 });
        assert(spans.take(k + 1) =~= spans.take(k as int).push(spans[k as int]));
        assert(out@ =~= backgrounds(rows) + spans.take(k + 1));
        k = k + 1;
    }
    assert(spans.take(m as int) =~= spans);
    if let Some((col, row)) = snap.cursor {
        if snap.cursor_shape_block {
            out.push(CellQuad::Cursor { row, col });
        }
    }
    if snap.total_lines > snap.screen_lines {
        out.push(
            CellQuad::Scrollbar {
                total: snap.total_lines,
                visible: snap.screen_lines,
                offset: snap.scroll_offset,
                max_offset: snap.total_lines - snap.screen_lines,
            },
        );
    }
    assert(out@ =~= pane_quads(*snap));
    out
}

/// What the window remembers of a pane's text: whether there may be new text,
/// and the hash of the content that was laid out last.
pub struct PaneMark {
    pub text_dirty: bool,
    pub last_hash: u64,
}

impl PaneMark {
    /// A new pane has text to lay out.
    pub fn new() -> (r: Self)
        ensures
            r.text_dirty,
            r.last_hash == 0,
    {
        PaneMark { text_dirty: true, last_hash: 0 }
    }

    /// Takes note of whether the terminal has new output. Returns that.
    pub fn touch(&mut self, dirty: bool) -> (r: bool)
        ensures
            r == dirty,
            final(self).text_dirty == (old(self).text_dirty || dirty),
            final(self).last_hash == old(self).last_hash,
    {
        if dirty {
            self.text_dirty = true;
        }
        dirty
    }

    /// Whether the text is to be laid out again for content of this hash: only
    /// where there may be new text and the content has changed.
    pub fn reshape(&mut self, hash: u64) -> (r: bool)
        ensures
            r == (old(self).text_dirty && hash != old(self).last_hash),
            !final(self).text_dirty,
            final(self).last_hash == (if r {
                hash
            } else {
                old(self).last_hash
            }),
    {
        let r: bool = self.text_dirty && hash != self.last_hash;
        if r {
            self.last_hash = hash;
        }
        self.text_dirty = false;
        r
    }
}

/// The label of a pane's badge: what was spent there, else how many tokens were
/// used; empty where there is nothing to show. A pane with a subscription shows
/// tokens only.
pub open spec fn badge(cost: Option<Seq<char>>, tokens: nat, mode: BillingMode) -> Seq<char> {
    if cost is Some && mode == BillingMode::Api {
        "$"@ + cost->0
    } else if tokens > 0 {
        rounding::compact_count(tokens) + "t"@
    } else {
        seq![]
    }
}

/// The label of a pane's badge. `cost` is what was spent, where that is
/// something, as it is to be shown.
pub fn badge_label(cost: Option<&str>, tokens: u64, mode: BillingMode) -> (r: String)
    ensures
        r@ == badge(
            match cost {
                Some(c) => Some(c@),
                None => None,
            },
            tokens as nat,
            mode,
        ),
{
    if let Some(c) = cost {
        if mode == BillingMode::Api {
            let mut r: String = "$".to_owned();
            r.append(c);
            return r;
        }
    }
    let mut r: String = String::new();
    assert(r@ =~= seq![]);
    if tokens > 0 {
        r = compact_tokens(tokens);
        r.append("t");
    }
    r
}

// ---- the chat panel ---------------------------------------------------------

/// The color of the user's label.
#[verifier::allow_in_spec]
pub fn user_color() -> Rgba
    returns
        (Rgba { r: 0x89, g: 0xb4, b: 0xfa }),
{
    Rgba::new(0x89, 0xb4, 0xfa)
}

/// The color of the assistant's label.
#[verifier::allow_in_spec]
pub fn assistant_color() -> Rgba
    returns
        (Rgba { r: 0xa6, g: 0xe3, b: 0xa1 }),
{
    Rgba::new(0xa6, 0xe3, 0xa1)
}

/// The color of a tool's label.
#[verifier::allow_in_spec]
pub fn tool_color() -> Rgba
    returns
        (Rgba { r: 0xf9, g: 0xe2, b: 0xaf }),
{
    Rgba::new(0xf9, 0xe2, 0xaf)
}

/// The color of the line of costs.
#[verifier::allow_in_spec]
pub fn cost_color() -> Rgba
    returns
        (Rgba { r: 0x94, g: 0xe2, b: 0xd5 }),
{
    Rgba::new(0x94, 0xe2, 0xd5)
}

/// The color of hints.
#[verifier::allow_in_spec]
pub fn hint_color() -> Rgba
    returns
        (Rgba { r: 0x7f, g: 0x84, b: 0x9c }),
{
    Rgba::new(0x7f, 0x84, 0x9c)
}

/// The line of costs: what was spent, where that is something.
pub open spec fn cost_line(total: Option<Seq<char>>) -> Seq<char> {
    match total {
        Some(t) => "Session cost: $"@ + t + "\n\n"@,
        None => "Session cost: $0.00  (auto-tracked for Codex / other agents)\n\n"@,
    }
}

/// The label of an entry, and its color.
pub open spec fn entry_label(role: Role) -> (Seq<char>, Option<Rgba>) {
    match role {
        Role::User => ("You  "@, Some(user_color())),
        Role::Assistant => ("AI  "@, Some(assistant_color())),
        Role::Tool => ("·  "@, Some(tool_color())),
    }
}

/// The pieces of the first `n` entries: a colored label and the text.
pub open spec fn entry_spans(
    log: Seq<(Role, Seq<char>)>,
    n: int,
) -> Seq<(Seq<char>, Option<Rgba>)>
    decreases n,
{
    if n <= 0 {
        seq![]
    } else {
        entry_spans(log, n - 1).push(entry_label(log[n - 1].0)).push(
            (log[n - 1].1 + "\n\n"@, None),
        )
    }
}

/// What is shown while an answer streams.
pub open spec fn streaming_spans() -> Seq<(Seq<char>, Option<Rgba>)> {
    seq![
        ("AI  "@, Some(assistant_color())),
        ("…  "@, None),
        ("(Esc to stop)"@, Some(hint_color())),
    ]
}

/// What is shown where nothing was said yet.
pub const WELCOME: &'static str =
    "Ask me to run things across your terminals.\nCmd+J to toggle • Enter to send • Esc to type in panes";

/// The conversation in pieces of one color each: the costs, the entries, and a
/// hint while an answer streams or where nothing was said yet.
pub open spec fn conversation_spans(
    chat: ChatState,
    total: Option<Seq<char>>,
) -> Seq<(Seq<char>, Option<Rgba>)> {
    seq![(cost_line(total), Some(cost_color()))] + entry_spans(
        chat.log(),
        chat.log().len() as int,
    ) + (if chat.streaming {
        streaming_spans()
    } else {
        seq![]
    }) + (if chat.log().len() == 0 {
        seq![(WELCOME@, Some(hint_color()))]
    } else {
        seq![]
    })
}

fn push_span(out: &mut Vec<Span>, s: &str, color: Option<Rgba>)
    ensures
        span_views(final(out)@) == span_views(old(out)@).push((s@, color)),
{
    let ghost before = span_views(out@);
    out.push(Span { text: s.to_owned(), color });
    assert(span_views(out@) =~= before.push((s@, color)));
}

/// The conversation in pieces of one color each. `total` is what was spent,
/// where that is something, as it is to be shown.
pub fn conversation(chat: &ChatState, total: Option<&str>) -> (r: Vec<Span>)
    ensures
        span_views(r@) == conversation_spans(
            *chat,
            match total {
                Some(t) => Some(t@),
                None => None,
            },
        ),
{
    let mut out: Vec<Span> = Vec::new();
    let ghost log = chat.log();
    let ghost head = seq![
        (
            cost_line(
                match total {
                    Some(t) => Some(t@),
                    None => None,
                },
            ),
            Some(cost_color()),
        ),
    ];
    match total {
        Some(t) => {
            let mut line: String = "Session cost: $".to_owned();
            line.append(t);
            line.append("\n\n");
            push_span(&mut out, line.as_str(), Some(cost_color()));
        },
        None => {
            push_span(
                &mut out,
                "Session cost: $0.00  (auto-tracked for Codex / other agents)\n\n",
                Some(cost_color()),
            );
        },
    }
    let n: usize = chat.entries.len();
    let mut i: usize = 0;
    assert(span_views(out@) =~= head + entry_spans(log, 0));
    while i < n
        invariant
            i <= n,
            n == chat.entries.len(),
            log == chat.log(),
            span_views(out@) == head + entry_spans(log, i as int),
        decreases n - i,
    {
        let ghost before = span_views(out@);
        let e = &chat.entries[i];
        assert(log[i as int] == e@);
        match e.role {
            Role::User => push_span(&mut out, "You  ", Some(user_color())),
            Role::Assistant => push_span(&mut out, "AI  ", Some(assistant_color())),
            Role::Tool => push_span(&mut out, "·  ", Some(tool_color())),
        }
        let mut body: String = e.text.clone();
        body.append("\n\n");
        push_span(&mut out, body.as_str(), None);
        proof {
            assert(span_views(out@) =~= before.push(entry_label(log[i as int].0)).push(
                (log[i as int].1 + "\n\n"@, None),
            ));
            assert(span_views(out@) =~= head + entry_spans(log, i + 1));
        }
        i = i + 1;
    }
    let ghost told = span_views(out@);
    if chat.streaming {
        push_span(&mut out, "AI  ", Some(assistant_color()));
        push_span(&mut out, "…  ", None);
        push_span(&mut out, "(Esc to stop)", Some(hint_color()));
        assert(span_views(out@) =~= told + streaming_spans());
    }
    if n == 0 {
        push_span(&mut out, WELCOME, Some(hint_color()));
    }
    proof {
        assert(log.len() == n);
        assert(span_views(out@) =~= conversation_spans(
            *chat,
            match total {
                Some(t) => Some(t@),
                None => None,
            },
        ));
    }
    out
}

/// What stands before the input.
pub const PROMPT: &'static str = "› ";

/// The text of the input box: the input, or a hint where there is none.
pub fn prompt_text(chat: &ChatState) -> (r: String)
    ensures
        r@ == (if chat.input@.len() > 0 {
            PROMPT@ + chat.input@
        } else {
            "› type a message…"@
        }),
{
    if chat.input.as_str().is_empty() {
        "› type a message…".to_owned()
    } else {
        let mut r: String = PROMPT.to_owned();
        r.append(chat.input.as_str());
        r
    }
}

/// The text of the input box up to the caret.
pub fn caret_prefix(chat: &ChatState) -> (r: String)
    requires
        chat.wf(),
    ensures
        r@ == PROMPT@ + chat.input@.take(chat.caret()),
{
    let v: Vec<char> = to_chars(chat.input.as_str());
    let k: usize = index_at(&v, chat.input_cursor);
    let before: String = from_chars(&v, 0, k);
    assert(before@ =~= chat.input@.take(chat.caret()));
    let mut r: String = PROMPT.to_owned();
    r.append(before.as_str());
    r
}

/// Where a click in a text leads, as a byte offset: to byte `index` of line
/// `line`, but not behind its end, and to the end of the text where it has no
/// such line. The end of a line belongs to it.
pub open spec fn hit_at(s: Seq<char>, line: nat, index: nat) -> nat
    decreases s.len(),
{
    if s.len() == 0 {
        0
    } else {
        let k = text::until(s, '\n') as int;
        let end = if k < s.len() {
            k + 1
        } else {
            s.len() as int
        };
        let len = bytes::byte_len(s.take(end));
        if line == 0 {
            if index < len {
                index
            } else {
                len
            }
        } else {
            len + hit_at(s.skip(end), (line - 1) as nat, index)
        }
    }
}

/// Where a click in a text leads, as a byte offset, for the line and the byte in
/// it that the layout found; to the end where it found none.
pub fn hit_offset(s: &str, hit: Option<(usize, usize)>) -> (r: usize)
    ensures
        r == (match hit {
            Some((line, index)) => hit_at(s@, line as nat, index as nat),
            None => bytes::byte_len(s@),
        }),
{
    let total: usize = text_len(s);
    match hit {
        None => total,
        Some((line, index)) => {
            let v: Vec<char> = to_chars(s);
            let n: usize = v.len();
            let mut pos: usize = 0;
            let mut off: usize = 0;
            let mut i: usize = 0;
            proof {
                bytes::lemma_offset_ends(s@);
                assert(s@.skip(0) =~= s@);
            }
            while pos < n
                invariant
                    hit == Some((line, index)),
                    pos <= n,
                    n == v.len(),
                    v@ == s@,
                    i <= line,
                    off == bytes::offset(s@, pos as int),
                    bytes::byte_len(s@) <= usize::MAX,
                    hit_at(s@, line as nat, index as nat) == off + hit_at(
                        s@.skip(pos as int),
                        (line - i) as nat,
                        index as nat,
                    ),
                decreases n - pos,
            {
                let ghost rest = s@.skip(pos as int);
                let k: usize = find_char(&v, pos, n, '\n');
                let end: usize = if k < n {
                    k + 1
                } else {
                    n
                };
                assert(v@.subrange(pos as int, n as int) =~= rest);
                let upto: usize = offset_of(&v, end);
                proof {
                    let head = rest.take(end - pos);
                    assert(s@.take(end as int) =~= s@.take(pos as int) + head);
                    bytes::lemma_encode_concat(s@.take(pos as int), head);
                    assert(rest.skip(end - pos) =~= s@.skip(end as int));
                }
                let len: usize = upto - off;
                if i == line {
                    return if index < len {
                        off + index
                    } else {
                        off + len
                    };
                }
                i = i + 1;
                pos = end;
                off = upto;
            }
            proof {
                assert(s@.skip(n as int).len() == 0);
                bytes::lemma_offset_ends(s@);
            }
            off
        },
    }
}

/// A click never leads behind the text.
pub proof fn law_hits_lie_in_the_text(s: Seq<char>, line: nat, index: nat)
    ensures
        hit_at(s, line, index) <= bytes::byte_len(s),
    decreases s.len(),
{
    if s.len() > 0 {
        text::lemma_until_bounds(s, '\n');
        let k = text::until(s, '\n') as int;
        let end = if k < s.len() {
            k + 1
        } else {
            s.len() as int
        };
        assert(s =~= s.take(end) + s.skip(end));
        bytes::lemma_encode_concat(s.take(end), s.skip(end));
        if line > 0 {
            law_hits_lie_in_the_text(s.skip(end), (line - 1) as nat, index);
        }
    }
}

/// The pieces that have a color.
pub open spec fn colored(
    spans: Seq<(Seq<char>, Option<Rgba>)>,
) -> Seq<(Seq<char>, Option<Rgba>)> {
    spans.filter(|s: (Seq<char>, Option<Rgba>)| s.1 is Some)
}

proof fn lemma_colored_push(
    spans: Seq<(Seq<char>, Option<Rgba>)>,
    s: (Seq<char>, Option<Rgba>),
)
    ensures
        s.1 is Some ==> colored(spans.push(s)) == colored(spans).push(s),
        s.1 is None ==> colored(spans.push(s)) == colored(spans),
        colored(seq![]).len() == 0,
{
    reveal(Seq::filter);
    assert(spans.push(s).drop_last() =~= spans);
}

proof fn lemma_colored_runs(p: Painted, runs: Seq<pty::RunView>)
    ensures
        colored(p.runs(runs).spans) == colored(p.spans) + runs.map_values(
            |r: pty::RunView| (r.text, Some(r.fg)),
        ),
    decreases runs.len(),
{
    let f = |r: pty::RunView| (r.text, Some(r.fg));
    if runs.len() == 0 {
        assert(colored(p.spans) + runs.map_values(f) =~= colored(p.spans));
    } else {
        let q = p.runs(runs.drop_last());
        lemma_colored_runs(p, runs.drop_last());
        lemma_colored_push(q.spans, (q.rest, None));
        lemma_colored_push(q.closed(), (runs.last().text, Some(runs.last().fg)));
        assert(runs.map_values(f) =~= runs.drop_last().map_values(f).push(f(runs.last())));
        assert(colored(p.runs(runs).spans) =~= colored(p.spans) + runs.map_values(f));
    }
}

/// Every run of every row is drawn as a piece in its own color, in order, and
/// nothing else has a color.
pub proof fn law_runs_are_drawn_in_their_colors(
    rows: Seq<Seq<pty::RunView>>,
    row: Seq<pty::RunView>,
)
    ensures
        colored(painted(rows.push(row)).closed()) == colored(painted(rows).closed())
            + row.map_values(|r: pty::RunView| (r.text, Some(r.fg))),
        colored(painted(seq![]).closed()).len() == 0,
{
    let all = rows.push(row);
    let above = painted(rows);
    let below = painted(all);
    assert(all.drop_last() =~= rows);
    lemma_colored_push(above.spans, (above.rest, None));
    lemma_colored_push(below.spans, (below.rest, None));
    if rows.len() > 0 {
        lemma_colored_runs(above.plus("\n"@), row);
    } else {
        lemma_colored_runs(above, row);
    }
}

/// The backgrounds of a row are those of its runs, in order: a run in another
/// color than the default one has a box over exactly its cells, any other has
/// none.
pub proof fn law_backgrounds_of_a_row(row: usize, runs: Seq<pty::RunView>, r: pty::RunView)
    ensures
        r.bg != default_bg() ==> row_backgrounds(row, runs.push(r)) == row_backgrounds(
            row,
            runs,
        ).push(
            CellQuad::Background {
                row,
                col: r.col_start as usize,
                cells: r.text.len() as usize,
                color: r.bg,
            },
        ),
        r.bg == default_bg() ==> row_backgrounds(row, runs.push(r)) == row_backgrounds(row, runs),
        row_backgrounds(row, seq![]).len() == 0,
{
    assert(runs.push(r).drop_last() =~= runs);
}

/// The backgrounds of a pane are those of all its rows, each in its own row.
pub proof fn law_backgrounds_of_all_rows(rows: Seq<Seq<pty::RunView>>, row: Seq<pty::RunView>)
    ensures
        backgrounds(rows.push(row)) == backgrounds(rows) + row_backgrounds(
            rows.len() as usize,
            row,
        ),
        backgrounds(seq![]).len() == 0,
{
    assert(rows.push(row).drop_last() =~= rows);
}

/// The boxes of a pane are its backgrounds, then every stretch that is selected,
/// then the cursor where it is seen and a block, then the bar where there is more
/// than is seen; nothing is left out and nothing is added.
pub proof fn law_boxes_of_a_pane(snap: Snapshot, i: int)
    ensures
        ({
            let quads = pane_quads(snap);
            let b = backgrounds(pty::row_views(snap.rows@)).len() as int;
            let s = snap.selection_spans@.len() as int;
            let c: int = if snap.cursor is Some && snap.cursor_shape_block { 1 } else { 0 };
            let bar: int = if snap.total_lines > snap.screen_lines { 1 } else { 0 };
            &&& quads.len() == b + s + c + bar
            &&& quads.take(b) == backgrounds(pty::row_views(snap.rows@))
            &&& 0 <= i < s ==> quads[b + i] == (CellQuad::Selection {
                row: snap.selection_spans@[i].0,
                first: snap.selection_spans@[i].1,
                last: snap.selection_spans@[i].2,
            })
            &&& c == 1 ==> (snap.cursor matches Some((col, row)) && quads[b + s]
                == (CellQuad::Cursor { row, col }))
            &&& bar == 1 ==> quads[b + s + c] == (CellQuad::Scrollbar {
                total: snap.total_lines,
                visible: snap.screen_lines,
                offset: snap.scroll_offset,
                max_offset: (snap.total_lines - snap.screen_lines) as usize,
            })
        }),
{
    let quads = pane_quads(snap);
    let b = backgrounds(pty::row_views(snap.rows@));
    assert(quads.take(b.len() as int) =~= b);
}

/// The badge of a pane shows what was spent, where it is billed by token and
/// something was; else how many tokens were used, where some were; else nothing.
pub proof fn law_badges(cost: Seq<char>, tokens: nat)
    ensures
        badge(Some(cost), tokens, BillingMode::Api) == "$"@ + cost,
        tokens > 0 ==> badge(None, tokens, BillingMode::Api) == rounding::compact_count(tokens)
            + "t"@,
        badge(Some(cost), tokens, BillingMode::Subscription) == badge(
            None,
            tokens,
            BillingMode::Api,
        ),
        badge(None, 0, BillingMode::Api).len() == 0,
        0 < tokens < 1000 ==> badge(None, tokens, BillingMode::Api) == text::decimal(tokens) + "t"@,
{
}

/// Every entry of the log is shown, in order: its author's label in color, and
/// then the whole of its text.
pub proof fn law_every_entry_is_shown(log: Seq<(Role, Seq<char>)>, n: int, i: int)
    requires
        0 <= i < n,
    ensures
        entry_spans(log, n).len() == 2 * n,
        entry_spans(log, n)[2 * i] == entry_label(log[i].0),
        entry_spans(log, n)[2 * i + 1] == (log[i].1 + "\n\n"@, None::<Rgba>),
        entry_label(log[i].0).1 is Some,
    decreases n,
{
    if n > 1 {
        law_every_entry_is_shown(
            log,
            n - 1,
            if i < n - 1 {
                i
            } else {
                0
            },
        );
    } else {
        assert(entry_spans(log, 0).len() == 0);
    }
}

/// The labels of the three authors differ, in text and in color.
pub proof fn law_authors_are_told_apart(a: Role, b: Role)
    requires
        a != b,
    ensures
        entry_label(a).0 != entry_label(b).0,
        entry_label(a).1 != entry_label(b).1,
{
    reveal_strlit("You  ");
    reveal_strlit("AI  ");
    reveal_strlit("·  ");
    assert("You  "@.len() == 5 && "AI  "@.len() == 4 && "·  "@.len() == 3);
}

/// The panel shows the costs first, then the whole log, then that an answer
/// streams, where one does, and how to begin where nothing was said yet.
pub proof fn law_the_panel_shows_the_conversation(chat: ChatState, total: Option<Seq<char>>)
    ensures
        ({
            let all = conversation_spans(chat, total);
            let n = chat.log().len() as int;
            &&& all.len() == 1 + 2 * n + (if chat.streaming { 3int } else { 0 }) + (if n == 0 {
                1int
            } else {
                0
            })
            &&& all[0].1 == Some(cost_color())
            &&& total matches Some(t) ==> text::has_text(all[0].0, "$"@ + t)
            &&& all.subrange(1, 1 + 2 * n) == entry_spans(chat.log(), n)
            &&& chat.streaming ==> all[1 + 2 * n + 2].0 == "(Esc to stop)"@
            &&& n == 0 ==> all.last().0 == WELCOME@
        }),
{
    let all = conversation_spans(chat, total);
    let n = chat.log().len() as int;
    if n > 0 {
        law_every_entry_is_shown(chat.log(), n, 0);
    }
    assert(all.subrange(1, 1 + 2 * n) =~= entry_spans(chat.log(), n));
    if let Some(t) = total {
        reveal_strlit("Session cost: $");
        reveal_strlit("Session cost: ");
        reveal_strlit("$");
        text::law_text_is_found("Session cost: "@, "$"@ + t, "\n\n"@);
        assert("Session cost: $"@ =~= "Session cost: "@ + "$"@);
        assert(all[0].0 =~= "Session cost: "@ + ("$"@ + t) + "\n\n"@);
    }
}

/// A click leads into the line that it hits, behind all the lines before it, and
/// no further than that line goes; behind the last line it leads to the end.
pub proof fn law_clicks_lead_into_their_line(
    line: Seq<char>,
    rest: Seq<char>,
    n: nat,
    index: nat,
)
    requires
        forall|k: int| 0 <= k < line.len() ==> line[k] != '\n',
    ensures
        ({
            let s = line.push('\n') + rest;
            let len = bytes::byte_len(line.push('\n'));
            &&& hit_at(s, 0, index) == (if index < len { index } else { len })
            &&& hit_at(s, n + 1, index) == len + hit_at(rest, n, index)
            &&& line.len() > 0 ==> hit_at(line, 0, index) == (if index < bytes::byte_len(line) {
                index
            } else {
                bytes::byte_len(line)
            })
            &&& line.len() > 0 ==> hit_at(line, n + 1, index) == bytes::byte_len(line)
            &&& hit_at(seq![], n, index) == 0
        }),
{
    let s = line.push('\n') + rest;
    let k = line.len() as int;
    text::lemma_until(s, '\n', k);
    assert(s.take(k + 1) =~= line.push('\n'));
    assert(s.skip(k + 1) =~= rest);
    text::lemma_until(line, '\n', k);
    assert(line.take(k) =~= line);
    assert(line.skip(k) =~= Seq::<char>::empty());
    assert(hit_at(Seq::<char>::empty(), n, index) == 0);
    assert(((n + 1) - 1) as nat == n);
    assert(hit_at(s, 0, index) == (if index < bytes::byte_len(s.take(k + 1)) {
        index
    } else {
        bytes::byte_len(s.take(k + 1))
    }));
    assert(hit_at(s, n + 1, index) == bytes::byte_len(s.take(k + 1)) + hit_at(rest, n, index));
    if k > 0 {
        assert(hit_at(line, n + 1, index) == bytes::byte_len(line) + hit_at(
            line.skip(k),
            n,
            index,
        ));
    }
}

/// The text of a pane is the text of its rows, a line feed between two; and the
/// text of pieces is that of all of them, in order.
pub proof fn law_rows_are_parted_by_line_feeds(
    rows: Seq<Seq<pty::RunView>>,
    spans: Seq<(Seq<char>, Option<Rgba>)>,
    more: Seq<(Seq<char>, Option<Rgba>)>,
    piece: (Seq<char>, Option<Rgba>),
)
    ensures
        rows_joined(rows) == text::join(
            rows.map_values(|runs: Seq<pty::RunView>| pty::runs_text(runs)),
            "\n"@,
        ),
        spans_text(spans + more) == spans_text(spans) + spans_text(more),
        spans_text(seq![piece]) == piece.0,
    decreases rows.len(), more.len(),
{
    let f = |runs: Seq<pty::RunView>| pty::runs_text(runs);
    assert(seq![piece].drop_last() =~= seq![]);
    assert(spans_text(Seq::empty()) == Seq::<char>::empty());
    assert(spans_text(seq![piece]) =~= piece.0);
    if rows.len() > 0 {
        law_rows_are_parted_by_line_feeds(rows.drop_last(), spans, more, piece);
        assert(rows.map_values(f).drop_last() =~= rows.drop_last().map_values(f));
    } else {
        assert(rows.map_values(f).len() == 0);
        if more.len() == 0 {
            assert(spans + more =~= spans);
            assert(spans_text(spans) + spans_text(more) =~= spans_text(spans));
        } else {
            law_rows_are_parted_by_line_feeds(rows, spans, more.drop_last(), piece);
            assert((spans + more).drop_last() =~= spans + more.drop_last());
            assert(spans_text(spans + more) =~= spans_text(spans) + spans_text(more));
        }
    }
}

} // verus!
