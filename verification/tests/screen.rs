//! What panes show: colors, rows of runs, and the boxes around them.

use gridterm::ai_ui::ChatState;
use gridterm::color::{
    default_bg, default_fg, dim, dim_rgba, indexed_to_rgb, named_to_rgb, resolve, resolve_fg,
    AnsiColor, NamedColor, Rgba,
};
use gridterm::frames::{
    grown_capacity, surface_step, FramePacer, FrameStats, PaceStep, SurfaceStatus, SurfaceStep,
};
use gridterm::pty::{
    grid_line, must_resize, pane_env, pasted, scrollback_lines, scrollback_text, shell_of,
    snapshot, Cell, EventProxy, RowRuns, Run, SelectionRange, Snapshot, TermView,
};
use gridterm::scene::{
    badge_label, caret_prefix, conversation, hit_offset, pane_scene, pane_spans, prompt_text,
    CellQuad, PaneMark, Span, WELCOME,
};
use gridterm::usage::BillingMode;

const FG: AnsiColor = AnsiColor::Named(NamedColor::Foreground);
const BG: AnsiColor = AnsiColor::Named(NamedColor::Background);

fn cell(line: i32, c: char) -> Cell {
    Cell { line, c, fg: FG, bg: BG, bold: false, inverse: false, dim: false }
}

fn view(cells: Vec<Cell>) -> TermView {
    TermView {
        cells,
        columns: 3,
        display_offset: 0,
        cursor_line: 0,
        cursor_column: 1,
        cursor_hidden: false,
        history: 5,
        screen_lines: 2,
        rows: 2,
        selection: None,
    }
}

#[test]
fn colors_of_the_palette() {
    assert_eq!(indexed_to_rgb(16), Rgba::new(0, 0, 0));
    assert_eq!(indexed_to_rgb(231), Rgba::new(255, 255, 255));
    assert_eq!(indexed_to_rgb(232), Rgba::new(8, 8, 8));
    assert_eq!(indexed_to_rgb(255), Rgba::new(238, 238, 238));
    assert_eq!(indexed_to_rgb(1), named_to_rgb(NamedColor::Red));
    assert_eq!(resolve(AnsiColor::Indexed(1)), named_to_rgb(NamedColor::Red));
    assert_eq!(resolve(FG), default_fg());
    assert_eq!(resolve(BG), default_bg());
    assert_eq!(resolve(AnsiColor::Spec(Rgba::new(1, 2, 3))), Rgba::new(1, 2, 3));
    assert_eq!(resolve_fg(AnsiColor::Indexed(1), true), indexed_to_rgb(9));
    assert_eq!(
        resolve_fg(AnsiColor::Named(NamedColor::Red), true),
        named_to_rgb(NamedColor::BrightRed)
    );
    assert_eq!(dim(Rgba::new(100, 50, 3)), dim_rgba(Rgba::new(100, 50, 3)));
}

#[test]
fn rows_are_cut_into_runs() {
    let mut red = cell(0, 'b');
    red.fg = AnsiColor::Spec(Rgba::new(9, 9, 9));
    let mut inverse = cell(1, '\0');
    inverse.inverse = true;
    let snap = snapshot(&view(vec![cell(0, 'a'), red, red, cell(1, 'x'), cell(1, 'y'), inverse]));
    let runs: Vec<Vec<(usize, &str)>> = snap
        .rows
        .iter()
        .map(|r| r.runs.iter().map(|r| (r.col_start, r.text.as_str())).collect())
        .collect();
    assert_eq!(runs, vec![vec![(0, "a"), (1, "bb")], vec![(0, "xy"), (2, " ")]]);
    assert_eq!(snap.rows[1].runs[1].bg, default_fg());
    assert_eq!(snap.rows[1].runs[1].fg, default_bg());
    assert_eq!(snap.cursor, Some((1, 0)));
    assert!(snap.cursor_shape_block);
    assert_eq!(snap.total_lines, 7);
    assert_eq!(snap.screen_lines, 2);
}

#[test]
fn equal_content_has_equal_hashes() {
    let a = snapshot(&view(vec![cell(0, 'a'), cell(0, '\0')]));
    let b = snapshot(&view(vec![cell(0, 'a'), cell(0, ' ')]));
    let c = snapshot(&view(vec![cell(0, 'b'), cell(0, ' ')]));
    assert_eq!(a.content_hash, b.content_hash);
    assert_ne!(a.content_hash, c.content_hash);
    let mut moved = view(vec![cell(0, 'a'), cell(0, ' ')]);
    moved.cursor_column = 2;
    assert_ne!(a.content_hash, snapshot(&moved).content_hash);
}

#[test]
fn selections_span_rows() {
    let mut v = view(vec![cell(0, 'a'), cell(0, 'b'), cell(0, 'c'), cell(1, 'd'), cell(1, 'e'), cell(1, 'f')]);
    v.selection = Some(SelectionRange { start_line: 0, start_column: 1, end_line: 1, end_column: 0 });
    assert_eq!(snapshot(&v).selection_spans, vec![(0, 1, 2), (1, 0, 0)]);
}

#[test]
fn new_output_is_noted_once() {
    let mut p = EventProxy::new();
    assert!(!p.take_dirty());
    p.mark_dirty();
    assert!(p.take_dirty());
    assert!(!p.take_dirty());
}

#[test]
fn lines_of_the_scrollback() {
    assert_eq!(grid_line(3, 5), -2);
    assert_eq!(scrollback_lines(10, 4, 3), vec![1, 2, 3]);
    assert_eq!(scrollback_lines(3, 2, 100), vec![-1, 0, 1]);
    let rows = vec![vec!['a', '\0', 'b', ' '], vec!['\0', '\0'], vec!['c']];
    assert_eq!(scrollback_text(&rows), "a b\n\nc\n");
}

#[test]
fn shells_are_set_up() {
    assert_eq!(shell_of(None), "/bin/zsh");
    assert_eq!(shell_of(Some("/bin/sh".to_string())), "/bin/sh");
    let plain = pane_env(None);
    assert_eq!(plain.len(), 3);
    assert_eq!(plain[0], ("TERM".to_string(), "xterm-256color".to_string()));
    let tagged = pane_env(Some((4318, 7)));
    assert_eq!(tagged.len(), 12);
    let get = |k: &str| tagged.iter().find(|p| p.0 == k).unwrap().1.clone();
    assert_eq!(get("CLAUDE_CODE_ENABLE_TELEMETRY"), "1");
    assert_eq!(get("OTEL_EXPORTER_OTLP_ENDPOINT"), "http://127.0.0.1:4318");
    assert_eq!(get("OTEL_EXPORTER_OTLP_METRICS_ENDPOINT"), "http://127.0.0.1:4318/v1/metrics");
    assert_eq!(get("OTEL_RESOURCE_ATTRIBUTES"), "gridterm.pane=7");
    assert!(must_resize(80, 24, 80, 25));
    assert!(!must_resize(80, 24, 80, 24));
    assert!(!must_resize(0, 24, 80, 24));
    assert_eq!(pasted("a\nb"), "\x1b[200~a\nb\x1b[201~");
}

fn run(col: usize, fg: Rgba, bg: Rgba, text: &str) -> Run {
    Run { col_start: col, fg, bg, text: text.to_string() }
}

fn pieces(spans: &[Span]) -> Vec<(String, Option<Rgba>)> {
    spans.iter().map(|s| (s.text.clone(), s.color)).collect()
}

#[test]
fn panes_are_drawn_in_pieces() {
    let (r, g) = (Rgba::new(1, 0, 0), Rgba::new(0, 1, 0));
    let bg = default_bg();
    let rows = vec![
        RowRuns { runs: vec![run(0, r, bg, "ab"), run(2, g, bg, "c")] },
        RowRuns { runs: vec![] },
        RowRuns { runs: vec![run(0, r, bg, "d")] },
        RowRuns { runs: vec![] },
    ];
    assert_eq!(
        pieces(&pane_spans(&rows)),
        vec![
            ("ab".to_string(), Some(r)),
            ("c".to_string(), Some(g)),
            ("\n\n".to_string(), None),
            ("d".to_string(), Some(r)),
            ("\n".to_string(), None),
        ]
    );
    assert_eq!(pane_spans(&vec![]).len(), 0);
}

fn shot(rows: Vec<RowRuns>) -> Snapshot {
    Snapshot {
        rows,
        cursor: Some((4, 1)),
        cursor_shape_block: true,
        selection_spans: vec![(2, 3, 5)],
        content_hash: 1,
        scroll_offset: 6,
        total_lines: 30,
        screen_lines: 20,
    }
}

#[test]
fn boxes_of_a_pane() {
    let (r, b) = (Rgba::new(1, 0, 0), Rgba::new(0, 0, 1));
    let rows = vec![
        RowRuns { runs: vec![run(0, r, default_bg(), "ab"), run(2, r, b, "cé")] },
        RowRuns { runs: vec![run(0, r, r, "x")] },
    ];
    let mut snap = shot(rows);
    assert_eq!(
        pane_scene(&snap),
        vec![
            CellQuad::Background { row: 0, col: 2, cells: 2, color: b },
            CellQuad::Background { row: 1, col: 0, cells: 1, color: r },
            CellQuad::Selection { row: 2, first: 3, last: 5 },
            CellQuad::Cursor { row: 1, col: 4 },
            CellQuad::Scrollbar { total: 30, visible: 20, offset: 6, max_offset: 10 },
        ]
    );
    snap.rows = vec![];
    snap.selection_spans = vec![];
    snap.cursor_shape_block = false;
    snap.total_lines = 20;
    assert_eq!(pane_scene(&snap), vec![]);
}

#[test]
fn text_is_laid_out_only_where_it_changed() {
    let mut m = PaneMark::new();
    assert!(m.reshape(5));
    assert!(!m.reshape(6));
    assert!(!m.touch(false));
    assert!(!m.reshape(6));
    assert!(m.touch(true));
    assert!(!m.reshape(5));
    m.touch(true);
    assert!(m.reshape(6));
}

#[test]
fn badges_show_cost_or_tokens() {
    assert_eq!(badge_label(Some("0.012"), 5, BillingMode::Api), "$0.012");
    assert_eq!(badge_label(None, 1234, BillingMode::Api), "1.2kt");
    assert_eq!(badge_label(None, 0, BillingMode::Api), "");
    assert_eq!(badge_label(Some("0.012"), 5, BillingMode::Subscription), "5t");
    assert_eq!(badge_label(Some("0.012"), 0, BillingMode::Subscription), "");
}

#[test]
fn the_conversation_is_shown() {
    let mut chat = ChatState::new(true);
    let empty = pieces(&conversation(&chat, None));
    assert_eq!(empty.len(), 2);
    assert_eq!(empty[0].0, "Session cost: $0.00  (auto-tracked for Codex / other agents)\n\n");
    assert_eq!(empty[1].0, WELCOME);
    chat.push_user("hi".to_string());
    chat.push_tool("list panes".to_string());
    chat.push_assistant_token("yo");
    chat.streaming = true;
    let texts: Vec<String> =
        conversation(&chat, Some("1.2000")).iter().map(|s| s.text.clone()).collect();
    assert_eq!(
        texts,
        vec![
            "Session cost: $1.2000\n\n",
            "You  ",
            "hi\n\n",
            "·  ",
            "list panes\n\n",
            "AI  ",
            "yo\n\n",
            "AI  ",
            "…  ",
            "(Esc to stop)",
        ]
    );
}

#[test]
fn the_input_box() {
    let mut chat = ChatState::new(true);
    assert_eq!(prompt_text(&chat), "› type a message…");
    assert_eq!(caret_prefix(&chat), "› ");
    chat.insert("né");
    chat.move_left();
    assert_eq!(prompt_text(&chat), "› né");
    assert_eq!(caret_prefix(&chat), "› n");
}

#[test]
fn clicks_lead_into_the_text() {
    let s = "ab\ncdé\n\nx";
    assert_eq!(hit_offset(s, None), s.len());
    assert_eq!(hit_offset(s, Some((0, 1))), 1);
    assert_eq!(hit_offset(s, Some((0, 99))), 3);
    assert_eq!(hit_offset(s, Some((1, 0))), 3);
    assert_eq!(hit_offset(s, Some((1, 4))), 7);
    assert_eq!(hit_offset(s, Some((2, 0))), 8);
    assert_eq!(hit_offset(s, Some((3, 1))), 10);
    assert_eq!(hit_offset(s, Some((9, 0))), s.len());
    assert_eq!(hit_offset("", Some((0, 0))), 0);
}

#[test]
fn frames_are_paced() {
    let mut p = FramePacer::new();
    assert_eq!(p.about_to_wait(0), PaceStep::Wait);
    assert!(!p.wake(1_000_000));
    assert_eq!(p.about_to_wait(3_000_000), PaceStep::WaitFor(5_000_000));
    assert_eq!(p.about_to_wait(8_000_000), PaceStep::Redraw);
    assert!(!p.wake(9_000_000));
    assert_eq!(p.about_to_wait(9_000_000), PaceStep::Wait);
    p.drawn();
    assert!(p.wake(8_000_000));
    let mut s = FrameStats::new();
    assert_eq!(s.average(), 0);
    s.record(10);
    s.record(5);
    assert_eq!((s.frames, s.sum_ns, s.max_ns, s.average()), (2, 15, 10, 7));
}

#[test]
fn surfaces_are_kept_up() {
    let cases = [
        (SurfaceStatus::Success, SurfaceStep::Draw),
        (SurfaceStatus::Timeout, SurfaceStep::Retry),
        (SurfaceStatus::Occluded, SurfaceStep::Retry),
        (SurfaceStatus::Outdated, SurfaceStep::Reconfigure),
        (SurfaceStatus::Suboptimal, SurfaceStep::Reconfigure),
        (SurfaceStatus::Lost, SurfaceStep::Recreate),
        (SurfaceStatus::Validation, SurfaceStep::Skip),
    ];
    for (status, step) in cases {
        assert_eq!(surface_step(status), step);
    }
    assert_eq!(grown_capacity(8, 8), None);
    assert_eq!(grown_capacity(8, 9), Some(16));
    assert_eq!(grown_capacity(0, 1), Some(1));
    for n in [1u32, 2, 3, 1000, 1024, 1025, u32::MAX] {
        assert_eq!(grown_capacity(0, n), Some((n as u64).next_power_of_two()), "{n}");
    }
}
