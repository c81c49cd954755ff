//! Laws of the library on concrete values.

use gridterm::ai::agent::is_local_tool;
use gridterm::ai::plan::{plan_pane, PaneAction};
use gridterm::ai::tools::tool_schema;
use gridterm::ai_ui::ChatState;
use gridterm::browser::{bad_reply, broker_bootstrap_cmd, shell_quote};
use gridterm::color::{dim_rgba, AnsiColor, NamedColor, Rgba};
use gridterm::grid::GridLayout;
use gridterm::pty::{pane_env, snapshot, Cell, RowRuns, Run, SelectionRange, TermView};
use gridterm::scene::pane_spans;
use gridterm::ui::PaneGrid;
use gridterm::usage::collector::{attr_int, parse_metrics};
use serde_json::Value;

fn read(text: &str) -> Value {
    serde_json::from_str(text).unwrap()
}

#[test]
fn every_advertised_tool_is_handled() {
    let grid = PaneGrid { layout: GridLayout::new(1, 1), panes: 1, active: 0 };
    for tool in tool_schema().as_array().unwrap() {
        let name = tool["function"]["name"].as_str().unwrap();
        let unknown = match plan_pane(name, &read("{}"), &grid) {
            PaneAction::Reply(s) => s.starts_with("unknown tool"),
            _ => false,
        };
        assert!(is_local_tool(name) || !unknown, "{name}");
    }
}

/// The word that a shell reads from quoted text.
fn shell_word(q: &str) -> String {
    let (mut word, mut quoted, mut escape) = (String::new(), false, false);
    for c in q.chars() {
        if escape {
            word.push(c);
            escape = false;
        } else if c == '\'' {
            quoted = !quoted;
        } else if c == '\\' && !quoted {
            escape = true;
        } else {
            word.push(c);
        }
    }
    assert!(!quoted && !escape);
    word
}

#[test]
fn quoted_text_is_read_back() {
    for s in ["", "plain", "a b", "it's", "''", "\\'", "$(x) `y` \"z\"\n"] {
        assert_eq!(shell_word(&shell_quote(s)), s);
    }
    assert!(broker_bootstrap_cmd("/a'b").starts_with("cd '/a'\\''b' "));
    assert_eq!(bad_reply("e", "l"), "bad reply: e: l");
}

#[test]
fn dim_is_darker() {
    for c in [Rgba::new(0, 1, 2), Rgba::new(255, 128, 10)] {
        let d = dim_rgba(c);
        assert!(d.r <= c.r && d.g <= c.g && d.b <= c.b);
    }
    assert_eq!(dim_rgba(Rgba::new(255, 100, 10)), Rgba::new(178, 70, 7));
}

#[test]
fn typing_in_pieces() {
    let mut a = ChatState::new(true);
    a.insert("xy");
    a.move_left();
    let mut b = ChatState::new(true);
    b.insert("xy");
    b.move_left();
    a.insert("1é");
    a.insert("2");
    b.insert("1é2");
    assert_eq!((a.input.clone(), a.input_cursor), (b.input, b.input_cursor));
    a.delete_word();
    assert_eq!((a.input.as_str(), a.input_cursor), ("y", 0));
}

#[test]
fn right_and_left_lead_back() {
    let mut c = ChatState::new(true);
    c.insert("a€b");
    c.move_home();
    for _ in 0..3 {
        let before = c.input_cursor;
        c.move_right();
        c.move_left();
        assert_eq!(c.input_cursor, before);
        c.move_right();
    }
}

#[test]
fn spans_keep_the_text() {
    let c = Rgba::new(1, 1, 1);
    let run = |t: &str| Run { col_start: 0, fg: c, bg: c, text: t.to_string() };
    let rows = vec![
        RowRuns { runs: vec![] },
        RowRuns { runs: vec![run("ab"), run("")] },
        RowRuns { runs: vec![run("c")] },
    ];
    let all: String = pane_spans(&rows).iter().map(|s| s.text.as_str()).collect();
    assert_eq!(all, "\nab\nc");
}

#[test]
fn pane_tags_are_read_back() {
    let env = pane_env(Some((1, 42)));
    let tag = env.iter().find(|p| p.0 == "OTEL_RESOURCE_ATTRIBUTES").unwrap().1.clone();
    let (key, value) = tag.split_once('=').unwrap();
    let attrs = read(&format!(r#"[{{"key":"{key}","value":{{"stringValue":"{value}"}}}}]"#));
    assert_eq!(attr_int(Some(&attrs), "gridterm.pane"), Some(42));
}

#[test]
fn requests_can_be_joined() {
    let one = r#"{"scopeMetrics":[{"metrics":[{"name":"a.token","sum":{"dataPoints":[{"asInt":1}]}}]}]}"#;
    let two = r#"{"scopeMetrics":[{"metrics":[{"name":"b.cost","sum":{"dataPoints":[{"asInt":2}]}}]}]}"#;
    let count = |list: &str| parse_metrics(&read(&format!(r#"{{"resourceMetrics":[{list}]}}"#))).len();
    assert_eq!(count(&format!("{one},{two}")), count(one) + count(two));
}

#[test]
fn selections_are_shown_in_view() {
    let cell = |line: i32| Cell {
        line,
        c: 'x',
        fg: AnsiColor::Named(NamedColor::Foreground),
        bg: AnsiColor::Named(NamedColor::Background),
        bold: false,
        inverse: false,
        dim: false,
    };
    let view = TermView {
        cells: vec![cell(-1), cell(0)],
        columns: 1,
        display_offset: 1,
        cursor_line: 1,
        cursor_column: 0,
        cursor_hidden: true,
        history: 3,
        screen_lines: 2,
        rows: 2,
        selection: Some(SelectionRange {
            start_line: -3,
            start_column: 0,
            end_line: 1,
            end_column: 0,
        }),
    };
    let snap = snapshot(&view);
    assert_eq!(snap.selection_spans, vec![(0, 0, 0), (1, 0, 0)]);
    assert_eq!(snap.cursor, None);
    assert!(!snap.cursor_shape_block);
    assert_eq!(snap.scroll_offset, 1);
}
