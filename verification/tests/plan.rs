//! The tools that work on the panes.

use gridterm::ai::client::ToolCall;
use gridterm::ai::plan::{
    added_reply, build_context, grep_reply, matches_reply, pane_setup_reply, pick_lines,
    plan_pane, plan_pane_call, read_reply, PaneAction,
};
use gridterm::ai::tools::truncate_tokens;
use gridterm::color::Rgba;
use gridterm::grid::GridLayout;
use gridterm::pty::{RowRuns, Run, Snapshot};
use gridterm::ui::PaneGrid;
use serde_json::Value;

fn read(text: &str) -> Value {
    serde_json::from_str(text).unwrap()
}

fn grid(cols: usize, rows: usize, panes: usize, active: usize) -> PaneGrid {
    PaneGrid { layout: GridLayout::new(cols, rows), panes, active }
}

fn shown(a: PaneAction) -> String {
    match a {
        PaneAction::Reply(s) => format!("reply {s}"),
        PaneAction::Run { pane, typed, reply } => format!("run {pane} {typed:?} {reply}"),
        PaneAction::Keys { pane, typed, reply } => format!("keys {pane} {typed:?} {reply}"),
        PaneAction::Read { pane, lines } => format!("read {pane} {lines}"),
        PaneAction::Grep { pane, pattern } => format!("grep {pane} {pattern}"),
        PaneAction::Rebuild { cols, rows, reply } => format!("rebuild {cols} {rows} {reply}"),
        PaneAction::AddPane { grid, index } => format!("add {grid:?} {index}"),
        PaneAction::UsageReport => "usage".to_string(),
        PaneAction::Setup(m) => format!("setup {m:?}"),
        PaneAction::RequestLogin(u) => format!("login {u:?}"),
        PaneAction::SaveLogin => "save".to_string(),
    }
}

fn plan(name: &str, args: &str) -> String {
    shown(plan_pane(name, &read(args), &grid(2, 2, 3, 1)))
}

#[test]
fn commands_and_keys_are_typed_into_panes() {
    assert_eq!(
        plan("run_command", r#"{"pane":2,"command":"ls"}"#),
        "run 2 \"ls\\r\" ran in pane 2: ls\n(use read_pane to see output)"
    );
    assert_eq!(
        plan("run_command", r#"{"command":"ls"}"#),
        "run 1 \"ls\\r\" ran in pane 1: ls\n(use read_pane to see output)"
    );
    assert_eq!(plan("send_keys", r#"{"pane":0,"keys":"q"}"#), "keys 0 \"q\" sent keys to pane 0");
    assert_eq!(plan("send_keys", r#"{"pane":3,"keys":"q"}"#), "reply no pane 3");
    assert_eq!(
        plan("run_command", r#"{"pane":-1,"command":"ls"}"#),
        format!("reply no pane {}", usize::MAX)
    );
}

#[test]
fn panes_are_read_and_searched() {
    assert_eq!(plan("read_pane", r#"{"pane":0}"#), "read 0 80");
    assert_eq!(plan("read_pane", r#"{"pane":0,"lines":1000}"#), "read 0 400");
    assert_eq!(plan("read_pane", r#"{"pane":9}"#), "reply no pane 9");
    assert_eq!(plan("grep_pane", r#"{"pane":2,"pattern":"x"}"#), "grep 2 x");
    assert_eq!(plan("grep_pane", r#"{"pane":7,"pattern":"x"}"#), "reply no pane 7");
    assert_eq!(
        plan("list_panes", "{}"),
        "reply pane 0: grid (0,0)\npane 1: grid (1,0) [focused]\npane 2: grid (0,1)\n"
    );
    let long = "b".repeat(7_000);
    assert_eq!(read_reply(&long), truncate_tokens(&long, 1500));
}

#[test]
fn the_grid_grows_but_shrinks_only_where_that_is_allowed() {
    assert_eq!(
        plan("set_grid", r#"{"cols":3,"rows":2}"#),
        "rebuild 3 2 grid is now 3x2 (6 panes)"
    );
    assert_eq!(
        plan("set_grid", r#"{"cols":1,"rows":1}"#),
        "reply refused: a 1x1 grid (1 panes) would close 2 existing terminal(s). If the user explicitly wants to close panes, call again with allow_close=true."
    );
    assert_eq!(
        plan("set_grid", r#"{"cols":1,"rows":1,"allow_close":true}"#),
        "rebuild 1 1 grid is now 1x1 (1 panes)"
    );
    assert_eq!(
        plan("set_grid", r#"{"cols":99,"rows":-4}"#),
        "rebuild 12 1 grid is now 12x1 (12 panes)"
    );
    assert_eq!(plan("add_pane", "{}"), "add Some((3, 2)) 3");
    let wide = plan_pane("add_pane", &read("{}"), &grid(3, 2, 6, 0));
    assert_eq!(shown(wide), "add Some((3, 3)) 6");
    let full = plan_pane("add_pane", &read("{}"), &grid(8, 8, 64, 0));
    assert_eq!(shown(full), "add None 64");
    assert_eq!(added_reply(4, 3), "added pane (now 4 panes); new pane index 3");
}

#[test]
fn other_tools_of_the_window() {
    assert_eq!(plan("usage_report", "{}"), "usage");
    assert_eq!(plan("browser_setup", r#"{"mode":"off"}"#), "setup Off");
    assert_eq!(plan("browser_request_login", r#"{"url":"u"}"#), "login Some(\"u\")");
    assert_eq!(plan("browser_save_login", "{}"), "save");
    for name in ["shell", "shell_bg", "read_shell", "wait"] {
        assert_eq!(plan(name, "{}"), "reply (handled by agent)");
    }
    assert_eq!(plan("dance", "{}"), "reply unknown tool: dance");
    let call = ToolCall {
        id: "1".to_string(),
        name: "read_pane".to_string(),
        arguments: "broken".to_string(),
    };
    assert_eq!(shown(plan_pane_call(&call, &grid(2, 2, 3, 1))), "read 1 80");
    assert_eq!(
        pane_setup_reply(Ok("on".to_string())),
        "on\n(Restart agents in panes to pick up the change.)"
    );
    assert_eq!(pane_setup_reply(Err("e".to_string())), "failed: e");
}

#[test]
fn searching_ignores_case() {
    let text = "One\r\ntwo ERROR\nthree\nerror four\n";
    assert_eq!(grep_reply(text, "Error", 0), "two ERROR\nerror four");
    assert_eq!(grep_reply(text, "nine", 4), "no matches for 'nine' in pane 4");
    assert_eq!(grep_reply("ÀB", "àb", 0), "ÀB");
    let lines = vec!["A".to_string(), "B".to_string()];
    let lowered = vec!["x".to_string(), "y".to_string()];
    assert_eq!(pick_lines(&lines, &lowered, "y"), vec!["B".to_string()]);
    assert_eq!(matches_reply(&lines, "p", 0), "A\nB");
}

fn snap(rows: &[&[&str]]) -> Snapshot {
    let c = Rgba::new(1, 2, 3);
    Snapshot {
        rows: rows
            .iter()
            .map(|r| RowRuns {
                runs: r
                    .iter()
                    .map(|t| Run { col_start: 0, fg: c, bg: c, text: t.to_string() })
                    .collect(),
            })
            .collect(),
        cursor: None,
        cursor_shape_block: false,
        selection_spans: vec![],
        content_hash: 0,
        scroll_offset: 0,
        total_lines: 0,
        screen_lines: 0,
    }
}

#[test]
fn the_model_sees_every_pane() {
    let panes = vec![snap(&[&["ab", "c "], &["  "]]), snap(&[&["$ "]])];
    assert_eq!(
        build_context(&panes, 1),
        "--- pane 0 ---\nabc\n--- pane 1 (focused) ---\n$\n"
    );
    assert_eq!(build_context(&vec![], 0), "");
}
