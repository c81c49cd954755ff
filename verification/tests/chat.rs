//! The chat overlay: its log, its input line, and what the agent reports.

use gridterm::ai::client::{AiEvent, ToolCall};
use gridterm::ai_ui::{
    next_char_boundary, prev_char_boundary, summary_of, tool_summary, ChatState, Role,
};
use serde_json::Value;

fn read(text: &str) -> Value {
    serde_json::from_str(text).unwrap()
}

fn typed(s: &str) -> ChatState {
    let mut c = ChatState::new(true);
    c.insert(s);
    c
}

#[test]
fn typing_and_taking_back() {
    let mut c = typed("héllo");
    assert_eq!(c.input_cursor, 6);
    c.move_left();
    c.move_left();
    c.insert("X");
    assert_eq!(c.input, "hélXlo");
    c.backspace();
    assert_eq!(c.input, "héllo");
    c.move_home();
    c.backspace();
    assert_eq!((c.input.as_str(), c.input_cursor), ("héllo", 0));
    c.move_right();
    c.move_right();
    assert_eq!(c.input_cursor, 3);
    c.backspace();
    assert_eq!((c.input.as_str(), c.input_cursor), ("hllo", 1));
    c.move_end();
    assert_eq!(c.input_cursor, 4);
    c.move_right();
    assert_eq!(c.input_cursor, 4);
}

#[test]
fn words_and_lines_are_deleted() {
    let mut c = typed("one two  ");
    c.delete_word();
    assert_eq!(c.input, "one ");
    c.delete_word();
    assert_eq!(c.input, "");
    c.delete_word();
    assert_eq!(c.input, "");
    let mut d = typed("first\nsecond line");
    d.delete_to_line_start();
    assert_eq!(d.input, "first\n");
    d.delete_to_line_start();
    assert_eq!(d.input, "first\n");
}

#[test]
fn the_caret_moves_by_words_and_lines() {
    let mut c = typed("ab cd\nef gh");
    c.move_word_left();
    assert_eq!(c.input_cursor, 9);
    c.move_home();
    assert_eq!(c.input_cursor, 6);
    c.move_left();
    c.move_home();
    assert_eq!(c.input_cursor, 0);
    c.move_end();
    assert_eq!(c.input_cursor, 5);
}

#[test]
fn boundaries_of_characters() {
    let s = "a€b";
    assert_eq!(next_char_boundary(s, 0), 1);
    assert_eq!(next_char_boundary(s, 1), 4);
    assert_eq!(prev_char_boundary(s, 4), 1);
    assert_eq!(prev_char_boundary(s, 1), 0);
    assert_eq!(prev_char_boundary(s, 3), 1);
}

#[test]
fn clicks_place_the_caret() {
    let mut c = typed("né");
    c.place_caret(0);
    assert_eq!(c.input_cursor, 0);
    c.place_caret(3);
    assert_eq!(c.input_cursor, 0);
    c.place_caret(5);
    assert_eq!(c.input_cursor, 1);
    c.place_caret(7);
    assert_eq!(c.input_cursor, 3);
}

#[test]
fn messages_are_sent_one_at_a_time() {
    let mut c = typed("  hi there \n");
    assert_eq!(c.begin_send().as_deref(), Some("hi there"));
    assert!(c.streaming);
    assert_eq!(c.input, "");
    assert_eq!(c.input_cursor, 0);
    c.insert("more");
    assert_eq!(c.begin_send(), None);
    assert_eq!(c.input, "more");
    c.streaming = false;
    c.clear_input();
    c.insert("   ");
    assert_eq!(c.begin_send(), None);
}

#[test]
fn the_agent_reports_to_the_log() {
    let mut c = ChatState::new(true);
    c.push_user("q".to_string());
    c.streaming = true;
    assert!(c.hear(AiEvent::Token("Hel".to_string())).is_none());
    assert!(c.hear(AiEvent::Token("lo".to_string())).is_none());
    let call = ToolCall {
        id: "1".to_string(),
        name: "read_pane".to_string(),
        arguments: "{\"pane\":3}".to_string(),
    };
    assert!(c.hear(AiEvent::ToolCall(call.clone())).is_none());
    assert_eq!(c.hear(AiEvent::ExecPaneTool(call)).unwrap().id, "1");
    assert!(c.streaming);
    assert!(c.hear(AiEvent::Error("lost".to_string())).is_none());
    assert!(!c.streaming);
    c.streaming = true;
    c.hear(AiEvent::Done);
    assert!(!c.streaming);
    let log: Vec<(Role, &str)> = c.entries.iter().map(|e| (e.role, e.text.as_str())).collect();
    assert_eq!(
        log,
        vec![
            (Role::User, "q"),
            (Role::Assistant, "Hello"),
            (Role::Tool, "read pane 3"),
            (Role::Assistant, "\n[error: lost]"),
        ]
    );
    assert_eq!(c.last_assistant_text().as_deref(), Some("\n[error: lost]"));
    assert_eq!(
        c.transcript_text(),
        "You: q\n\nAI: Hello\n\ntool: read pane 3\n\nAI: \n[error: lost]"
    );
    assert_eq!(ChatState::new(false).last_assistant_text(), None);
}

#[test]
fn tool_calls_are_summed_up() {
    let s = |name: &str, args: &str| summary_of(name, &read(args));
    assert_eq!(s("run_command", r#"{"command":"ls","pane":2}"#), "$ ls (pane 2)");
    assert_eq!(s("run_command", "{}"), "$ ? (pane -1)");
    assert_eq!(s("read_pane", r#"{"pane":1}"#), "read pane 1");
    assert_eq!(s("send_keys", r#"{"pane":-5}"#), "send keys to pane -5");
    assert_eq!(s("grep_pane", r#"{"pattern":"x","pane":0}"#), "grep 'x' in pane 0");
    assert_eq!(s("list_panes", "{}"), "list panes");
    assert_eq!(s("wait", "{}"), "wait");
    let broken = ToolCall {
        id: String::new(),
        name: "grep_pane".to_string(),
        arguments: "oops".to_string(),
    };
    assert_eq!(tool_summary(&broken), "grep '?' in pane -1");
}
