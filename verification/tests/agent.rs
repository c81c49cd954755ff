//! The conversation with the model, its loop, and the tools that it runs.

use gridterm::ai::agent::{is_local_tool, Agent, AgentAction, AgentEvent, Phase};
use gridterm::ai::client::{
    messages_json, read_line, request_body, AgentInput, AiEvent, ChatMessage, LineStep,
    StreamDelta, StreamState, StreamToolCall, StreamToolFn, ToolCall,
};
use gridterm::ai::shell::{
    background_reply, plan_local, plan_local_call, poll_shell, read_args, setup_reply, shell_line,
    shell_output, timeout_text, LocalTool, ShellStep, NO_SHELL,
};
use gridterm::ai::tools::{system_prompt, tool_schema, truncate_tokens};
use gridterm::browser::BrowserMode;
use serde_json::Value;

fn read(text: &str) -> Value {
    serde_json::from_str(text).unwrap()
}

fn call(id: &str, name: &str, arguments: &str) -> ToolCall {
    ToolCall { id: id.to_string(), name: name.to_string(), arguments: arguments.to_string() }
}

#[test]
fn messages_have_the_form_that_the_service_wants() {
    let asking = ChatMessage {
        role: "assistant".to_string(),
        content: String::new(),
        tool_calls: vec![call("c1", "wait", "{}")],
        tool_call_id: None,
    };
    let both = ChatMessage {
        role: "assistant".to_string(),
        content: "let me see".to_string(),
        tool_calls: vec![call("c2", "wait", "{}")],
        tool_call_id: None,
    };
    let messages = vec![
        ChatMessage::system("be brief".to_string()),
        ChatMessage::user(String::new()),
        asking,
        both,
        ChatMessage::tool_result("c1".to_string(), "done".to_string()),
    ];
    let expected = read(
        r#"[{"role":"system","content":"be brief"},
            {"role":"user","content":""},
            {"role":"assistant","tool_calls":[{"id":"c1","type":"function","function":{"name":"wait","arguments":"{}"}}]},
            {"role":"assistant","content":"let me see","tool_calls":[{"id":"c2","type":"function","function":{"name":"wait","arguments":"{}"}}]},
            {"role":"tool","content":"done","tool_call_id":"c1"}]"#,
    );
    assert_eq!(messages_json(&messages), expected);
    let body = request_body(&messages, &read("[1]"));
    assert_eq!(body["messages"], expected);
    assert_eq!(body["tools"], read("[1]"));
    assert_eq!(body["stream"], true);
    assert_eq!(body["max_completion_tokens"], 4096);
    assert_eq!(body.as_object().unwrap().len(), 4);
}

fn line(cancelled: bool, l: Option<&str>) -> String {
    match read_line(cancelled, l.map(|s| s.to_string())) {
        LineStep::Stop => "stop".to_string(),
        LineStep::Skip => "skip".to_string(),
        LineStep::Data(d) => format!("data {d}"),
    }
}

#[test]
fn lines_of_an_answer() {
    assert_eq!(line(true, Some("data: {}")), "stop");
    assert_eq!(line(false, None), "stop");
    assert_eq!(line(false, Some("")), "skip");
    assert_eq!(line(false, Some("event: x")), "skip");
    assert_eq!(line(false, Some("data:{}")), "skip");
    assert_eq!(line(false, Some("data:  [DONE] ")), "stop");
    assert_eq!(line(false, Some("data: {\"a\":1}")), "data {\"a\":1}");
}

fn piece(index: u32, id: Option<&str>, name: Option<&str>, args: Option<&str>) -> StreamToolCall {
    StreamToolCall {
        index,
        id: id.map(|s| s.to_string()),
        function: Some(StreamToolFn {
            name: name.map(|s| s.to_string()),
            arguments: args.map(|s| s.to_string()),
        }),
    }
}

fn delta(content: Option<&str>, calls: Option<Vec<StreamToolCall>>) -> StreamDelta {
    StreamDelta { content: content.map(|s| s.to_string()), tool_calls: calls }
}

#[test]
fn answers_come_in_pieces() {
    let mut s = StreamState::new();
    assert_eq!(s.apply(vec![]), None);
    assert_eq!(s.apply(vec![delta(Some("Hel"), None)]), Some("Hel".to_string()));
    assert_eq!(s.apply(vec![delta(Some(""), None)]), None);
    assert_eq!(
        s.apply(vec![delta(Some("lo"), None), delta(Some("ignored"), None)]),
        Some("lo".to_string())
    );
    let first = vec![
        piece(1, Some("b"), Some("read_pane"), Some("{\"pa")),
        piece(0, Some("a"), Some("wait"), None),
        StreamToolCall { index: 3, id: Some("x".to_string()), function: None },
    ];
    assert_eq!(s.apply(vec![delta(None, Some(first))]), None);
    assert_eq!(
        s.apply(vec![delta(None, Some(vec![piece(1, None, None, Some("ne\":1}"))]))]),
        None
    );
    let (text, calls) = s.finish();
    assert_eq!(text, "Hello");
    let got: Vec<(String, String, String)> =
        calls.into_iter().map(|c| (c.id, c.name, c.arguments)).collect();
    assert_eq!(
        got,
        vec![
            ("a".to_string(), "wait".to_string(), String::new()),
            ("b".to_string(), "read_pane".to_string(), "{\"pane\":1}".to_string()),
        ]
    );
}

fn roles(a: &Agent) -> Vec<(String, String, Option<String>)> {
    a.messages
        .iter()
        .map(|m| (m.role.clone(), m.content.clone(), m.tool_call_id.clone()))
        .collect()
}

fn user(text: &str, context: &str) -> AgentEvent {
    AgentEvent::Input(AgentInput::User { text: text.to_string(), context: context.to_string() })
}

fn result(id: &str, content: &str) -> AgentEvent {
    AgentEvent::Input(AgentInput::ToolResult { id: id.to_string(), content: content.to_string() })
}

#[test]
fn a_request_runs_until_it_is_settled() {
    let mut a = Agent::new("sys".to_string());
    assert!(matches!(a.step(result("z", "stray")), AgentAction::Receive));
    assert!(matches!(a.step(user("hi", "ctx")), AgentAction::Begin));
    assert!(matches!(a.step(AgentEvent::Proceed { cancelled: false }), AgentAction::Stream));
    let calls = vec![call("1", "shell", "{}"), call("2", "read_pane", "{}")];
    let answered = AgentEvent::Answered { text: "ok".to_string(), calls, cancelled: false };
    match a.step(answered) {
        AgentAction::RunLocal(c) => assert_eq!(c.id, "1"),
        _ => panic!("the first tool is local"),
    }
    match a.step(AgentEvent::Ran("out".to_string())) {
        AgentAction::AskPane(c) => assert_eq!(c.id, "2"),
        _ => panic!("the second tool is for a pane"),
    }
    // Nothing but the awaited result counts.
    assert!(matches!(a.step(user("more", "")), AgentAction::Receive));
    assert!(matches!(a.step(result("1", "late")), AgentAction::Receive));
    assert!(matches!(a.step(result("2", "text")), AgentAction::Check));
    assert!(matches!(a.step(AgentEvent::Proceed { cancelled: false }), AgentAction::Stream));
    let last = AgentEvent::Answered { text: "bye".to_string(), calls: vec![], cancelled: false };
    assert!(matches!(a.step(last), AgentAction::Settle(AiEvent::Done)));
    assert!(matches!(a.phase, Phase::Idle));
    let said = roles(&a);
    assert_eq!(said.len(), 6);
    assert_eq!(said[0].0, "system");
    assert_eq!(said[1].1, "[terminal context]\nctx\n[/terminal context]\n\nhi");
    assert_eq!(said[2].0, "assistant");
    assert_eq!(said[3], ("tool".to_string(), "out".to_string(), Some("1".to_string())));
    assert_eq!(said[4], ("tool".to_string(), "text".to_string(), Some("2".to_string())));
    assert_eq!(said[5].1, "bye");
    assert!(matches!(a.step(AgentEvent::Closed), AgentAction::Quit));
}

#[test]
fn a_request_can_be_stopped_or_fail() {
    let mut a = Agent::new("sys".to_string());
    a.step(user("hi", ""));
    assert_eq!(roles(&a)[1].1, "hi");
    assert!(matches!(
        a.step(AgentEvent::Proceed { cancelled: true }),
        AgentAction::Settle(AiEvent::Done)
    ));
    a.step(user("again", ""));
    a.step(AgentEvent::Proceed { cancelled: false });
    match a.step(AgentEvent::Failed("no route".to_string())) {
        AgentAction::Settle(AiEvent::Error(e)) => assert_eq!(e, "no route"),
        _ => panic!("an error settles the request"),
    }
    a.step(user("third", ""));
    a.step(AgentEvent::Proceed { cancelled: false });
    let calls = vec![call("1", "list_panes", "{}")];
    assert!(matches!(
        a.step(AgentEvent::Answered { text: String::new(), calls, cancelled: true }),
        AgentAction::Settle(AiEvent::Done)
    ));
    a.step(user("fourth", ""));
    a.step(AgentEvent::Proceed { cancelled: false });
    let calls = vec![call("1", "list_panes", "{}")];
    a.step(AgentEvent::Answered { text: String::new(), calls, cancelled: false });
    assert!(matches!(a.step(AgentEvent::Closed), AgentAction::Check));
    assert_eq!(roles(&a).last().unwrap().1, "(no result)");
}

#[test]
fn some_tools_are_the_agents_own() {
    for name in [
        "shell",
        "shell_bg",
        "read_shell",
        "wait",
        "browser_open",
        "browser_read",
        "browser_request_login",
        "browser_save_login",
        "browser_setup",
    ] {
        assert!(is_local_tool(name), "{name}");
    }
    for name in ["run_command", "read_pane", "", "Shell"] {
        assert!(!is_local_tool(name), "{name}");
    }
}

#[test]
fn commands_run_between_marks() {
    assert_eq!(
        shell_line(5, "ls"),
        "echo __GT_5__BEGIN; ls; echo __GT_5__END$?\n"
    );
    let typed = "$ echo __GT_5__BEGIN; ls; echo __GT_5__END$?\n";
    assert_eq!(shell_output(typed, 5), None);
    let running = format!("{typed}__GT_5__BEGIN\na\n");
    assert_eq!(shell_output(&running, 5), None);
    let done = format!("{running}b\n\n__GT_5__END0\n$ ");
    assert_eq!(shell_output(&done, 5), Some("a\nb".to_string()));
    assert_eq!(shell_output(&done, 6), None);
    // A mark that ends in the last column has its status in the next row.
    let wrapped = format!("{typed}__GT_5__BEGIN\nabc__GT_5__END\n0\n$ ");
    assert_eq!(shell_output(&wrapped, 5), Some("abc".to_string()));
    let typed_wrapped = "$ echo __GT_5__BEGIN\n; ls; echo __GT_5__END\n$?\n";
    assert_eq!(shell_output(typed_wrapped, 5), None);
    assert_eq!(shell_output("", 5), None);
    assert!(matches!(poll_shell(&running, 5, false), ShellStep::Again));
    assert!(matches!(poll_shell(&running, 5, true), ShellStep::TimedOut));
    match poll_shell(&done, 5, true) {
        ShellStep::Finished(out) => assert_eq!(out, "a\nb"),
        _ => panic!("the command has ended"),
    }
    assert_eq!(timeout_text("x"), "(timed out after 30s; partial output)\nx");
}

fn shown(t: Option<LocalTool>) -> String {
    match t {
        None => "none".to_string(),
        Some(LocalTool::Reply(s)) => format!("reply {s}"),
        Some(LocalTool::Wait(v)) => format!("wait {v}"),
        Some(LocalTool::Shell(s)) => format!("shell {s}"),
        Some(LocalTool::ShellBg(s)) => format!("bg {s}"),
        Some(LocalTool::ReadShell(n)) => format!("read {n}"),
        Some(LocalTool::BrowserOpen(s)) => format!("open {s}"),
        Some(LocalTool::BrowserRead) => "page".to_string(),
        Some(LocalTool::RequestLogin(u)) => format!("login {u:?}"),
        Some(LocalTool::SaveLogin) => "save".to_string(),
        Some(LocalTool::Setup(m)) => format!("setup {m:?}"),
    }
}

#[test]
fn local_tools_are_planned() {
    let plan = |name: &str, args: &str| shown(plan_local(name, &read(args), true));
    assert_eq!(plan("wait", r#"{"seconds":1.5}"#), "wait 1.5");
    assert_eq!(plan("wait", "{}"), "wait null");
    assert_eq!(plan("shell", r#"{"command":"ls"}"#), "shell ls");
    assert_eq!(plan("shell", r#"{"command":3}"#), "shell ");
    assert_eq!(plan("shell_bg", r#"{"command":"ls"}"#), "bg ls");
    assert_eq!(plan("read_shell", "{}"), "read 80");
    assert_eq!(plan("read_shell", r#"{"lines":0}"#), "read 1");
    assert_eq!(plan("read_shell", r#"{"lines":9999}"#), "read 400");
    assert_eq!(plan("browser_open", r#"{"url":"u"}"#), "open u");
    assert_eq!(plan("browser_open", "{}"), "reply error: no url provided");
    assert_eq!(plan("browser_read", "null"), "page");
    assert_eq!(plan("browser_request_login", r#"{"url":"u"}"#), "login Some(\"u\")");
    assert_eq!(plan("browser_request_login", "{}"), "login None");
    assert_eq!(plan("browser_save_login", "{}"), "save");
    assert_eq!(plan("browser_setup", r#"{"mode":"off"}"#), "setup Off");
    assert_eq!(plan("browser_setup", r#"{"mode":"on"}"#), "setup Shared");
    assert_eq!(plan("browser_setup", "{}"), "setup Shared");
    assert_eq!(plan("read_pane", "{}"), "none");
    for name in ["shell", "shell_bg", "read_shell"] {
        assert_eq!(shown(plan_local(name, &read("{}"), false)), format!("reply {NO_SHELL}"));
    }
    assert_eq!(
        shown(plan_local_call(&call("1", "shell", r#"{"command":"pwd"}"#), true)),
        "shell pwd"
    );
    assert_eq!(shown(plan_local_call(&call("1", "shell", "not json"), true)), "shell ");
    assert_eq!(read_args("{"), Value::Null);
    assert_eq!(read_args("[1]"), read("[1]"));
}

#[test]
fn tool_texts_are_cut_for_the_model() {
    let long = "a".repeat(9_000);
    assert_eq!(LocalTool::ReadShell(80).tell(&long), truncate_tokens(&long, 1500));
    assert_eq!(LocalTool::BrowserRead.tell(&long), truncate_tokens(&long, 2000));
    assert_eq!(LocalTool::BrowserOpen("u".to_string()).tell(&long), truncate_tokens(&long, 2000));
    assert_eq!(LocalTool::SaveLogin.tell(&long), long);
    assert_eq!(
        background_reply("make"),
        "started in background: make\n(use wait + read_shell to monitor)"
    );
    assert_eq!(setup_reply(Ok("fine".to_string())), "fine");
    assert_eq!(setup_reply(Err("disk".to_string())), "failed: disk");
    assert!(BrowserMode::Off != BrowserMode::Shared);
}

#[test]
fn long_texts_keep_their_ends() {
    assert_eq!(truncate_tokens("short", 2), "short");
    assert_eq!(truncate_tokens("0123456789", 2), "01\n\n... [2 chars truncated] ...\n\n456789");
    assert_eq!(truncate_tokens("éééé", 1), "éééé");
    assert_eq!(truncate_tokens("aéééé", 1), "a\n\n... [1 chars truncated] ...\n\nééé");
    assert_eq!(truncate_tokens("abc", 0), "\n\n... [3 chars truncated] ...\n\n");
}

#[test]
fn the_model_is_told_of_its_tools() {
    let schema = tool_schema();
    let names: Vec<&str> = schema
        .as_array()
        .unwrap()
        .iter()
        .map(|t| t["function"]["name"].as_str().unwrap())
        .collect();
    assert_eq!(
        names,
        vec![
            "run_command",
            "read_pane",
            "send_keys",
            "grep_pane",
            "list_panes",
            "shell",
            "shell_bg",
            "read_shell",
            "wait",
            "set_grid",
            "usage_report",
            "browser_setup",
            "browser_request_login",
            "browser_save_login",
        ]
    );
    assert_eq!(schema[0]["type"], "function");
    assert_eq!(schema[0]["function"]["parameters"]["required"], read(r#"["pane","command"]"#));
    assert_eq!(schema[0]["function"]["parameters"]["properties"]["pane"]["type"], "integer");
    assert_eq!(
        schema[11]["function"]["parameters"]["properties"]["mode"]["enum"],
        read(r#"["on","off"]"#)
    );
    let prompt = system_prompt(80, 24);
    assert!(prompt.contains("Each pane is about 80x24 cells."), "{prompt}");
}
