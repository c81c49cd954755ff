//! Where the browser's files are, how agents' settings are merged, and what is
//! made of the broker's answers.

use gridterm::browser::{
    agent_of, broker_bootstrap_cmd, broker_command, broker_dir, broker_sock, browser_open,
    browser_read, control_line, control_reply, default_step_of, ensure_default,
    ensure_user_autoapprove, gt_dir, home_dir, is_agent, join_path, outdated, remove_browser_mcp,
    save_login_state, set_mode, shell_quote, shim_path, shim_server_entry, sock_path, status_line,
    surface_for_login, user_claude_json, user_settings_dir, user_settings_file,
    write_user_mcp_server, BrowserMode, DefaultStep, NOT_OPEN, READY, STARTING, STARTING_FOR_LOGIN,
};
use serde_json::Value;

fn entry() -> Value {
    let home = home_dir(Some("/home/me".to_string()));
    let shim = shim_path(None, &home);
    let dir = broker_dir(None, &home);
    shim_server_entry(&shim, &dir)
}

fn read(text: &str) -> Value {
    serde_json::from_str(text).unwrap()
}

#[test]
fn user_mcp_merge_without_clobbering() {
    let before = r#"{"theme":"dark","mcpServers":{"mine":{"command":"x","args":[]}}}"#;

    let after = write_user_mcp_server(Some(before.to_string()), entry());
    let v = read(&after);
    // Preserve unrelated keys and other servers.
    assert_eq!(v["theme"], "dark");
    assert!(v["mcpServers"]["mine"].is_object());
    assert!(v["mcpServers"]["playwright"]["command"]
        .as_str()
        .unwrap()
        .ends_with("gridterm-browser-shim"));

    let left = remove_browser_mcp(Some(after));
    assert!(left.is_some());
    let v2 = read(&left.unwrap());
    assert!(v2["mcpServers"]["mine"].is_object());
    assert!(v2["mcpServers"].get("playwright").is_none());
}

#[test]
fn upgrades_stale_npx_entry() {
    let before = r#"{"mcpServers":{"playwright":{"command":"npx","args":["-y","@playwright/mcp@latest","--cdp-endpoint","http://127.0.0.1:9222"]}}}"#;
    assert_eq!(ensure_default(Some(before.to_string())), DefaultStep::Write);
    let v = read(&write_user_mcp_server(Some(before.to_string()), entry()));
    assert!(v["mcpServers"]["playwright"]["command"]
        .as_str()
        .unwrap()
        .ends_with("gridterm-browser-shim"));
}

#[test]
fn user_autoapprove_is_nondestructive() {
    // Pre-existing user settings we must preserve (e.g. env, other perms).
    let before = r#"{"env":{"FOO":"bar"},"permissions":{"allow":["WebFetch(domain:example.com)"]}}"#;

    let v = read(&ensure_user_autoapprove(Some(before.to_string())));
    // Preserved the user's env + existing permission.
    assert_eq!(v["env"]["FOO"], "bar");
    assert_eq!(v["permissions"]["allow"][0], "WebFetch(domain:example.com)");
    // Our server is auto-allowed so the agent never prompts per-tool.
    assert!(v["permissions"]["allow"]
        .as_array()
        .unwrap()
        .iter()
        .any(|p| p == "mcp__playwright"));
}

#[test]
fn approving_twice_changes_nothing_more() {
    let once = ensure_user_autoapprove(None);
    assert_eq!(read(&once)["permissions"]["allow"].as_array().unwrap().len(), 1);
    assert_eq!(ensure_user_autoapprove(Some(once.clone())), once);
}

#[test]
fn approving_replaces_what_is_no_list() {
    let v = read(&ensure_user_autoapprove(Some(
        r#"{"permissions":{"allow":7,"deny":["x"]}}"#.to_string(),
    )));
    assert_eq!(v["permissions"]["allow"][0], "mcp__playwright");
    assert_eq!(v["permissions"]["deny"][0], "x");
    let w = read(&ensure_user_autoapprove(Some(r#"{"permissions":[],"a":1}"#.to_string())));
    assert_eq!(w["permissions"]["allow"][0], "mcp__playwright");
    assert_eq!(w["a"], 1);
}

#[test]
fn unreadable_settings_start_afresh() {
    let v = read(&ensure_user_autoapprove(Some("not json".to_string())));
    assert_eq!(v["permissions"]["allow"][0], "mcp__playwright");
    let w = read(&ensure_user_autoapprove(Some("[1,2]".to_string())));
    assert!(w.is_object());
    let u = read(&write_user_mcp_server(Some("[1,2]".to_string()), entry()));
    assert!(u["mcpServers"]["playwright"].is_object());
}

#[test]
fn a_list_of_servers_that_is_none_is_left_alone() {
    let v = read(&write_user_mcp_server(Some(r#"{"mcpServers":3}"#.to_string()), entry()));
    assert_eq!(v["mcpServers"], 3);
}

#[test]
fn written_settings_are_over_several_lines() {
    let text = ensure_user_autoapprove(None);
    assert_eq!(
        text,
        "{\n  \"permissions\": {\n    \"allow\": [\n      \"mcp__playwright\"\n    ]\n  }\n}"
    );
}

#[test]
fn the_entry_that_is_written_is_current() {
    let text = write_user_mcp_server(None, entry());
    assert_eq!(ensure_default(Some(text)), DefaultStep::Current);
}

#[test]
fn a_custom_entry_is_left_alone() {
    let text = r#"{"mcpServers":{"playwright":{"command":"mine","args":["a"]}}}"#;
    assert_eq!(ensure_default(Some(text.to_string())), DefaultStep::Custom);
    assert_eq!(
        ensure_default(Some(r#"{"mcpServers":{"playwright":5}}"#.to_string())),
        DefaultStep::Custom
    );
    assert_eq!(ensure_default(None), DefaultStep::Write);
    assert_eq!(ensure_default(Some("x".to_string())), DefaultStep::Write);
    assert_eq!(default_step_of(&read("[]")), DefaultStep::Write);
}

#[test]
fn removing_what_is_not_there_writes_nothing() {
    assert!(remove_browser_mcp(None).is_none());
    assert!(remove_browser_mcp(Some("{".to_string())).is_none());
    assert!(remove_browser_mcp(Some("{}".to_string())).is_none());
    assert!(remove_browser_mcp(Some(r#"{"mcpServers":{}}"#.to_string())).is_none());
    assert!(remove_browser_mcp(Some(r#"{"mcpServers":"x"}"#.to_string())).is_none());
}

#[test]
fn modes_are_set_and_unset() {
    let on = set_mode(BrowserMode::Shared, None, None, entry());
    assert_eq!(on.message, READY);
    let servers = on.servers.unwrap();
    assert!(read(&servers)["mcpServers"]["playwright"].is_object());
    assert!(on.settings.is_some());
    let off = set_mode(BrowserMode::Off, Some(servers), None, entry());
    assert_eq!(off.message, "Browser access disabled.");
    assert_eq!(read(&off.servers.unwrap())["mcpServers"].as_object().unwrap().len(), 0);
    assert!(off.settings.is_none());
    let none = set_mode(BrowserMode::Off, None, None, entry());
    assert_eq!(none.message, "Browser access was not configured.");
    assert!(none.servers.is_none());
}

#[test]
fn paths_are_joined() {
    assert_eq!(join_path("/a", "b"), "/a/b");
    assert_eq!(join_path("/a/", "b"), "/a/b");
    assert_eq!(join_path("", "b"), "b");
    assert_eq!(home_dir(None), "/tmp");
    assert_eq!(home_dir(Some("/h".to_string())), "/h");
    assert_eq!(gt_dir("/h"), "/h/.gridterm");
    assert_eq!(broker_dir(None, "/h"), "/h/.gridterm/broker");
    assert_eq!(broker_dir(Some("/x".to_string()), "/h"), "/x");
    assert_eq!(broker_sock("/h"), "/h/.gridterm/browser-broker.sock");
    assert_eq!(sock_path("/h"), broker_sock("/h"));
    assert_eq!(sock_path("/"), broker_sock("/"));
    assert_eq!(shim_path(None, "/h"), "/h/.gridterm/gridterm-browser-shim");
    assert_eq!(shim_path(Some("/bin/s".to_string()), "/h"), "/bin/s");
    assert_eq!(user_claude_json("/h", "agent"), "/h/.agent.json");
    assert_eq!(user_settings_dir("/h", "agent"), "/h/.agent");
    assert_eq!(user_settings_file("/h", "agent"), "/h/.agent/settings.json");
}

#[test]
fn paths_join_as_the_standard_library_joins_them() {
    for dir in ["/a", "/a/", "", "/", "x/y"] {
        let std = std::path::PathBuf::from(dir).join("name");
        assert_eq!(join_path(dir, "name"), std.to_string_lossy());
    }
}

#[test]
fn quotes_are_escaped_for_the_shell() {
    assert_eq!(shell_quote("a b"), "'a b'");
    assert_eq!(shell_quote("it's"), "'it'\\''s'");
    assert_eq!(shell_quote(""), "''");
    assert_eq!(
        broker_bootstrap_cmd("/x y"),
        "cd '/x y' >/dev/null 2>&1 && nohup node broker.mjs >/dev/null 2>&1 &"
    );
}

#[test]
fn the_entry_names_the_program_and_how_to_start_the_broker() {
    let e = shim_server_entry("/s", "/d");
    assert_eq!(e["command"], "/s");
    assert_eq!(e["args"].as_array().unwrap().len(), 0);
    assert_eq!(e["env"]["GRIDTERM_BROKER_CMD"], broker_bootstrap_cmd("/d").as_str());
}

#[test]
fn commands_are_framed_as_one_line() {
    let cmd = broker_command("nav", Some("http://x/\ny"));
    let line = control_line(&cmd);
    assert_eq!(line, "CTL {\"cmd\":\"nav\",\"url\":\"http://x/\\ny\"}\n");
    assert_eq!(line.matches('\n').count(), 1);
    let back: Value = serde_json::from_str(line["CTL ".len()..].trim()).unwrap();
    assert_eq!(back, cmd);
    assert_eq!(control_line(&broker_command("read", None)), "CTL {\"cmd\":\"read\"}\n");
}

#[test]
fn only_the_first_line_of_an_answer_counts() {
    let v = control_reply("  {\"ok\":true}  \nrest").unwrap();
    assert_eq!(v["ok"], true);
    let e = control_reply("oops\n{}").unwrap_err();
    assert!(e.starts_with("bad reply: "), "{e}");
    assert!(e.ends_with(": oops"), "{e}");
    assert!(control_reply("").unwrap_err().starts_with("bad reply: "));
}

#[test]
fn login_windows_are_reported() {
    let ok = || Some(Ok(read(r#"{"ok":true}"#)));
    let at = surface_for_login(Some("http://x"), ok());
    assert!(at.starts_with("Opened a browser window at http://x. Please sign in there."), "{at}");
    let any = surface_for_login(None, ok());
    assert!(any.starts_with("Opened a browser window at the site you need. Please"), "{any}");
    assert_eq!(
        surface_for_login(None, Some(Ok(read(r#"{"ok":false}"#)))),
        "couldn't surface the login window: {\"ok\":false}"
    );
    assert_eq!(
        surface_for_login(None, Some(Err("gone".to_string()))),
        "couldn't surface the login window: gone"
    );
    assert_eq!(surface_for_login(None, None), STARTING_FOR_LOGIN);
}

#[test]
fn sessions_are_reported() {
    let said = save_login_state(Ok(read(r#"{"count":12}"#)));
    assert!(said.starts_with("You're signed in (12 cookies in the shared session)."), "{said}");
    assert!(save_login_state(Ok(read("{}"))).starts_with("You're signed in (0 cookies"));
    assert_eq!(save_login_state(Err("x".to_string())), "couldn't read the session: x");
}

#[test]
fn pages_are_reported() {
    let page = r#"{"ok":true,"title":"T","url":"http://y","text":"body"}"#;
    assert_eq!(
        browser_open("http://x", Some(Ok(read(page)))),
        "Opened http://y\nTitle: T\n\nPage text:\nbody"
    );
    assert_eq!(
        browser_open("http://x", Some(Ok(read(r#"{"ok":true}"#)))),
        "Opened http://x\nTitle: \n\nPage text:\n"
    );
    assert_eq!(
        browser_open("http://x", Some(Ok(read(r#"{"error":"dns"}"#)))),
        "couldn't open http://x: dns"
    );
    assert_eq!(
        browser_open("http://x", Some(Ok(read("{}")))),
        "couldn't open http://x: unknown error"
    );
    assert_eq!(browser_open("u", Some(Err("e".to_string()))), "couldn't open u: e");
    assert_eq!(browser_open("u", None), STARTING);
    assert_eq!(browser_read(Some(Ok(read(page)))), "http://y\nTitle: T\n\nPage text:\nbody");
    assert_eq!(
        browser_read(Some(Ok(read("{}")))),
        "couldn't read the page: unknown error"
    );
    assert_eq!(browser_read(Some(Err("e".to_string()))), "couldn't read the page: e");
    assert_eq!(browser_read(None), NOT_OPEN);
}

#[test]
fn the_broker_reports_its_state() {
    assert_eq!(
        status_line(Ok(read(r#"{"identity":true,"pages":3,"clients":2}"#))),
        "browser: identity=true worker=false pages=3 clients=2"
    );
    assert_eq!(status_line(Err("x".to_string())), "browser broker: not running");
}

#[test]
fn broker_files_are_written_where_they_differ() {
    assert!(outdated(None, "a"));
    assert!(outdated(Some("b".to_string()), "a"));
    assert!(!outdated(Some("a".to_string()), "a"));
}

#[test]
fn agents_are_found_by_their_files() {
    assert_eq!(agent_of(".agent.json"), Some("agent".to_string()));
    assert_eq!(agent_of(".a.b.json"), Some("a.b".to_string()));
    assert_eq!(agent_of(".json"), None);
    assert_eq!(agent_of("..json"), None);
    assert_eq!(agent_of("agent.json"), None);
    assert_eq!(agent_of(".agent.js"), None);
    let text = |s: &str| Some(s.to_string());
    assert!(is_agent(text(r#"{"mcpServers":{}}"#), None));
    assert!(is_agent(text(r#"{"projects":{}}"#), text("{}")));
    assert!(!is_agent(text(r#"{"projects":{}}"#), None));
    assert!(!is_agent(text(r#"{"mcpServers":3}"#), text("[]")));
    assert!(!is_agent(text("[]"), text("{}")));
    assert!(!is_agent(text("{"), text("{}")));
    assert!(!is_agent(None, text("{}")));
    let entry = shim_server_entry("/bin/s", "/b");
    let on = set_mode(BrowserMode::Shared, text(r#"{"a":1}"#), None, entry);
    assert!(is_agent(on.servers, None));
}
