//! What the model is told: the tools that it can call, and its instructions;
//! and how long texts are cut down for it.

use serde_json::Value;
use vstd::prelude::*;

use crate::json;
use crate::json::{array, insert, object, string, Json};
use crate::text;
use crate::text::{from_chars, push_decimal, to_chars};

verus! {

/// Told to the model.
pub const ABOUT_RUN_COMMAND: &'static str =
    "Type a command into a terminal pane and run it (presses Enter). Use this to execute shell commands, run code, install things, etc. Output appears in that pane; read it back with read_pane.";

/// Told to the model.
pub const ABOUT_RUN_COMMAND_PANE: &'static str =
    "Pane index (0-based) to run in.";

/// Told to the model.
pub const ABOUT_RUN_COMMAND_COMMAND: &'static str =
    "The exact shell command to run.";

/// Told to the model.
pub const ABOUT_READ_PANE: &'static str =
    "Read the recent output of a terminal pane, including scrollback. Use after run_command to see results.";

/// Told to the model.
pub const ABOUT_READ_PANE_PANE: &'static str =
    "Pane index (0-based).";

/// Told to the model.
pub const ABOUT_READ_PANE_LINES: &'static str =
    "How many recent lines to read (default 80, max 400).";

/// Told to the model.
pub const ABOUT_SEND_KEYS: &'static str =
    "Send raw keystrokes to a pane WITHOUT pressing Enter (e.g. to answer an interactive prompt, send Ctrl-C as \\u0003, or type 'y'). Use control chars directly.";

/// Told to the model.
pub const ABOUT_SEND_KEYS_KEYS: &'static str =
    "Raw bytes to send (may include control chars).";

/// Told to the model.
pub const ABOUT_GREP_PANE: &'static str =
    "Search a pane's visible+scrollback content for a substring (case-insensitive) and return matching lines.";

/// Told to the model.
pub const ABOUT_LIST_PANES: &'static str =
    "List all open terminal panes with their index, grid position, and current working directory if known.";

/// Told to the model.
pub const ABOUT_SHELL: &'static str =
    "Run a command in YOUR OWN private shell (not visible to the user, not one of their panes) and wait for it to finish (up to 30s). Use this for your own investigation: grep, find, cat, ls, running scripts, checking git, etc. Returns the command's output directly. Prefer this for read-only/inspection work so you don't clutter the user's terminals.";

/// Told to the model.
pub const ABOUT_SHELL_COMMAND: &'static str =
    "Shell command to run in your private shell.";

/// Told to the model.
pub const ABOUT_SHELL_BG: &'static str =
    "Start a long-running or never-ending command in your private shell WITHOUT waiting (returns immediately). Use for things you want to monitor over time: starting a server, tailing logs, watching a build. Combine with wait + read_shell to poll progress.";

/// Told to the model.
pub const ABOUT_SHELL_BG_COMMAND: &'static str =
    "Command to start in the background.";

/// Told to the model.
pub const ABOUT_READ_SHELL: &'static str =
    "Read the recent output of your private shell (after shell_bg or to recheck). Returns the last N lines.";

/// Told to the model.
pub const ABOUT_READ_SHELL_LINES: &'static str =
    "Recent lines to read (default 80, max 400).";

/// Told to the model.
pub const ABOUT_WAIT: &'static str =
    "Pause for a number of seconds before continuing. Use this to let a command/server/build make progress, then read_pane or read_shell to observe. Lets you monitor things over time.";

/// Told to the model.
pub const ABOUT_WAIT_SECONDS: &'static str =
    "How long to wait (1-30).";

/// Told to the model.
pub const ABOUT_SET_GRID: &'static str =
    "Change the terminal grid layout to cols x rows. GROWING the grid is safe and keeps all existing terminals alive (new empty panes are added). SHRINKING the grid CLOSES the terminals (and their running processes) that no longer fit — only do this when the user explicitly asks to close/remove panes, and you must pass allow_close=true to confirm. Index is row-major, 0-based.";

/// Told to the model.
pub const ABOUT_SET_GRID_COLS: &'static str =
    "Number of columns (1-12).";

/// Told to the model.
pub const ABOUT_SET_GRID_ROWS: &'static str =
    "Number of rows (1-12).";

/// Told to the model.
pub const ABOUT_SET_GRID_ALLOW_CLOSE: &'static str =
    "Must be true to allow shrinking the grid (which closes terminals). Defaults false.";

/// Told to the model.
pub const ABOUT_USAGE_REPORT: &'static str =
    "Get the captured token usage and estimated cost (USD) per terminal pane and in total, for coding agents (Codex and others) running in the panes. Use when the user asks what something has cost, how many tokens were used, or to summarize spend.";

/// Told to the model.
pub const ABOUT_BROWSER_SETUP: &'static str =
    "Configure browser access for the coding agents. 'on' = each agent gets its own isolated browser session, all sharing the saved logins (headless, lazy, low-RAM). 'off' = disable. On by default.";

/// Told to the model.
pub const ABOUT_BROWSER_REQUEST_LOGIN: &'static str =
    "Call this when a browser action is blocked by a login/auth wall. It opens a browser window so the user can sign in once. Pass the URL that needs login. After calling, tell the user to log in and then say when they're done so you can save the session.";

/// Told to the model.
pub const ABOUT_BROWSER_REQUEST_LOGIN_URL: &'static str =
    "The URL that requires login (optional).";

/// Told to the model.
pub const ABOUT_BROWSER_SAVE_LOGIN: &'static str =
    "Call this AFTER the user confirms they have logged in (following browser_request_login). It captures the logged-in session and shares it with all agents (each keeps an isolated session but inherits the credentials), so they can browse authenticated sites headlessly afterward.";

/// A list of names as a JSON document.
pub open spec fn names_json(names: Seq<Seq<char>>) -> Json {
    Json::Array(names.map_values(|s: Seq<char>| Json::Text(s)))
}

/// What the model is told of a parameter: its type, and what it is for.
pub open spec fn param_json(kind: Seq<char>, about: Option<Seq<char>>) -> Json {
    let m = Map::<Seq<char>, Json>::empty().insert("type"@, Json::Text(kind));
    Json::Object(
        match about {
            Some(d) => m.insert("description"@, Json::Text(d)),
            None => m,
        },
    )
}

/// What the model is told of a parameter with the given choices.
pub open spec fn choice_json(choices: Seq<Seq<char>>) -> Json {
    Json::Object(
        Map::<Seq<char>, Json>::empty().insert("type"@, Json::Text("string"@)).insert(
            "enum"@,
            names_json(choices),
        ),
    )
}

/// What the model is told of a tool: its name, what it is for, its parameters,
/// and which of them a call must give.
pub open spec fn tool_json(
    name: Seq<char>,
    about: Seq<char>,
    props: Map<Seq<char>, Json>,
    required: Option<Seq<Seq<char>>>,
) -> Json {
    let m = Map::<Seq<char>, Json>::empty().insert("type"@, Json::Text("object"@)).insert(
        "properties"@,
        Json::Object(props),
    );
    let parameters = Json::Object(
        match required {
            Some(names) => m.insert("required"@, names_json(names)),
            None => m,
        },
    );
    let function = Json::Object(
        Map::<Seq<char>, Json>::empty().insert("name"@, Json::Text(name)).insert(
            "description"@,
            Json::Text(about),
        ).insert("parameters"@, parameters),
    );
    Json::Object(
        Map::<Seq<char>, Json>::empty().insert("type"@, Json::Text("function"@)).insert(
            "function"@,
            function,
        ),
    )
}

/// What the model is told of the tool `run_command`.
pub open spec fn schema_run_command() -> Json {
    tool_json(
        "run_command"@,
        ABOUT_RUN_COMMAND@,
        Map::<Seq<char>, Json>::empty().insert(
            "pane"@,
            param_json("integer"@, Some(ABOUT_RUN_COMMAND_PANE@)),
        ).insert(
            "command"@,
            param_json("string"@, Some(ABOUT_RUN_COMMAND_COMMAND@)),
        ),
        Some(seq!["pane"@, "command"@]),
    )
}

/// What the model is told of the tool `read_pane`.
pub open spec fn schema_read_pane() -> Json {
    tool_json(
        "read_pane"@,
        ABOUT_READ_PANE@,
        Map::<Seq<char>, Json>::empty().insert(
            "pane"@,
            param_json("integer"@, Some(ABOUT_READ_PANE_PANE@)),
        ).insert(
            "lines"@,
            param_json("integer"@, Some(ABOUT_READ_PANE_LINES@)),
        ),
        Some(seq!["pane"@]),
    )
}

/// What the model is told of the tool `send_keys`.
pub open spec fn schema_send_keys() -> Json {
    tool_json(
        "send_keys"@,
        ABOUT_SEND_KEYS@,
        Map::<Seq<char>, Json>::empty().insert(
            "pane"@,
            param_json("integer"@, None),
        ).insert(
            "keys"@,
            param_json("string"@, Some(ABOUT_SEND_KEYS_KEYS@)),
        ),
        Some(seq!["pane"@, "keys"@]),
    )
}

/// What the model is told of the tool `grep_pane`.
pub open spec fn schema_grep_pane() -> Json {
    tool_json(
        "grep_pane"@,
        ABOUT_GREP_PANE@,
        Map::<Seq<char>, Json>::empty().insert(
            "pane"@,
            param_json("integer"@, None),
        ).insert(
            "pattern"@,
            param_json("string"@, None),
        ),
        Some(seq!["pane"@, "pattern"@]),
    )
}

/// What the model is told of the tool `list_panes`.
pub open spec fn schema_list_panes() -> Json {
    tool_json(
        "list_panes"@,
        ABOUT_LIST_PANES@,
        Map::<Seq<char>, Json>::empty(),
        None,
    )
}

/// What the model is told of the tool `shell`.
pub open spec fn schema_shell() -> Json {
    tool_json(
        "shell"@,
        ABOUT_SHELL@,
        Map::<Seq<char>, Json>::empty().insert(
            "command"@,
            param_json("string"@, Some(ABOUT_SHELL_COMMAND@)),
        ),
        Some(seq!["command"@]),
    )
}

/// What the model is told of the tool `shell_bg`.
pub open spec fn schema_shell_bg() -> Json {
    tool_json(
        "shell_bg"@,
        ABOUT_SHELL_BG@,
        Map::<Seq<char>, Json>::empty().insert(
            "command"@,
            param_json("string"@, Some(ABOUT_SHELL_BG_COMMAND@)),
        ),
        Some(seq!["command"@]),
    )
}

/// What the model is told of the tool `read_shell`.
pub open spec fn schema_read_shell() -> Json {
    tool_json(
        "read_shell"@,
        ABOUT_READ_SHELL@,
        Map::<Seq<char>, Json>::empty().insert(
            "lines"@,
            param_json("integer"@, Some(ABOUT_READ_SHELL_LINES@)),
        ),
        None,
    )
}

/// What the model is told of the tool `wait`.
pub open spec fn schema_wait() -> Json {
    tool_json(
        "wait"@,
        ABOUT_WAIT@,
        Map::<Seq<char>, Json>::empty().insert(
            "seconds"@,
            param_json("number"@, Some(ABOUT_WAIT_SECONDS@)),
        ),
        Some(seq!["seconds"@]),
    )
}

/// What the model is told of the tool `set_grid`.
pub open spec fn schema_set_grid() -> Json {
    tool_json(
        "set_grid"@,
        ABOUT_SET_GRID@,
        Map::<Seq<char>, Json>::empty().insert(
            "cols"@,
            param_json("integer"@, Some(ABOUT_SET_GRID_COLS@)),
        ).insert(
            "rows"@,
            param_json("integer"@, Some(ABOUT_SET_GRID_ROWS@)),
        ).insert(
            "allow_close"@,
            param_json("boolean"@, Some(ABOUT_SET_GRID_ALLOW_CLOSE@)),
        ),
        Some(seq!["cols"@, "rows"@]),
    )
}

/// What the model is told of the tool `usage_report`.
pub open spec fn schema_usage_report() -> Json {
    tool_json(
        "usage_report"@,
        ABOUT_USAGE_REPORT@,
        Map::<Seq<char>, Json>::empty(),
        None,
    )
}

/// What the model is told of the tool `browser_setup`.
pub open spec fn schema_browser_setup() -> Json {
    tool_json(
        "browser_setup"@,
        ABOUT_BROWSER_SETUP@,
        Map::<Seq<char>, Json>::empty().insert(
            "mode"@,
            choice_json(seq!["on"@, "off"@]),
        ),
        Some(seq!["mode"@]),
    )
}

/// What the model is told of the tool `browser_request_login`.
pub open spec fn schema_browser_request_login() -> Json {
    tool_json(
        "browser_request_login"@,
        ABOUT_BROWSER_REQUEST_LOGIN@,
        Map::<Seq<char>, Json>::empty().insert(
            "url"@,
            param_json("string"@, Some(ABOUT_BROWSER_REQUEST_LOGIN_URL@)),
        ),
        None,
    )
}

/// What the model is told of the tool `browser_save_login`.
pub open spec fn schema_browser_save_login() -> Json {
    tool_json(
        "browser_save_login"@,
        ABOUT_BROWSER_SAVE_LOGIN@,
        Map::<Seq<char>, Json>::empty(),
        None,
    )
}

/// The tools that the model is told of, as the JSON document that tells it.
pub open spec fn schema() -> Json {
    Json::Array(
        seq![
            schema_run_command(),
            schema_read_pane(),
            schema_send_keys(),
            schema_grep_pane(),
            schema_list_panes(),
            schema_shell(),
            schema_shell_bg(),
            schema_read_shell(),
            schema_wait(),
            schema_set_grid(),
            schema_usage_report(),
            schema_browser_setup(),
            schema_browser_request_login(),
            schema_browser_save_login(),
        ],
    )
}

fn names_value(names: &Vec<&str>) -> (r: Value)
    ensures
        json::json_of(r) == names_json(names@.map_values(|s: &str| s@)),
{
    let mut items: Vec<Value> = Vec::new();
    let n: usize = names.len();
    let mut i: usize = 0;
    while i < n
        invariant
            i <= n,
            n == names.len(),
            items.len() == i,
            forall|j: int| 0 <= j < i ==> json::json_of(#[trigger] items@[j]) == Json::Text(names@[j]@),
        decreases n - i,
    {
        items.push(string(names[i]));
        i = i + 1;
    }
    proof {
        assert(items@.map_values(|x: Value| json::json_of(x)) =~= names@.map_values(
            |s: &str| s@,
        ).map_values(|s: Seq<char>| Json::Text(s)));
    }
    array(items)
}

fn one_name(a: &str) -> (r: Value)
    ensures
        json::json_of(r) == names_json(seq![a@]),
{
    let names: Vec<&str> = vec![a];
    assert(names@.map_values(|s: &str| s@) =~= seq![a@]);
    names_value(&names)
}

fn two_names(a: &str, b: &str) -> (r: Value)
    ensures
        json::json_of(r) == names_json(seq![a@, b@]),
{
    let names: Vec<&str> = vec![a, b];
    assert(names@.map_values(|s: &str| s@) =~= seq![a@, b@]);
    names_value(&names)
}

fn param(kind: &str, about: Option<&str>) -> (r: Value)
    ensures
        json::json_of(r) == param_json(
            kind@,
            match about {
                Some(d) => Some(d@),
                None => None,
            },
        ),
{
    let mut r: Value = object();
    insert(&mut r, "type", string(kind));
    if let Some(d) = about {
        insert(&mut r, "description", string(d));
    }
    r
}

fn choice_param(a: &str, b: &str) -> (r: Value)
    ensures
        json::json_of(r) == choice_json(seq![a@, b@]),
{
    let mut r: Value = object();
    insert(&mut r, "type", string("string"));
    insert(&mut r, "enum", two_names(a, b));
    r
}

fn tool(name: &str, about: &str, props: Value, required: Option<Value>) -> (r: Value)
    requires
        json::json_of(props) is Object,
        required matches Some(v) ==> exists|names: Seq<Seq<char>>|
            json::json_of(v) == #[trigger] names_json(names),
    ensures
        match required {
            Some(v) => forall|names: Seq<Seq<char>>|
                json::json_of(v) == #[trigger] names_json(names) ==> json::json_of(r) == tool_json(
                    name@,
                    about@,
                    crate::json::members(json::json_of(props)),
                    Some(names),
                ),
            None => json::json_of(r) == tool_json(
                name@,
                about@,
                crate::json::members(json::json_of(props)),
                None,
            ),
        },
{
    let mut parameters: Value = object();
    insert(&mut parameters, "type", string("object"));
    insert(&mut parameters, "properties", props);
    if let Some(names) = required {
        insert(&mut parameters, "required", names);
    }
    let mut function: Value = object();
    insert(&mut function, "name", string(name));
    insert(&mut function, "description", string(about));
    insert(&mut function, "parameters", parameters);
    let mut r: Value = object();
    insert(&mut r, "type", string("function"));
    insert(&mut r, "function", function);
    r
}

fn tool_run_command() -> (r: Value)
    ensures
        json::json_of(r) == schema_run_command(),
{
    let mut props: Value = object();
    insert(&mut props, "pane", param("integer", Some(ABOUT_RUN_COMMAND_PANE)));
    insert(&mut props, "command", param("string", Some(ABOUT_RUN_COMMAND_COMMAND)));
    tool("run_command", ABOUT_RUN_COMMAND, props, Some(two_names("pane", "command")))
}

fn tool_read_pane() -> (r: Value)
    ensures
        json::json_of(r) == schema_read_pane(),
{
    let mut props: Value = object();
    insert(&mut props, "pane", param("integer", Some(ABOUT_READ_PANE_PANE)));
    insert(&mut props, "lines", param("integer", Some(ABOUT_READ_PANE_LINES)));
    tool("read_pane", ABOUT_READ_PANE, props, Some(one_name("pane")))
}

fn tool_send_keys() -> (r: Value)
    ensures
        json::json_of(r) == schema_send_keys(),
{
    let mut props: Value = object();
    insert(&mut props, "pane", param("integer", None));
    insert(&mut props, "keys", param("string", Some(ABOUT_SEND_KEYS_KEYS)));
    tool("send_keys", ABOUT_SEND_KEYS, props, Some(two_names("pane", "keys")))
}

fn tool_grep_pane() -> (r: Value)
    ensures
        json::json_of(r) == schema_grep_pane(),
{
    let mut props: Value = object();
    insert(&mut props, "pane", param("integer", None));
    insert(&mut props, "pattern", param("string", None));
    tool("grep_pane", ABOUT_GREP_PANE, props, Some(two_names("pane", "pattern")))
}

fn tool_list_panes() -> (r: Value)
    ensures
        json::json_of(r) == schema_list_panes(),
{
    let props: Value = object();
    tool("list_panes", ABOUT_LIST_PANES, props, None)
}

fn tool_shell() -> (r: Value)
    ensures
        json::json_of(r) == schema_shell(),
{
    let mut props: Value = object();
    insert(&mut props, "command", param("string", Some(ABOUT_SHELL_COMMAND)));
    tool("shell", ABOUT_SHELL, props, Some(one_name("command")))
}

fn tool_shell_bg() -> (r: Value)
    ensures
        json::json_of(r) == schema_shell_bg(),
{
    let mut props: Value = object();
    insert(&mut props, "command", param("string", Some(ABOUT_SHELL_BG_COMMAND)));
    tool("shell_bg", ABOUT_SHELL_BG, props, Some(one_name("command")))
}

fn tool_read_shell() -> (r: Value)
    ensures
        json::json_of(r) == schema_read_shell(),
{
    let mut props: Value = object();
    insert(&mut props, "lines", param("integer", Some(ABOUT_READ_SHELL_LINES)));
    tool("read_shell", ABOUT_READ_SHELL, props, None)
}

fn tool_wait() -> (r: Value)
    ensures
        json::json_of(r) == schema_wait(),
{
    let mut props: Value = object();
    insert(&mut props, "seconds", param("number", Some(ABOUT_WAIT_SECONDS)));
    tool("wait", ABOUT_WAIT, props, Some(one_name("seconds")))
}

fn tool_set_grid() -> (r: Value)
    ensures
        json::json_of(r) == schema_set_grid(),
{
    let mut props: Value = object();
    insert(&mut props, "cols", param("integer", Some(ABOUT_SET_GRID_COLS)));
    insert(&mut props, "rows", param("integer", Some(ABOUT_SET_GRID_ROWS)));
    insert(&mut props, "allow_close", param("boolean", Some(ABOUT_SET_GRID_ALLOW_CLOSE)));
    tool("set_grid", ABOUT_SET_GRID, props, Some(two_names("cols", "rows")))
}

fn tool_usage_report() -> (r: Value)
    ensures
        json::json_of(r) == schema_usage_report(),
{
    let props: Value = object();
    tool("usage_report", ABOUT_USAGE_REPORT, props, None)
}

fn tool_browser_setup() -> (r: Value)
    ensures
        json::json_of(r) == schema_browser_setup(),
{
    let mut props: Value = object();
    insert(&mut props, "mode", choice_param("on", "off"));
    tool("browser_setup", ABOUT_BROWSER_SETUP, props, Some(one_name("mode")))
}

fn tool_browser_request_login() -> (r: Value)
    ensures
        json::json_of(r) == schema_browser_request_login(),
{
    let mut props: Value = object();
    insert(&mut props, "url", param("string", Some(ABOUT_BROWSER_REQUEST_LOGIN_URL)));
    tool("browser_request_login", ABOUT_BROWSER_REQUEST_LOGIN, props, None)
}

fn tool_browser_save_login() -> (r: Value)
    ensures
        json::json_of(r) == schema_browser_save_login(),
{
    let props: Value = object();
    tool("browser_save_login", ABOUT_BROWSER_SAVE_LOGIN, props, None)
}

/// The JSON tool/function schema advertised to the model. Tools that touch
/// panes are executed by the window's thread, which owns the terminals.
pub fn tool_schema() -> (r: Value)
    ensures
        json::json_of(r) == schema(),
{
    let items: Vec<Value> = vec![
        tool_run_command(),
        tool_read_pane(),
        tool_send_keys(),
        tool_grep_pane(),
        tool_list_panes(),
        tool_shell(),
        tool_shell_bg(),
        tool_read_shell(),
        tool_wait(),
        tool_set_grid(),
        tool_usage_report(),
        tool_browser_setup(),
        tool_browser_request_login(),
        tool_browser_save_login(),
    ];
    proof {
        assert(items@.map_values(|x: Value| json::json_of(x)) =~= crate::json::items_of(schema())->0);
    }
    array(items)
}

/// The instructions up to the size of the panes.
pub const PROMPT_HEAD: &'static str =
    "You are an AI agent embedded directly inside a fast grid terminal emulator on macOS. \
The user has multiple terminal panes arranged in a grid; each pane runs a real shell. \
You can SEE the panes (their content is provided as context) and you can DRIVE them via tools: \
run_command runs a shell command in a chosen pane, read_pane reads its output, send_keys sends raw \
keystrokes (for interactive prompts), grep_pane searches a pane, and list_panes lists them. \
You ALSO have your own private `shell` tool — a separate hidden shell only you can use — for your own \
investigation (grep, find, cat, git, running scripts) without cluttering the user's visible terminals.\n\n\
Operating rules:\n\
- You have full autonomy: run commands as needed to accomplish the user's goal without asking for confirmation.\n\
- DEFAULT TO YOUR PRIVATE `shell` for everything you do yourself: inspecting, grepping, reading files, \
running scripts, checking things. It does not disturb the user's terminals.\n\
- ONLY use run_command (which types into the user's VISIBLE panes) when the user explicitly wants \
something to run in a specific pane they can see, or asks you to start/drive a program in a pane. \
If in doubt, use your private `shell`, not their panes.\n\
- To MONITOR something over time (a build, a server, an agent like codex running in a pane): \
start it with shell_bg (or run_command in a pane), then loop: wait(a few seconds) -> read_shell / read_pane \
-> decide. Repeat until done. This lets you watch progress without blocking.\n\
- The user may be running coding agents (e.g. codex) inside the panes. You can read those panes, \
grep them, and react to what the agents are doing.\n\
- You can reshape the grid: use add_pane to add a terminal without disturbing existing ones, or set_grid \
to grow the layout (safe). NEVER shrink the grid (which closes terminals and kills their processes) unless \
the user explicitly asks to close panes — and only then with allow_close=true.\n\
- The agents share ONE persistent Chrome that keeps your logins like a normal browser — sign in once, it \
stays signed in across runs. So agents can test/navigate web apps behind login (your apps, Gmail, AWS). \
Manage with browser_setup (on/off).\n\
- If a browser action is blocked by a LOGIN: call browser_request_login (with the URL) to open the \
browser; tell the user to sign in. They stay signed in afterward (persistent profile), so you can \
continue. browser_save_login just confirms the session.\n\
- After running a command in a pane, ALWAYS read_pane to observe the result before concluding.\n\
- Prefer the pane the user is focused on unless they specify another. Pane indices are 0-based, row-major.\n\
- Be concise. Explain what you're doing in one line, then act. Summarize results briefly.\n\
- Each pane is about ";

/// The instructions from the size of the panes on.
pub const PROMPT_TAIL: &'static str =
    " cells. Long output is truncated; use grep_pane or targeted commands.\n\
- When a command might be long-running or interactive, account for that and use send_keys / read_pane.\n\
- Never fabricate command output; always read it from the pane.";

/// The assistant's instructions, for panes of `cols` x `rows` cells.
pub fn system_prompt(cols: usize, rows: usize) -> (r: String)
    ensures
        r@ == PROMPT_HEAD@ + text::decimal(cols as nat) + "x"@ + text::decimal(rows as nat)
            + PROMPT_TAIL@,
{
    let mut r: String = String::new();
    r.append(PROMPT_HEAD);
    push_decimal(&mut r, cols as u128);
    r.append("x");
    push_decimal(&mut r, rows as u128);
    r.append(PROMPT_TAIL);
    proof {
        assert(r@ =~= PROMPT_HEAD@ + text::decimal(cols as nat) + "x"@ + text::decimal(rows as nat)
            + PROMPT_TAIL@);
    }
    r
}

/// The first `n` characters of `s`, or all of them.
pub open spec fn first_chars(s: Seq<char>, n: int) -> Seq<char> {
    if n < s.len() {
        s.take(n)
    } else {
        s
    }
}

/// The last `n` characters of `s`, or all of them.
pub open spec fn last_chars(s: Seq<char>, n: int) -> Seq<char> {
    if n < s.len() {
        s.skip(s.len() - n)
    } else {
        s
    }
}

/// A text cut down to about `max_tokens` tokens of four characters: one that is
/// longer keeps a quarter of the budget from its beginning and the rest from
/// its end, with a note of how much is over the budget in between.
pub open spec fn truncated(s: Seq<char>, max_tokens: int) -> Seq<char> {
    let budget = max_tokens * 4;
    if s.len() <= budget {
        s
    } else {
        first_chars(s, budget / 4) + "\n\n... ["@ + text::decimal(
            (s.len() - budget) as nat,
        ) + " chars truncated] ...\n\n"@ + last_chars(s, budget - budget / 4)
    }
}

/// Smart-truncates text to a rough token budget (four characters to a token),
/// keeping the most relevant tail (recent output) plus a head sample.
pub fn truncate_tokens(s: &str, max_tokens: usize) -> (r: String)
    requires
        max_tokens * 4 <= usize::MAX,
    ensures
        r@ == truncated(s@, max_tokens as int),
{
    let budget: usize = max_tokens * 4;
    let v: Vec<char> = to_chars(s);
    let n: usize = v.len();
    if n <= budget {
        return s.to_owned();
    }
    let head: usize = budget / 4;
    let tail: usize = budget - head;
    let mut r: String = from_chars(&v, 0, head);
    r.append("\n\n... [");
    push_decimal(&mut r, (n - budget) as u128);
    r.append(" chars truncated] ...\n\n");
    let end: String = from_chars(&v, n - tail, n);
    r.append(end.as_str());
    proof {
        assert(v@.subrange(0, head as int) =~= first_chars(s@, head as int));
        assert(end@ =~= last_chars(s@, tail as int));
        assert(r@ =~= truncated(s@, max_tokens as int));
    }
    r
}

/// A text that fits the budget is not changed.
pub proof fn law_short_texts_are_kept(s: Seq<char>, max_tokens: nat)
    requires
        s.len() <= max_tokens * 4,
    ensures
        truncated(s, max_tokens as int) == s,
{
}

/// A text that is cut keeps its beginning and, three times as much, its end;
/// the note in between counts the characters that are left out.
pub proof fn law_cut_texts_keep_their_ends(s: Seq<char>, max_tokens: nat)
    requires
        s.len() > max_tokens * 4,
    ensures
        first_chars(s, max_tokens as int).is_prefix_of(truncated(s, max_tokens as int)),
        last_chars(s, 3 * max_tokens as int).is_suffix_of(truncated(s, max_tokens as int)),
        first_chars(s, max_tokens as int).is_prefix_of(s),
        last_chars(s, 3 * max_tokens as int).is_suffix_of(s),
        truncated(s, max_tokens as int) == first_chars(s, max_tokens as int) + "\n\n... ["@
            + text::decimal(
            (s.len() - first_chars(s, max_tokens as int).len() - last_chars(
                s,
                3 * max_tokens as int,
            ).len()) as nat,
        ) + " chars truncated] ...\n\n"@ + last_chars(s, 3 * max_tokens as int),
{
    let cut = truncated(s, max_tokens as int);
    let head = first_chars(s, max_tokens as int);
    let tail = last_chars(s, 3 * max_tokens as int);
    assert(cut.take(head.len() as int) =~= head);
    assert(cut.skip(cut.len() - tail.len()) =~= tail);
}

proof fn lemma_schema_keys()
    ensures
        "type"@ != "function"@,
        "name"@ != "description"@,
        "name"@ != "parameters"@,
        "description"@ != "parameters"@,
        "type"@ != "properties"@,
        "type"@ != "required"@,
        "properties"@ != "required"@,
        "type"@ != "description"@,
        "type"@ != "enum"@,
{
    reveal_strlit("type");
    reveal_strlit("function");
    reveal_strlit("name");
    reveal_strlit("description");
    reveal_strlit("parameters");
    reveal_strlit("properties");
    reveal_strlit("required");
    reveal_strlit("enum");
    assert("type"@.len() == 4 && "function"@.len() == 8 && "name"@.len() == 4
        && "description"@.len() == 11 && "parameters"@.len() == 10 && "properties"@.len() == 10
        && "required"@.len() == 8 && "enum"@.len() == 4);
    assert("type"@[0] == 't' && "enum"@[0] == 'e');
}

/// The model is told of a tool by its name, what it is for, each of its
/// parameters, and which of them it must give.
pub proof fn law_tools_are_described(
    name: Seq<char>,
    about: Seq<char>,
    props: Map<Seq<char>, Json>,
    required: Option<Seq<Seq<char>>>,
    key: Seq<char>,
    i: int,
)
    ensures
        ({
            let function = json::member(tool_json(name, about, props, required), "function"@);
            let parameters = json::member_of(function, "parameters"@);
            let must = json::member_of(parameters, "required"@);
            &&& json::member(tool_json(name, about, props, required), "type"@) == Some(
                Json::Text("function"@),
            )
            &&& json::member_of(function, "name"@) == Some(Json::Text(name))
            &&& json::member_of(function, "description"@) == Some(Json::Text(about))
            &&& json::member_of(parameters, "type"@) == Some(Json::Text("object"@))
            &&& json::member_of(json::member_of(parameters, "properties"@), key) == (
            if props.contains_key(key) {
                Some(props[key])
            } else {
                None
            })
            &&& required is None ==> must is None
            &&& required matches Some(names) ==> (must matches Some(Json::Array(a)) && a.len()
                == names.len() && (0 <= i < names.len() ==> a[i] == Json::Text(names[i])))
        }),
{
    lemma_schema_keys();
}

/// A parameter is described by its type and what it is for, or by its choices.
pub proof fn law_parameters_are_described(
    kind: Seq<char>,
    about: Option<Seq<char>>,
    choices: Seq<Seq<char>>,
    i: int,
)
    ensures
        json::member(param_json(kind, about), "type"@) == Some(Json::Text(kind)),
        json::member(param_json(kind, about), "description"@) == (match about {
            Some(d) => Some(Json::Text(d)),
            None => None,
        }),
        json::member(choice_json(choices), "type"@) == Some(Json::Text("string"@)),
        json::member(choice_json(choices), "enum"@) matches Some(Json::Array(a)) && a.len()
            == choices.len() && (0 <= i < choices.len() ==> a[i] == Json::Text(choices[i])),
{
    lemma_schema_keys();
}

/// The name under which the model is told of a tool.
pub open spec fn told_name(tool: Json) -> Option<Json> {
    json::member_of(json::member(tool, "function"@), "name"@)
}

/// The model is told of these tools, each once.
pub proof fn law_the_tools_are_told()
    ensures
        schema() matches Json::Array(a) && a.len() == 14 && told_name(a[0]) == Some(
            Json::Text("run_command"@),
        ) && told_name(a[1]) == Some(Json::Text("read_pane"@)) && told_name(a[2]) == Some(
            Json::Text("send_keys"@),
        ) && told_name(a[3]) == Some(Json::Text("grep_pane"@)) && told_name(a[4]) == Some(
            Json::Text("list_panes"@),
        ) && told_name(a[5]) == Some(Json::Text("shell"@)) && told_name(a[6]) == Some(
            Json::Text("shell_bg"@),
        ) && told_name(a[7]) == Some(Json::Text("read_shell"@)) && told_name(a[8]) == Some(
            Json::Text("wait"@),
        ) && told_name(a[9]) == Some(Json::Text("set_grid"@)) && told_name(a[10]) == Some(
            Json::Text("usage_report"@),
        ) && told_name(a[11]) == Some(Json::Text("browser_setup"@)) && told_name(a[12]) == Some(
            Json::Text("browser_request_login"@),
        ) && told_name(a[13]) == Some(Json::Text("browser_save_login"@)),
{
    lemma_schema_keys();
}

/// Whether a tool has a parameter.
pub open spec fn has_parameter(tool: Json, key: Seq<char>) -> bool {
    json::member_of(
        json::member_of(
            json::member_of(json::member(tool, "function"@), "parameters"@),
            "properties"@,
        ),
        key,
    ) is Some
}

/// The tools have the parameters that their calls are read for.
pub proof fn law_tools_have_their_parameters()
    ensures
        schema() matches Json::Array(a) && has_parameter(a[0], "pane"@) && has_parameter(
            a[0],
            "command"@,
        ) && has_parameter(a[1], "pane"@) && has_parameter(a[1], "lines"@) && has_parameter(
            a[2],
            "pane"@,
        ) && has_parameter(a[2], "keys"@) && has_parameter(a[3], "pane"@) && has_parameter(
            a[3],
            "pattern"@,
        ) && has_parameter(a[5], "command"@) && has_parameter(a[6], "command"@) && has_parameter(
            a[7],
            "lines"@,
        ) && has_parameter(a[8], "seconds"@) && has_parameter(a[9], "cols"@) && has_parameter(
            a[9],
            "rows"@,
        ) && has_parameter(a[9], "allow_close"@) && has_parameter(a[11], "mode"@)
            && has_parameter(a[12], "url"@),
{
    lemma_schema_keys();
}

/// However long a text is, what the model is told of it is not much longer than
/// the budget, and the parts that it keeps make up the budget exactly.
pub proof fn law_cut_texts_fit(s: Seq<char>, max_tokens: nat)
    requires
        s.len() > max_tokens * 4,
    ensures
        first_chars(s, max_tokens as int).len() == max_tokens,
        last_chars(s, 3 * max_tokens as int).len() == 3 * max_tokens,
        forall|k: int|
            0 <= k < max_tokens ==> #[trigger] truncated(s, max_tokens as int)[k] == s[k],
        forall|k: int|
            0 <= k < 3 * max_tokens ==> truncated(s, max_tokens as int)[truncated(
                s,
                max_tokens as int,
            ).len() - 1 - k] == #[trigger] s[s.len() - 1 - k],
{
    let cut = truncated(s, max_tokens as int);
    let tail = last_chars(s, 3 * max_tokens as int);
    assert forall|k: int| 0 <= k < 3 * max_tokens implies cut[cut.len() - 1 - k]
        == #[trigger] s[s.len() - 1 - k] by {
        assert(cut[cut.len() - 1 - k] == tail[tail.len() - 1 - k]);
    }
}

} // verus!
