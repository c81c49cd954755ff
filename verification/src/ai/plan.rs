//! The tools that work on the user's panes: what a call of the model asks for,
//! and what the model is told of it.

use serde_json::Value;
use vstd::prelude::*;

use crate::ai::agent;
use crate::ai::client;
use crate::ai::client::ToolCall;
use crate::ai::shell;
use crate::ai::shell::{int_arg, lines_arg, mode_arg, read_args, text_arg, text_arg_or_empty};
use crate::ai::tools;
use crate::ai::tools::truncate_tokens;
use crate::browser::BrowserMode;
use crate::json;
use crate::json::{as_truth, get, Json};
use crate::pty;
use crate::pty::Snapshot;
use crate::text;
use crate::text::{
    contains_text, join_texts, push_decimal, same_text, split_lines, to_chars, to_lowercase,
    trimmed_end,
};
use crate::ui::PaneGrid;

verus! {

/// What a call of the model asks of the panes.
pub enum PaneAction {
    /// Nothing; the model is told this.
    Reply(String),
    /// Go to the newest output of the pane and type the text into it; then tell
    /// the model the reply.
    Run { pane: usize, typed: String, reply: String },
    /// Type the text into the pane; then tell the model the reply.
    Keys { pane: usize, typed: String, reply: String },
    /// Tell the model the last lines of the pane.
    Read { pane: usize, lines: usize },
    /// Tell the model which lines of the pane have the pattern.
    Grep { pane: usize, pattern: String },
    /// Rebuild the grid; then tell the model the reply.
    Rebuild { cols: usize, rows: usize, reply: String },
    /// Rebuild the grid where it can grow; then tell the model how many panes
    /// there are, and the index.
    AddPane { grid: Option<(usize, usize)>, index: usize },
    UsageReport,
    Setup(BrowserMode),
    RequestLogin(Option<String>),
    SaveLogin,
}

/// What a [`PaneAction`] holds.
pub ghost enum PaneActionView {
    Reply(Seq<char>),
    Run { pane: usize, typed: Seq<char>, reply: Seq<char> },
    Keys { pane: usize, typed: Seq<char>, reply: Seq<char> },
    Read { pane: usize, lines: int },
    Grep { pane: usize, pattern: Seq<char> },
    Rebuild { cols: int, rows: int, reply: Seq<char> },
    AddPane { grid: Option<(usize, usize)>, index: usize },
    UsageReport,
    Setup(BrowserMode),
    RequestLogin(Option<Seq<char>>),
    SaveLogin,
}

impl View for PaneAction {
    type V = PaneActionView;

    open spec fn view(&self) -> PaneActionView {
        match *self {
            PaneAction::Reply(s) => PaneActionView::Reply(s@),
            PaneAction::Run { pane, typed, reply } => PaneActionView::Run {
                pane,
                typed: typed@,
                reply: reply@,
            },
            PaneAction::Keys { pane, typed, reply } => PaneActionView::Keys {
                pane,
                typed: typed@,
                reply: reply@,
            },
            PaneAction::Read { pane, lines } => PaneActionView::Read { pane, lines: lines as int },
            PaneAction::Grep { pane, pattern } => PaneActionView::Grep { pane, pattern: pattern@ },
            PaneAction::Rebuild { cols, rows, reply } => PaneActionView::Rebuild {
                cols: cols as int,
                rows: rows as int,
                reply: reply@,
            },
            PaneAction::AddPane { grid, index } => PaneActionView::AddPane { grid, index },
            PaneAction::UsageReport => PaneActionView::UsageReport,
            PaneAction::Setup(m) => PaneActionView::Setup(m),
            PaneAction::RequestLogin(url) => PaneActionView::RequestLogin(client::opt_view(url)),
            PaneAction::SaveLogin => PaneActionView::SaveLogin,
        }
    }
}

/// Which pane a call is about: the one that it names, or the active one. A
/// negative number wraps around, and so names no pane.
pub open spec fn pane_wanted(args: Json, active: usize) -> usize {
    match json::int_of(shell::arg(args, "pane"@)) {
        Some(n) => n as usize,
        None => (active as i64) as usize,
    }
}

/// The number of columns or rows that a call asks for: 1 where it does not
/// say, and never under 1 or over 12.
pub open spec fn size_wanted(args: Json, key: Seq<char>) -> int {
    match json::int_of(shell::arg(args, key)) {
        Some(n) => shell::clamped(n as int, 1, 12),
        None => 1,
    }
}

/// Whether a call allows that terminals are closed: only where it says so.
pub open spec fn may_close(args: Json) -> bool {
    json::bool_of(shell::arg(args, "allow_close"@)) == Some(true)
}

/// What the model is told of a pane that there is not.
pub open spec fn no_pane(pane: usize) -> Seq<char> {
    "no pane "@ + text::decimal(pane as nat)
}

/// What the model is told of a command that was typed into a pane.
pub open spec fn ran_text(pane: usize, command: Seq<char>) -> Seq<char> {
    "ran in pane "@ + text::decimal(pane as nat) + ": "@ + command
        + "\n(use read_pane to see output)"@
}

/// What the model is told of keys that were sent to a pane.
pub open spec fn sent_text(pane: usize) -> Seq<char> {
    "sent keys to pane "@ + text::decimal(pane as nat)
}

/// The line for pane `i` in the list of panes.
pub open spec fn pane_line(i: int, cols: int, active: int) -> Seq<char> {
    "pane "@ + text::decimal(i as nat) + ": grid ("@ + text::decimal((i % cols) as nat) + ","@
        + text::decimal((i / cols) as nat) + ")"@ + (if i == active {
        " [focused]"@
    } else {
        ""@
    }) + "\n"@
}

/// The list of the first `n` panes.
pub open spec fn pane_list(n: int, cols: int, active: int) -> Seq<char>
    decreases n,
{
    if n <= 0 {
        seq![]
    } else {
        pane_list(n - 1, cols, active) + pane_line(n - 1, cols, active)
    }
}

/// What the model is told of a grid that would close terminals.
pub open spec fn refused_text(cols: int, rows: int, panes: int) -> Seq<char> {
    "refused: a "@ + text::decimal(cols as nat) + "x"@ + text::decimal(rows as nat) + " grid ("@
        + text::decimal((cols * rows) as nat) + " panes) would close "@ + text::decimal(
        (panes - cols * rows) as nat,
    )
        + " existing terminal(s). If the user explicitly wants to close panes, call again with allow_close=true."@
}

/// What the model is told of a new grid.
pub open spec fn grid_text(cols: int, rows: int) -> Seq<char> {
    "grid is now "@ + text::decimal(cols as nat) + "x"@ + text::decimal(rows as nat) + " ("@
        + text::decimal((cols * rows) as nat) + " panes)"@
}

/// The grid that has room for one pane more: another column where there are no
/// more columns than rows, else another row; none where that is too many.
pub open spec fn grown(cols: usize, rows: usize) -> Option<(usize, usize)> {
    if cols <= rows {
        if (cols + 1) * rows <= crate::ui::MAX_GROWN_PANES {
            Some(((cols + 1) as usize, rows))
        } else {
            None
        }
    } else {
        if cols * (rows + 1) <= crate::ui::MAX_GROWN_PANES {
            Some((cols, (rows + 1) as usize))
        } else {
            None
        }
    }
}

/// What a call of the tool `name` asks of the panes.
pub open spec fn pane_plan(name: Seq<char>, args: Json, grid: PaneGrid) -> PaneActionView {
    let pane = pane_wanted(args, grid.active);
    if name == "run_command"@ {
        if pane < grid.panes {
            let command = shell::arg_or_empty(args, "command"@);
            PaneActionView::Run { pane, typed: command + "\r"@, reply: ran_text(pane, command) }
        } else {
            PaneActionView::Reply(no_pane(pane))
        }
    } else if name == "send_keys"@ {
        if pane < grid.panes {
            PaneActionView::Keys {
                pane,
                typed: shell::arg_or_empty(args, "keys"@),
                reply: sent_text(pane),
            }
        } else {
            PaneActionView::Reply(no_pane(pane))
        }
    } else if name == "read_pane"@ {
        if pane < grid.panes {
            PaneActionView::Read { pane, lines: shell::lines_wanted(args) }
        } else {
            PaneActionView::Reply(no_pane(pane))
        }
    } else if name == "grep_pane"@ {
        if pane < grid.panes {
            PaneActionView::Grep { pane, pattern: shell::arg_or_empty(args, "pattern"@) }
        } else {
            PaneActionView::Reply(no_pane(pane))
        }
    } else if name == "list_panes"@ {
        PaneActionView::Reply(
            pane_list(grid.panes as int, grid.layout.cols as int, grid.active as int),
        )
    } else if name == "shell"@ || name == "shell_bg"@ || name == "read_shell"@ || name == "wait"@ {
        PaneActionView::Reply("(handled by agent)"@)
    } else if name == "set_grid"@ {
        let cols = size_wanted(args, "cols"@);
        let rows = size_wanted(args, "rows"@);
        if cols * rows < grid.panes && !may_close(args) {
            PaneActionView::Reply(refused_text(cols, rows, grid.panes as int))
        } else {
            PaneActionView::Rebuild { cols, rows, reply: grid_text(cols, rows) }
        }
    } else if name == "add_pane"@ {
        PaneActionView::AddPane {
            grid: grown(grid.layout.cols, grid.layout.rows),
            index: grid.panes,
        }
    } else if name == "usage_report"@ {
        PaneActionView::UsageReport
    } else if name == "browser_setup"@ {
        PaneActionView::Setup(shell::mode_wanted(args))
    } else if name == "browser_request_login"@ {
        PaneActionView::RequestLogin(shell::arg_text(args, "url"@))
    } else if name == "browser_save_login"@ {
        PaneActionView::SaveLogin
    } else {
        PaneActionView::Reply("unknown tool: "@ + name)
    }
}

fn pane_arg(args: &Value, active: usize) -> (r: usize)
    ensures
        r == pane_wanted(json::json_of(*args), active),
{
    match int_arg(args, "pane") {
        Some(n) => n as usize,
        None => (active as i64) as usize,
    }
}

fn size_arg(args: &Value, key: &str) -> (r: usize)
    ensures
        r == size_wanted(json::json_of(*args), key@),
        1 <= r <= 12,
{
    match int_arg(args, key) {
        Some(n) => if n < 1 {
            1
        } else if n > 12 {
            12
        } else {
            n as usize
        },
        None => 1,
    }
}

fn close_arg(args: &Value) -> (r: bool)
    ensures
        r == may_close(json::json_of(*args)),
{
    match get(args, "allow_close") {
        Some(v) => match as_truth(v) {
            Some(b) => b,
            None => false,
        },
        None => false,
    }
}

fn no_pane_text(pane: usize) -> (r: String)
    ensures
        r@ == no_pane(pane),
{
    let mut r: String = "no pane ".to_owned();
    push_decimal(&mut r, pane as u128);
    r
}

fn list_line(i: usize, cols: usize, active: usize) -> (r: String)
    requires
        cols > 0,
    ensures
        r@ == pane_line(i as int, cols as int, active as int),
{
    let mut r: String = "pane ".to_owned();
    push_decimal(&mut r, i as u128);
    r.append(": grid (");
    push_decimal(&mut r, (i % cols) as u128);
    r.append(",");
    push_decimal(&mut r, (i / cols) as u128);
    r.append(")");
    r.append(
        if i == active {
            " [focused]"
        } else {
            ""
        },
    );
    r.append("\n");
    r
}

fn list_panes(panes: usize, cols: usize, active: usize) -> (r: String)
    requires
        cols > 0,
    ensures
        r@ == pane_list(panes as int, cols as int, active as int),
{
    let mut r: String = String::new();
    assert(r@ =~= seq![]);
    let mut i: usize = 0;
    while i < panes
        invariant
            i <= panes,
            cols > 0,
            r@ == pane_list(i as int, cols as int, active as int),
        decreases panes - i,
    {
        let line: String = list_line(i, cols, active);
        r.append(line.as_str());
        i = i + 1;
    }
    r
}

fn set_grid(cols: usize, rows: usize, allow: bool, panes: usize) -> (r: PaneAction)
    requires
        1 <= cols <= 12,
        1 <= rows <= 12,
    ensures
        r@ == (if cols * rows < panes && !allow {
            PaneActionView::Reply(refused_text(cols as int, rows as int, panes as int))
        } else {
            PaneActionView::Rebuild {
                cols: cols as int,
                rows: rows as int,
                reply: grid_text(cols as int, rows as int),
            }
        }),
{
    assert(cols * rows <= 144) by (nonlinear_arith)
        requires
            1 <= cols <= 12,
            1 <= rows <= 12,
    ;
    let count: usize = cols * rows;
    if count < panes && !allow {
        let mut r: String = "refused: a ".to_owned();
        push_decimal(&mut r, cols as u128);
        r.append("x");
        push_decimal(&mut r, rows as u128);
        r.append(" grid (");
        push_decimal(&mut r, count as u128);
        r.append(" panes) would close ");
        push_decimal(&mut r, (panes - count) as u128);
        r.append(
            " existing terminal(s). If the user explicitly wants to close panes, call again with allow_close=true.",
        );
        PaneAction::Reply(r)
    } else {
        let mut r: String = "grid is now ".to_owned();
        push_decimal(&mut r, cols as u128);
        r.append("x");
        push_decimal(&mut r, rows as u128);
        r.append(" (");
        push_decimal(&mut r, count as u128);
        r.append(" panes)");
        PaneAction::Rebuild { cols, rows, reply: r }
    }
}

fn pane_text_action(name: &str, args: &Value, pane: usize) -> (r: PaneAction)
    requires
        name@ == "run_command"@ || name@ == "send_keys"@ || name@ == "read_pane"@ || name@
            == "grep_pane"@,
    ensures
        forall|grid: PaneGrid|
            pane_wanted(json::json_of(*args), grid.active) == pane && pane < grid.panes ==> r@
                == #[trigger] pane_plan(name@, json::json_of(*args), grid),
{
    if same_text(name, "run_command") {
        let command: String = text_arg_or_empty(args, "command");
        let mut typed: String = command.clone();
        typed.append("\r");
        let mut reply: String = "ran in pane ".to_owned();
        push_decimal(&mut reply, pane as u128);
        reply.append(": ");
        reply.append(command.as_str());
        reply.append("\n(use read_pane to see output)");
        PaneAction::Run { pane, typed, reply }
    } else if same_text(name, "send_keys") {
        let typed: String = text_arg_or_empty(args, "keys");
        let mut reply: String = "sent keys to pane ".to_owned();
        push_decimal(&mut reply, pane as u128);
        PaneAction::Keys { pane, typed, reply }
    } else if same_text(name, "read_pane") {
        PaneAction::Read { pane, lines: lines_arg(args) }
    } else {
        PaneAction::Grep { pane, pattern: text_arg_or_empty(args, "pattern") }
    }
}

/// What a call of the tool `name` with the given arguments asks of the panes.
pub fn plan_pane(name: &str, args: &Value, grid: &PaneGrid) -> (r: PaneAction)
    requires
        grid.wf(),
        grid.bounded(),
    ensures
        r@ == pane_plan(name@, json::json_of(*args), *grid),
{
    if same_text(name, "run_command") || same_text(name, "send_keys") || same_text(
        name,
        "read_pane",
    ) || same_text(name, "grep_pane") {
        let pane: usize = pane_arg(args, grid.active);
        if pane < grid.panes {
            return pane_text_action(name, args, pane);
        }
        return PaneAction::Reply(no_pane_text(pane));
    }
    if same_text(name, "list_panes") {
        return PaneAction::Reply(list_panes(grid.panes, grid.layout.cols, grid.active));
    }
    if same_text(name, "shell") || same_text(name, "shell_bg") || same_text(name, "read_shell")
        || same_text(name, "wait") {
        return PaneAction::Reply("(handled by agent)".to_owned());
    }
    if same_text(name, "set_grid") {
        let cols: usize = size_arg(args, "cols");
        let rows: usize = size_arg(args, "rows");
        return set_grid(cols, rows, close_arg(args), grid.panes);
    }
    if same_text(name, "add_pane") {
        let to: Option<(usize, usize)> = if grid.layout.cols <= grid.layout.rows {
            grid.add_column()
        } else {
            grid.add_row()
        };
        return PaneAction::AddPane { grid: to, index: grid.panes };
    }
    if same_text(name, "usage_report") {
        return PaneAction::UsageReport;
    }
    if same_text(name, "browser_setup") {
        return PaneAction::Setup(mode_arg(args));
    }
    if same_text(name, "browser_request_login") {
        return PaneAction::RequestLogin(text_arg(args, "url"));
    }
    if same_text(name, "browser_save_login") {
        return PaneAction::SaveLogin;
    }
    let mut r: String = "unknown tool: ".to_owned();
    r.append(name);
    PaneAction::Reply(r)
}

/// What a call of the model asks of the panes.
pub fn plan_pane_call(call: &ToolCall, grid: &PaneGrid) -> (r: PaneAction)
    requires
        grid.wf(),
        grid.bounded(),
    ensures
        r@ == pane_plan(call@.name, shell::args_json(call@.arguments), *grid),
{
    let args: Value = read_args(call.arguments.as_str());
    plan_pane(call.name.as_str(), &args, grid)
}

/// What the model is told of the text of a pane.
pub fn read_reply(shown: &str) -> (r: String)
    ensures
        r@ == tools::truncated(shown@, 1500),
{
    truncate_tokens(shown, 1500)
}

/// The lines whose lowercase form has the pattern; `lowered` gives the
/// lowercase form of each line.
pub open spec fn picked(
    lines: Seq<Seq<char>>,
    lowered: Seq<Seq<char>>,
    pattern: Seq<char>,
) -> Seq<Seq<char>>
    decreases lines.len(),
{
    if lines.len() == 0 {
        seq![]
    } else {
        let rest = picked(lines.drop_last(), lowered.drop_last(), pattern);
        if text::has_text(lowered.last(), pattern) {
            rest.push(lines.last())
        } else {
            rest
        }
    }
}

/// Picks the lines whose lowercase form has the pattern.
pub fn pick_lines(lines: &Vec<String>, lowered: &Vec<String>, pattern: &str) -> (r: Vec<String>)
    requires
        lines.len() == lowered.len(),
    ensures
        text::views(r@) == picked(text::views(lines@), text::views(lowered@), pattern@),
{
    let p: Vec<char> = to_chars(pattern);
    let n: usize = lines.len();
    let mut r: Vec<String> = Vec::new();
    let mut i: usize = 0;
    let ghost all = text::views(lines@);
    let ghost low = text::views(lowered@);
    proof {
        assert(text::views(r@) =~= picked(all.take(0), low.take(0), pattern@));
    }
    while i < n
        invariant
            i <= n,
            n == lines.len(),
            n == lowered.len(),
            p@ == pattern@,
            all == text::views(lines@),
            low == text::views(lowered@),
            text::views(r@) == picked(all.take(i as int), low.take(i as int), pattern@),
        decreases n - i,
    {
        let ghost before = text::views(r@);
        proof {
            assert(all.take(i + 1).drop_last() =~= all.take(i as int));
            assert(low.take(i + 1).drop_last() =~= low.take(i as int));
            assert(all.take(i + 1).last() == lines@[i as int]@);
            assert(low.take(i + 1).last() == lowered@[i as int]@);
        }
        let line: Vec<char> = to_chars(lowered[i].as_str());
        if contains_text(&line, &p) {
            r.push(lines[i].clone());
            assert(text::views(r@) =~= before.push(lines@[i as int]@));
        }
        i = i + 1;
    }
    proof {
        assert(all.take(n as int) =~= all);
        assert(low.take(n as int) =~= low);
    }
    r
}

/// What the model is told of the lines that have the pattern.
pub open spec fn grep_text(
    matches: Seq<Seq<char>>,
    pattern: Seq<char>,
    pane: usize,
) -> Seq<char> {
    if matches.len() == 0 {
        "no matches for '"@ + pattern + "' in pane "@ + text::decimal(pane as nat)
    } else {
        tools::truncated(text::join(matches, "\n"@), 1200)
    }
}

/// What the model is told of the lines that were picked.
pub fn matches_reply(matches: &Vec<String>, pattern: &str, pane: usize) -> (r: String)
    ensures
        r@ == grep_text(text::views(matches@), pattern@, pane),
{
    if matches.len() == 0 {
        let mut r: String = "no matches for '".to_owned();
        r.append(pattern);
        r.append("' in pane ");
        push_decimal(&mut r, pane as u128);
        r
    } else {
        let all: String = join_texts(matches, "\n");
        truncate_tokens(all.as_str(), 1200)
    }
}

/// The lowercase form of each line.
pub open spec fn lowered_lines(lines: Seq<Seq<char>>) -> Seq<Seq<char>> {
    lines.map_values(|l: Seq<char>| text::lowercase(l))
}

/// What the model is told of the lines of a pane that have the pattern, where
/// upper and lower case are not told apart.
pub fn grep_reply(shown: &str, pattern: &str, pane: usize) -> (r: String)
    ensures
        r@ == grep_text(
            picked(
                text::lines(shown@),
                lowered_lines(text::lines(shown@)),
                text::lowercase(pattern@),
            ),
            pattern@,
            pane,
        ),
{
    let lines: Vec<String> = split_lines(&to_chars(shown));
    let n: usize = lines.len();
    let mut lowered: Vec<String> = Vec::new();
    let mut i: usize = 0;
    while i < n
        invariant
            i <= n,
            n == lines.len(),
            lowered.len() == i,
            forall|j: int|
                0 <= j < i ==> (#[trigger] lowered@[j])@ == text::lowercase(lines@[j]@),
        decreases n - i,
    {
        lowered.push(to_lowercase(lines[i].as_str()));
        i = i + 1;
    }
    assert(text::views(lowered@) =~= lowered_lines(text::views(lines@)));
    let matches: Vec<String> = pick_lines(&lines, &lowered, to_lowercase(pattern).as_str());
    matches_reply(&matches, pattern, pane)
}

/// What the model is told once a pane was added, of which there are `panes` now.
pub fn added_reply(panes: usize, index: usize) -> (r: String)
    ensures
        r@ == "added pane (now "@ + text::decimal(panes as nat) + " panes); new pane index "@
            + text::decimal(index as nat),
{
    let mut r: String = "added pane (now ".to_owned();
    push_decimal(&mut r, panes as u128);
    r.append(" panes); new pane index ");
    push_decimal(&mut r, index as u128);
    r
}

/// What the model is told of a change of the browser's mode, where the agents
/// in the panes run already.
pub fn pane_setup_reply(outcome: Result<String, String>) -> (r: String)
    ensures
        r@ == (match outcome {
            Ok(msg) => msg@ + "\n(Restart agents in panes to pick up the change.)"@,
            Err(e) => "failed: "@ + e@,
        }),
{
    match outcome {
        Ok(msg) => {
            let mut r: String = msg;
            r.append("\n(Restart agents in panes to pick up the change.)");
            r
        },
        Err(e) => {
            let mut r: String = "failed: ".to_owned();
            r.append(e.as_str());
            r
        },
    }
}

/// The text of rows, each with a line feed behind it.
pub open spec fn rows_text(rows: Seq<Seq<pty::RunView>>) -> Seq<char>
    decreases rows.len(),
{
    if rows.len() == 0 {
        seq![]
    } else {
        rows_text(rows.drop_last()) + pty::runs_text(rows.last()) + "\n"@
    }
}

/// What the model is told of the content of pane `i`.
pub open spec fn pane_context(
    i: int,
    rows: Seq<Seq<pty::RunView>>,
    active: int,
) -> Seq<char> {
    "--- pane "@ + text::decimal(i as nat) + (if i == active {
        " (focused)"@
    } else {
        ""@
    }) + " ---\n"@ + tools::truncated(text::trim_end(rows_text(rows)), 500) + "\n"@
}

/// What the model is told of the content of the first `n` panes.
pub open spec fn context_text(
    panes: Seq<Seq<Seq<pty::RunView>>>,
    n: int,
    active: int,
) -> Seq<char>
    decreases n,
{
    if n <= 0 {
        seq![]
    } else {
        context_text(panes, n - 1, active) + pane_context(n - 1, panes[n - 1], active)
    }
}

/// What panes show.
pub open spec fn pane_rows(panes: Seq<Snapshot>) -> Seq<Seq<Seq<pty::RunView>>> {
    panes.map_values(|s: Snapshot| pty::row_views(s.rows@))
}

fn snapshot_text(s: &Snapshot) -> (r: String)
    ensures
        r@ == rows_text(pty::row_views(s.rows@)),
{
    let mut out: String = String::new();
    let n: usize = s.rows.len();
    let ghost rows = pty::row_views(s.rows@);
    let mut i: usize = 0;
    assert(out@ =~= rows_text(rows.take(0)));
    while i < n
        invariant
            i <= n,
            n == s.rows.len(),
            rows == pty::row_views(s.rows@),
            out@ == rows_text(rows.take(i as int)),
        decreases n - i,
    {
        let ghost before = out@;
        let m: usize = s.rows[i].runs.len();
        let ghost runs = s.rows@[i as int]@;
        let mut j: usize = 0;
        assert(before =~= before + pty::runs_text(runs.take(0)));
        while j < m
            invariant
                i < n,
                n == s.rows.len(),
                j <= m,
                m == s.rows@[i as int].runs.len(),
                runs == s.rows@[i as int]@,
                out@ == before + pty::runs_text(runs.take(j as int)),
            decreases m - j,
        {
            proof {
                assert(runs.take(j + 1).drop_last() =~= runs.take(j as int));
                assert(runs.take(j + 1).last() == s.rows@[i as int].runs@[j as int]@);
            }
            let ghost mid = out@;
            out.append(s.rows[i].runs[j].text.as_str());
            assert(out@ =~= before + pty::runs_text(runs.take(j + 1)));
            j = j + 1;
        }
        out.append("\n");
        proof {
            assert(runs.take(m as int) =~= runs);
            assert(rows.take(i + 1).drop_last() =~= rows.take(i as int));
            assert(rows.take(i + 1).last() == runs);
            assert(out@ =~= rows_text(rows.take(i + 1)));
        }
        i = i + 1;
    }
    assert(rows.take(n as int) =~= rows);
    out
}

fn pane_context_text(i: usize, shown: &str, active: usize) -> (r: String)
    ensures
        r@ == "--- pane "@ + text::decimal(i as nat) + (if i == active {
            " (focused)"@
        } else {
            ""@
        }) + " ---\n"@ + tools::truncated(text::trim_end(shown@), 500) + "\n"@,
{
    let all: String = trimmed_end(shown);
    let cut: String = truncate_tokens(all.as_str(), 500);
    let mut r: String = "--- pane ".to_owned();
    push_decimal(&mut r, i as u128);
    r.append(
        if i == active {
            " (focused)"
        } else {
            ""
        },
    );
    r.append(" ---\n");
    r.append(cut.as_str());
    r.append("\n");
    r
}

/// Builds the default context the agent sees: every pane's visible content.
pub fn build_context(panes: &Vec<Snapshot>, active: usize) -> (r: String)
    ensures
        r@ == context_text(pane_rows(panes@), panes.len() as int, active as int),
{
    let mut out: String = String::new();
    assert(out@ =~= seq![]);
    let n: usize = panes.len();
    let mut i: usize = 0;
    while i < n
        invariant
            i <= n,
            n == panes.len(),
            out@ == context_text(pane_rows(panes@), i as int, active as int),
        decreases n - i,
    {
        assert(pane_rows(panes@)[i as int] == pty::row_views(panes@[i as int].rows@));
        let part: String = pane_context_text(i, snapshot_text(&panes[i]).as_str(), active);
        out.append(part.as_str());
        i = i + 1;
    }
    out
}

/// Whether a tool works on the panes, or on what the window keeps.
pub open spec fn pane_tool(name: Seq<char>) -> bool {
    ||| name == "run_command"@
    ||| name == "send_keys"@
    ||| name == "read_pane"@
    ||| name == "grep_pane"@
    ||| name == "list_panes"@
    ||| name == "set_grid"@
    ||| name == "add_pane"@
    ||| name == "usage_report"@
}

/// The name of a tool in what the model is told of it.
pub open spec fn advertised_name(tool: Json) -> Option<Seq<char>> {
    match json::member_of(json::member(tool, "function"@), "name"@) {
        Some(j) => json::text_of(j),
        None => None,
    }
}

proof fn lemma_advertised(
    name: Seq<char>,
    about: Seq<char>,
    props: Map<Seq<char>, Json>,
    required: Option<Seq<Seq<char>>>,
)
    ensures
        advertised_name(tools::tool_json(name, about, props, required)) == Some(name),
{
    reveal_strlit("name");
    reveal_strlit("description");
    reveal_strlit("parameters");
    assert("name"@.len() != "description"@.len());
    assert("name"@.len() != "parameters"@.len());
}

/// Every tool that the model is told of is one that the agent runs itself or
/// one that works on the panes.
pub proof fn law_every_advertised_tool_is_handled(i: int)
    requires
        0 <= i < json::items_of(tools::schema())->0.len(),
    ensures
        ({
            let name = advertised_name(json::items_of(tools::schema())->0[i]);
            name is Some && (agent::local_tool(name->0) || pane_tool(name->0))
        }),
{
    assert forall|name: Seq<char>, about: Seq<char>, props: Map<Seq<char>, Json>, required: Option<Seq<Seq<char>>>|
        advertised_name(#[trigger] tools::tool_json(name, about, props, required)) == Some(name) by {
        lemma_advertised(name, about, props, required);
    }
}

/// A call of the model never closes a terminal unless it says that it may: a
/// grid with fewer places than there are panes is refused.
pub proof fn law_no_call_closes_panes_unasked(name: Seq<char>, args: Json, grid: PaneGrid)
    requires
        grid.wf(),
        grid.bounded(),
        !may_close(args),
    ensures
        match pane_plan(name, args, grid) {
            PaneActionView::Rebuild { cols, rows, .. } => grid.panes <= cols * rows,
            PaneActionView::AddPane { grid: Some((cols, rows)), .. } => grid.panes <= cols * rows,
            _ => true,
        },
{
    let c = grid.layout.cols as int;
    let r = grid.layout.rows as int;
    assert((c + 1) * r == c * r + r) by (nonlinear_arith);
    assert(c * (r + 1) == c * r + c) by (nonlinear_arith);
    assert(c <= crate::ui::MAX_PANES && r <= crate::ui::MAX_PANES) by (nonlinear_arith)
        requires
            c >= 1,
            r >= 1,
            c * r <= crate::ui::MAX_PANES,
    ;
}

/// A call that names a pane which there is not changes nothing, and the model
/// is told so.
pub proof fn law_no_such_pane(name: Seq<char>, args: Json, grid: PaneGrid)
    requires
        pane_wanted(args, grid.active) >= grid.panes,
        name == "run_command"@ || name == "send_keys"@ || name == "read_pane"@ || name
            == "grep_pane"@,
    ensures
        pane_plan(name, args, grid) == PaneActionView::Reply(
            no_pane(pane_wanted(args, grid.active)),
        ),
{
}

/// A line is told to the model only if it has the pattern.
pub proof fn law_picked_lines_match(
    lines: Seq<Seq<char>>,
    lowered: Seq<Seq<char>>,
    pattern: Seq<char>,
    k: int,
)
    requires
        lines.len() == lowered.len(),
        0 <= k < picked(lines, lowered, pattern).len(),
    ensures
        exists|i: int|
            0 <= i < lines.len() && lines[i] == picked(lines, lowered, pattern)[k]
                && text::has_text(#[trigger] lowered[i], pattern),
    decreases lines.len(),
{
    if lines.len() > 0 {
        let rest = picked(lines.drop_last(), lowered.drop_last(), pattern);
        let n = lines.len() - 1;
        if k < rest.len() {
            law_picked_lines_match(lines.drop_last(), lowered.drop_last(), pattern, k);
            let i = choose|i: int|
                0 <= i < lines.drop_last().len() && lines.drop_last()[i] == rest[k]
                    && text::has_text(#[trigger] lowered.drop_last()[i], pattern);
            assert(lowered[i] == lowered.drop_last()[i]);
            assert(text::has_text(lowered[i], pattern));
        } else {
            assert(text::has_text(lowered[n], pattern));
            assert(lines[n] == picked(lines, lowered, pattern)[k]);
        }
    }
}

/// Lines are picked one by one, in their order: those of two stretches are those
/// of the first and behind them those of the second, and of a single line it is
/// picked if it has the pattern.
pub proof fn law_picking_goes_line_by_line(
    a: Seq<Seq<char>>,
    low_a: Seq<Seq<char>>,
    b: Seq<Seq<char>>,
    low_b: Seq<Seq<char>>,
    line: Seq<char>,
    low: Seq<char>,
    pattern: Seq<char>,
)
    requires
        a.len() == low_a.len(),
        b.len() == low_b.len(),
    ensures
        picked(a + b, low_a + low_b, pattern) == picked(a, low_a, pattern) + picked(
            b,
            low_b,
            pattern,
        ),
        text::has_text(low, pattern) ==> picked(seq![line], seq![low], pattern) == seq![line],
        !text::has_text(low, pattern) ==> picked(seq![line], seq![low], pattern).len() == 0,
    decreases b.len(),
{
    let none = Seq::<Seq<char>>::empty();
    assert(seq![line].drop_last() =~= none);
    assert(seq![low].drop_last() =~= none);
    assert(picked(seq![line].drop_last(), seq![low].drop_last(), pattern) == none);
    assert(none.push(line) =~= seq![line]);
    if b.len() == 0 {
        assert(a + b =~= a);
        assert(low_a + low_b =~= low_a);
        assert(picked(a, low_a, pattern) + picked(b, low_b, pattern) =~= picked(a, low_a, pattern));
    } else {
        law_picking_goes_line_by_line(
            a,
            low_a,
            b.drop_last(),
            low_b.drop_last(),
            line,
            low,
            pattern,
        );
        assert((a + b).drop_last() =~= a + b.drop_last());
        assert((low_a + low_b).drop_last() =~= low_a + low_b.drop_last());
        assert(picked(a + b, low_a + low_b, pattern) =~= picked(a, low_a, pattern) + picked(
            b,
            low_b,
            pattern,
        ));
    }
}

/// How many of the first `n` lines have the pattern.
pub open spec fn matching(lowered: Seq<Seq<char>>, pattern: Seq<char>, n: int) -> nat
    decreases n,
{
    if n <= 0 {
        0
    } else {
        matching(lowered, pattern, n - 1) + (if text::has_text(lowered[n - 1], pattern) {
            1nat
        } else {
            0
        })
    }
}

/// Every line that has the pattern is told, as often as there are such lines and
/// in their order: line `i` comes behind as many others as have the pattern
/// before it.
pub proof fn law_every_match_is_told(
    lines: Seq<Seq<char>>,
    lowered: Seq<Seq<char>>,
    pattern: Seq<char>,
    i: int,
)
    requires
        lines.len() == lowered.len(),
        0 <= i < lines.len(),
    ensures
        picked(lines, lowered, pattern).len() == matching(lowered, pattern, lines.len() as int),
        text::has_text(lowered[i], pattern) ==> {
            &&& matching(lowered, pattern, i) < picked(lines, lowered, pattern).len()
            &&& picked(lines, lowered, pattern)[matching(lowered, pattern, i) as int] == lines[i]
        },
    decreases lines.len(),
{
    let n = lines.len() - 1;
    let rest = picked(lines.drop_last(), lowered.drop_last(), pattern);
    lemma_matching(lowered, pattern, n);
    if n > 0 {
        law_every_match_is_told(
            lines.drop_last(),
            lowered.drop_last(),
            pattern,
            if i < n {
                i
            } else {
                0
            },
        );
    } else {
        assert(rest.len() == 0);
        assert(matching(lowered.drop_last(), pattern, 0) == 0);
    }
    if i < n {
        lemma_matching(lowered, pattern, i);
    }
}

/// Lines behind the first `n` do not count there.
proof fn lemma_matching(lowered: Seq<Seq<char>>, pattern: Seq<char>, n: int)
    requires
        0 <= n < lowered.len(),
    ensures
        matching(lowered.drop_last(), pattern, n) == matching(lowered, pattern, n),
    decreases n,
{
    if n > 0 {
        lemma_matching(lowered, pattern, n - 1);
        assert(lowered.drop_last()[n - 1] == lowered[n - 1]);
    }
}

/// The lowercase form is taken of each line.
pub proof fn law_each_line_is_lowered(lines: Seq<Seq<char>>, i: int)
    ensures
        lowered_lines(lines).len() == lines.len(),
        0 <= i < lines.len() ==> lowered_lines(lines)[i] == text::lowercase(lines[i]),
{
}

/// What the model is told of a search has all the lines that were picked, one to
/// a line, as long as they fit; and where none was picked, what was searched for
/// and in which pane.
pub proof fn law_matches_are_told_whole(
    matches: Seq<Seq<char>>,
    line: Seq<char>,
    pattern: Seq<char>,
    pane: usize,
)
    ensures
        matches.len() > 0 && text::join(matches, "\n"@).len() <= 4800 ==> grep_text(
            matches,
            pattern,
            pane,
        ) == text::join(matches, "\n"@),
        line.len() <= 4800 ==> grep_text(seq![line], pattern, pane) == line,
        matches.len() == 0 ==> text::has_text(grep_text(matches, pattern, pane), pattern)
            && text::decimal(pane as nat).is_suffix_of(grep_text(matches, pattern, pane)),
{
    text::law_joining(matches, matches, line, "\n"@);
    if matches.len() == 0 {
        let told = grep_text(matches, pattern, pane);
        text::law_text_is_found(
            "no matches for '"@,
            pattern,
            "' in pane "@ + text::decimal(pane as nat),
        );
        assert(told =~= "no matches for '"@ + pattern + ("' in pane "@ + text::decimal(
            pane as nat,
        )));
        assert(told.skip(told.len() - text::decimal(pane as nat).len()) =~= text::decimal(
            pane as nat,
        ));
    }
}

/// A command is typed as it is, with a carriage return behind it, and keys as
/// they are, into the pane that the call names or else into the active one.
pub proof fn law_calls_type_what_they_say(args: Json, grid: PaneGrid, typed: Seq<char>, n: u64)
    requires
        grid.wf(),
        grid.bounded(),
    ensures
        json::member(args, "pane"@) == Some(Json::Number(json::JsonNumber::Natural(n))) && n
            < grid.panes ==> pane_wanted(args, grid.active) == n,
        json::member(args, "pane"@) is None ==> pane_wanted(args, grid.active) == grid.active,
        json::member(args, "command"@) == Some(Json::Text(typed)) && pane_wanted(args, grid.active)
            < grid.panes ==> (pane_plan("run_command"@, args, grid) matches PaneActionView::Run {
            pane,
            typed: t,
            reply,
        } && pane == pane_wanted(args, grid.active) && t == typed.push('\r') && text::has_text(
            reply,
            typed,
        )),
        json::member(args, "keys"@) == Some(Json::Text(typed)) && pane_wanted(args, grid.active)
            < grid.panes ==> (pane_plan("send_keys"@, args, grid) matches PaneActionView::Keys {
            pane,
            typed: t,
            ..
        } && pane == pane_wanted(args, grid.active) && t == typed),
        json::member(args, "pattern"@) == Some(Json::Text(typed)) && pane_wanted(args, grid.active)
            < grid.panes ==> pane_plan("grep_pane"@, args, grid) == (PaneActionView::Grep {
            pane: pane_wanted(args, grid.active),
            pattern: typed,
        }),
{
    lemma_tool_names();
    let c = grid.layout.cols as int;
    let r = grid.layout.rows as int;
    assert(grid.panes <= crate::ui::MAX_PANES);
    reveal_strlit("\r");
    assert(typed + "\r"@ =~= typed.push('\r'));
    let pane = pane_wanted(args, grid.active);
    let head = "ran in pane "@ + text::decimal(pane as nat) + ": "@;
    text::law_text_is_found(head, typed, "\n(use read_pane to see output)"@);
}

proof fn lemma_tool_names()
    ensures
        "run_command"@ != "send_keys"@,
        "run_command"@ != "read_pane"@,
        "run_command"@ != "grep_pane"@,
        "send_keys"@ != "read_pane"@,
        "send_keys"@ != "grep_pane"@,
        "read_pane"@ != "grep_pane"@,
        "set_grid"@ != "run_command"@,
        "set_grid"@ != "send_keys"@,
        "set_grid"@ != "read_pane"@,
        "set_grid"@ != "grep_pane"@,
        "set_grid"@ != "list_panes"@,
        "set_grid"@ != "shell"@,
        "set_grid"@ != "shell_bg"@,
        "set_grid"@ != "read_shell"@,
        "set_grid"@ != "wait"@,
        "add_pane"@ != "run_command"@,
        "add_pane"@ != "send_keys"@,
        "add_pane"@ != "read_pane"@,
        "add_pane"@ != "grep_pane"@,
        "add_pane"@ != "list_panes"@,
        "add_pane"@ != "shell"@,
        "add_pane"@ != "shell_bg"@,
        "add_pane"@ != "read_shell"@,
        "add_pane"@ != "wait"@,
        "add_pane"@ != "set_grid"@,
        "list_panes"@ != "run_command"@,
        "list_panes"@ != "send_keys"@,
        "list_panes"@ != "read_pane"@,
        "list_panes"@ != "grep_pane"@,
{
    reveal_strlit("run_command");
    reveal_strlit("send_keys");
    reveal_strlit("read_pane");
    reveal_strlit("grep_pane");
    reveal_strlit("list_panes");
    reveal_strlit("set_grid");
    reveal_strlit("add_pane");
    reveal_strlit("shell");
    reveal_strlit("shell_bg");
    reveal_strlit("read_shell");
    reveal_strlit("wait");
    assert("run_command"@[0] == 'r' && "send_keys"@[0] == 's' && "read_pane"@[0] == 'r'
        && "grep_pane"@[0] == 'g' && "list_panes"@[0] == 'l' && "set_grid"@[0] == 's'
        && "add_pane"@[0] == 'a' && "shell"@[0] == 's' && "shell_bg"@[0] == 's'
        && "read_shell"@[0] == 'r' && "wait"@[0] == 'w');
    assert("run_command"@[1] == 'u' && "read_pane"@[1] == 'e' && "send_keys"@[2] == 'n'
        && "set_grid"@[2] == 't' && "set_grid"@[1] == 'e' && "shell"@[1] == 'h' && "shell_bg"@[1]
        == 'h');
}

/// A pane is read as far back as the call asks, but at least one line and at most
/// four hundred, and eighty where it does not say.
pub proof fn law_panes_are_read_as_asked(args: Json, grid: PaneGrid, n: u64)
    requires
        pane_wanted(args, grid.active) < grid.panes,
    ensures
        ({
            let plan = pane_plan("read_pane"@, args, grid);
            &&& plan matches PaneActionView::Read { pane, lines } && pane == pane_wanted(
                args,
                grid.active,
            ) && 1 <= lines <= 400
            &&& json::member(args, "lines"@) == Some(Json::Number(json::JsonNumber::Natural(n)))
                && 1 <= n <= 400 ==> plan->lines == n
            &&& json::member(args, "lines"@) is None ==> plan->lines == 80
        }),
{
    lemma_tool_names();
}

/// The grid that a call asks for is made, within one and twelve each way, unless
/// it would close terminals and the call does not say that it may.
pub proof fn law_grids_are_made_as_asked(args: Json, grid: PaneGrid, c: u64, r: u64)
    requires
        1 <= c <= 12,
        1 <= r <= 12,
        json::member(args, "cols"@) == Some(Json::Number(json::JsonNumber::Natural(c))),
        json::member(args, "rows"@) == Some(Json::Number(json::JsonNumber::Natural(r))),
    ensures
        c * r >= grid.panes || json::member(args, "allow_close"@) == Some(Json::Bool(true))
            ==> (pane_plan("set_grid"@, args, grid) matches PaneActionView::Rebuild {
            cols,
            rows,
            ..
        } && cols == c && rows == r),
        c * r < grid.panes && json::member(args, "allow_close"@) != Some(Json::Bool(true))
            ==> pane_plan("set_grid"@, args, grid) is Reply,
{
    lemma_tool_names();
}

/// A pane is added by one more column or row, whichever there are fewer of, up
/// to the most that there may be; it comes behind the others.
pub proof fn law_a_pane_is_added(args: Json, grid: PaneGrid)
    requires
        grid.wf(),
        grid.bounded(),
    ensures
        pane_plan("add_pane"@, args, grid) matches PaneActionView::AddPane { grid: g, index }
            && index == grid.panes && match g {
            Some((cols, rows)) => {
                &&& cols * rows <= crate::ui::MAX_GROWN_PANES
                &&& cols * rows > grid.layout.cols * grid.layout.rows
                &&& if grid.layout.cols <= grid.layout.rows {
                    cols == grid.layout.cols + 1 && rows == grid.layout.rows
                } else {
                    cols == grid.layout.cols && rows == grid.layout.rows + 1
                }
            },
            None => if grid.layout.cols <= grid.layout.rows {
                (grid.layout.cols + 1) * grid.layout.rows > crate::ui::MAX_GROWN_PANES
            } else {
                grid.layout.cols * (grid.layout.rows + 1) > crate::ui::MAX_GROWN_PANES
            },
        },
{
    lemma_tool_names();
    let c = grid.layout.cols as int;
    let r = grid.layout.rows as int;
    assert((c + 1) * r == c * r + r) by (nonlinear_arith);
    assert(c * (r + 1) == c * r + c) by (nonlinear_arith);
    assert(c <= crate::ui::MAX_PANES && r <= crate::ui::MAX_PANES) by (nonlinear_arith)
        requires
            c >= 1,
            r >= 1,
            c * r <= crate::ui::MAX_PANES,
    ;
}

/// Every pane is listed, in order, by its number and by its column and row in
/// the grid; the active one, and only it, is marked.
pub proof fn law_every_pane_is_listed(n: int, i: int, cols: int, active: int, col: int, row: int)
    requires
        0 <= i < n,
        cols > 0,
        0 <= col < cols,
        0 <= row,
        i == row * cols + col,
    ensures
        ({
            let line = "pane "@ + text::decimal(i as nat) + ": grid ("@ + text::decimal(col as nat)
                + ","@ + text::decimal(row as nat) + ")"@ + (if i == active {
                " [focused]"@
            } else {
                ""@
            }) + "\n"@;
            &&& (pane_list(i, cols, active) + line).is_prefix_of(pane_list(n, cols, active))
            &&& pane_list(0, cols, active).len() == 0
        }),
    decreases n - i,
{
    vstd::arithmetic::div_mod::lemma_fundamental_div_mod_converse(i, cols, row, col);
    let upto = pane_list(i + 1, cols, active);
    lemma_list_grows(i + 1, n, cols, active);
}

proof fn lemma_list_grows(i: int, n: int, cols: int, active: int)
    requires
        0 <= i <= n,
    ensures
        pane_list(i, cols, active).is_prefix_of(pane_list(n, cols, active)),
    decreases n - i,
{
    let a = pane_list(i, cols, active);
    let b = pane_list(n, cols, active);
    if i < n {
        lemma_list_grows(i, n - 1, cols, active);
        let c = pane_list(n - 1, cols, active);
        assert(b.take(a.len() as int) =~= c.take(a.len() as int));
    }
    assert(b.take(a.len() as int) =~= a);
}

/// The panes' content is told pane by pane, all of them in order.
pub proof fn law_every_pane_is_told(
    panes: Seq<Seq<Seq<pty::RunView>>>,
    n: int,
    i: int,
    active: int,
)
    requires
        0 <= i < n,
    ensures
        (context_text(panes, i, active) + pane_context(i, panes[i], active)).is_prefix_of(
            context_text(panes, n, active),
        ),
        context_text(panes, 0, active).len() == 0,
    decreases n - i,
{
    let a = context_text(panes, i + 1, active);
    let b = context_text(panes, n, active);
    if i + 1 < n {
        law_every_pane_is_told(panes, n - 1, i, active);
        let c = context_text(panes, n - 1, active);
        assert(b.take(a.len() as int) =~= c.take(a.len() as int));
    }
    assert(b.take(a.len() as int) =~= a);
}

/// What is told of a pane has its number, says whether it is the active one, and
/// has the whole of its text, as long as that is not too long for the model.
pub proof fn law_a_pane_is_told_whole(i: int, rows: Seq<Seq<pty::RunView>>, active: int)
    requires
        text::trim_end(rows_text(rows)).len() <= 2000,
    ensures
        pane_context(i, rows, active) == "--- pane "@ + text::decimal(i as nat) + (if i == active {
            " (focused)"@
        } else {
            ""@
        }) + " ---\n"@ + text::trim_end(rows_text(rows)) + "\n"@,
{
}

/// The text of rows is that of all rows, in order, each with a line feed behind
/// it, and that of a row is that of all its runs.
pub proof fn law_every_row_is_told(
    a: Seq<Seq<pty::RunView>>,
    b: Seq<Seq<pty::RunView>>,
    runs: Seq<pty::RunView>,
    run: pty::RunView,
)
    ensures
        rows_text(a + b) == rows_text(a) + rows_text(b),
        rows_text(seq![runs]) == pty::runs_text(runs) + "\n"@,
        pty::runs_text(runs.push(run)) == pty::runs_text(runs) + run.text,
        pty::runs_text(seq![]) == Seq::<char>::empty(),
    decreases b.len(),
{
    let none = Seq::<Seq<pty::RunView>>::empty();
    assert(seq![runs].drop_last() =~= none);
    assert(rows_text(none) == Seq::<char>::empty());
    assert(rows_text(seq![runs]) == rows_text(seq![runs].drop_last()) + pty::runs_text(runs)
        + "\n"@);
    assert(rows_text(seq![runs]) =~= pty::runs_text(runs) + "\n"@);
    assert(runs.push(run).drop_last() =~= runs);
    if b.len() == 0 {
        assert(a + b =~= a);
        assert(rows_text(a) + rows_text(b) =~= rows_text(a));
    } else {
        law_every_row_is_told(a, b.drop_last(), runs, run);
        assert((a + b).drop_last() =~= a + b.drop_last());
        assert(rows_text(a) + (rows_text(b.drop_last()) + pty::runs_text(b.last()) + "\n"@)
            =~= rows_text(a) + rows_text(b.drop_last()) + pty::runs_text(b.last()) + "\n"@);
    }
}

/// What a call wants of a grid is kept between one and twelve, and is one where
/// the call does not say.
pub proof fn law_sizes_are_bounded(
    m: Map<Seq<char>, Json>,
    key: Seq<char>,
    n: u64,
    k: i64,
    other: Json,
)
    requires
        n <= i64::MAX,
        k < 0,
        json::int_of(other) is None,
    ensures
        ({
            let wanted = |j: Json| size_wanted(Json::Object(m.insert(key, j)), key);
            let natural = Json::Number(json::JsonNumber::Natural(n));
            &&& 1 <= n <= 12 ==> wanted(natural) == n
            &&& n == 0 ==> wanted(natural) == 1
            &&& n > 12 ==> wanted(natural) == 12
            &&& wanted(Json::Number(json::JsonNumber::Negative(k))) == 1
            &&& wanted(other) == 1
        }),
        size_wanted(Json::Object(m.remove(key)), key) == 1,
        may_close(Json::Object(m.insert("allow_close"@, Json::Bool(true)))),
        !may_close(Json::Object(m.insert("allow_close"@, Json::Bool(false)))),
        !(other is Bool) ==> !may_close(Json::Object(m.insert("allow_close"@, other))),
        !may_close(Json::Object(m.remove("allow_close"@))),
{
}

/// The replies name the pane that the call was for, and the command.
pub proof fn law_replies_name_the_pane(pane: usize, command: Seq<char>)
    ensures
        text::begins_with(
            ran_text(pane, command),
            "ran in pane "@ + text::decimal(pane as nat) + ": "@ + command,
        ),
        sent_text(pane) == "sent keys to pane "@ + text::decimal(pane as nat),
        text::ends_with(no_pane(pane), text::decimal(pane as nat)),
{
    text::law_text_is_found(
        seq![],
        "ran in pane "@ + text::decimal(pane as nat) + ": "@ + command,
        "\n(use read_pane to see output)"@,
    );
    text::law_text_is_found("no pane "@, text::decimal(pane as nat), seq![]);
}

/// The replies name the grid that there is now, or would be, with the number of
/// its panes and of those that would close.
pub proof fn law_replies_name_the_grid(cols: nat, rows: nat, count: nat, panes: nat)
    requires
        count == cols * rows,
        count < panes,
    ensures
        grid_text(cols as int, rows as int) == "grid is now "@ + text::decimal(cols) + "x"@
            + text::decimal(rows) + " ("@ + text::decimal(count) + " panes)"@,
        text::begins_with(
            refused_text(cols as int, rows as int, panes as int),
            "refused: a "@ + text::decimal(cols) + "x"@ + text::decimal(rows) + " grid ("@
                + text::decimal(count) + " panes) would close "@ + text::decimal(
                (panes - count) as nat,
            ),
        ),
{
    let c = cols as int;
    let r = rows as int;
    assert(c * r == count);
    text::law_text_is_found(
        seq![],
        "refused: a "@ + text::decimal(cols) + "x"@ + text::decimal(rows) + " grid ("@
            + text::decimal(count) + " panes) would close "@ + text::decimal(
            (panes - count) as nat,
        ),
        " existing terminal(s). If the user explicitly wants to close panes, call again with allow_close=true."@,
    );
}

/// What the browser's tools are asked for is handed on as it is; the tools of the
/// agent are not run on the panes; and a tool that there is not is named in the
/// reply.
pub proof fn law_other_calls_are_handed_on(args: Json, grid: PaneGrid, said: Seq<char>)
    ensures
        pane_plan("usage_report"@, args, grid) is UsageReport,
        pane_plan("browser_save_login"@, args, grid) is SaveLogin,
        pane_plan("browser_request_login"@, args, grid) == PaneActionView::RequestLogin(
            shell::arg_text(args, "url"@),
        ),
        json::member(args, "mode"@) == Some(Json::Text("off"@)) ==> pane_plan(
            "browser_setup"@,
            args,
            grid,
        ) == PaneActionView::Setup(BrowserMode::Off),
        json::member(args, "mode"@) != Some(Json::Text("off"@)) ==> pane_plan(
            "browser_setup"@,
            args,
            grid,
        ) == PaneActionView::Setup(BrowserMode::Shared),
        pane_plan("shell"@, args, grid) is Reply,
        pane_plan("shell_bg"@, args, grid) is Reply,
        pane_plan("read_shell"@, args, grid) is Reply,
        pane_plan("wait"@, args, grid) is Reply,
        !pane_tool(said) && !(said == "shell"@ || said == "shell_bg"@ || said == "read_shell"@
            || said == "wait"@ || said == "browser_setup"@ || said == "browser_request_login"@
            || said == "browser_save_login"@) ==> pane_plan(said, args, grid)
            == PaneActionView::Reply("unknown tool: "@ + said),
{
    reveal_strlit("run_command");
    reveal_strlit("send_keys");
    reveal_strlit("read_pane");
    reveal_strlit("grep_pane");
    reveal_strlit("list_panes");
    reveal_strlit("set_grid");
    reveal_strlit("add_pane");
    reveal_strlit("shell");
    reveal_strlit("shell_bg");
    reveal_strlit("read_shell");
    reveal_strlit("wait");
    reveal_strlit("usage_report");
    reveal_strlit("browser_setup");
    reveal_strlit("browser_request_login");
    reveal_strlit("browser_save_login");
    assert("run_command"@.len() == 11 && "send_keys"@.len() == 9 && "read_pane"@.len() == 9
        && "grep_pane"@.len() == 9 && "list_panes"@.len() == 10 && "set_grid"@.len() == 8
        && "add_pane"@.len() == 8 && "shell"@.len() == 5 && "shell_bg"@.len() == 8
        && "read_shell"@.len() == 10 && "wait"@.len() == 4 && "usage_report"@.len() == 12
        && "browser_setup"@.len() == 13 && "browser_request_login"@.len() == 21
        && "browser_save_login"@.len() == 18);
    assert("set_grid"@[1] == 'e' && "add_pane"@[0] == 'a' && "shell_bg"@[1] == 'h'
        && "list_panes"@[0] == 'l' && "read_shell"@[0] == 'r');
}

} // verus!
