//! The tools that the agent runs itself, above all its private shell: what is
//! typed there to learn what a command prints, and how that is read back.

use serde_json::Value;
use vstd::prelude::*;

use crate::ai::agent;
use crate::ai::agent::is_local_tool;
use crate::ai::client::ToolCall;
use crate::ai::tools;
use crate::ai::tools::truncate_tokens;
use crate::browser::BrowserMode;
use crate::json;
use crate::json::{as_int, as_text, copy, get, null, parse, Json};
use crate::text;
use crate::text::{from_chars, push_decimal, same_text, stands_at, to_chars, trim_char_range};

verus! {

/// The mark of the command that began at the time `n`.
pub open spec fn marker(n: nat) -> Seq<char> {
    "__GT_"@ + text::decimal(n) + "__"@
}

/// What is printed before the output of a command.
pub open spec fn begin_mark(n: nat) -> Seq<char> {
    marker(n) + "BEGIN"@
}

/// What is printed after the output of a command.
pub open spec fn end_mark(n: nat) -> Seq<char> {
    marker(n) + "END"@
}

fn marked(n: u128, tail: &str) -> (r: String)
    ensures
        r@ == marker(n as nat) + tail@,
{
    let mut r: String = "__GT_".to_owned();
    push_decimal(&mut r, n);
    r.append("__");
    r.append(tail);
    r
}

/// The line that is typed to run a command between its marks, with its exit
/// status behind the second.
pub open spec fn command_line(n: nat, command: Seq<char>) -> Seq<char> {
    "echo "@ + begin_mark(n) + "; "@ + command + "; echo "@ + end_mark(n) + "$?\n"@
}

/// The line that runs `command` in the private shell, begun at the time `n`.
pub fn shell_line(n: u128, command: &str) -> (r: String)
    ensures
        r@ == command_line(n as nat, command@),
{
    let mut r: String = "echo ".to_owned();
    r.append(marked(n, "BEGIN").as_str());
    r.append("; ");
    r.append(command);
    r.append("; echo ");
    r.append(marked(n, "END").as_str());
    r.append("$?\n");
    r
}

/// What comes right behind a mark that was printed. In the line that was typed
/// to run the command, which the shell shows too, something else does.
#[derive(Clone, Copy, PartialEq, Eq, Structural)]
enum Follow {
    /// The mark of the beginning stands at the end of its line.
    LineFeed,
    /// The exit status comes behind the mark of the end, in the same row or the
    /// next.
    Digit,
}

/// Whether `mark` stands in `shown` at position `i` with a line feed behind it.
pub open spec fn begun_at(shown: Seq<char>, mark: Seq<char>, i: int) -> bool {
    text::occurs_at(shown, mark, i) && i + mark.len() < shown.len() && shown[i + mark.len()]
        == '\n'
}

/// Whether a digit stands in `shown` at position `i`, or at the beginning of the
/// next row where one ends there.
pub open spec fn digit_from(shown: Seq<char>, i: int) -> bool {
    ||| i < shown.len() && text::is_digit(shown[i])
    ||| i + 1 < shown.len() && shown[i] == '\n' && text::is_digit(shown[i + 1])
}

/// Whether `mark` stands in `shown` at position `i` with a digit behind it; where
/// the mark ends in the last column, the digit stands in the next row.
pub open spec fn ended_at(shown: Seq<char>, mark: Seq<char>, i: int) -> bool {
    text::occurs_at(shown, mark, i) && digit_from(shown, i + mark.len())
}

/// Whether the command that began at the time `n` printed the mark of its
/// beginning for the last time at position `b`.
pub open spec fn last_begun(shown: Seq<char>, n: nat, b: int) -> bool {
    begun_at(shown, begin_mark(n), b) && forall|k: int|
        b < k ==> !begun_at(shown, begin_mark(n), k)
}

/// Whether the command that began at the time `n` printed the mark of its end
/// for the last time at position `e`.
pub open spec fn last_ended(shown: Seq<char>, n: nat, e: int) -> bool {
    ended_at(shown, end_mark(n), e) && forall|k: int| e < k ==> !ended_at(shown, end_mark(n), k)
}

/// Whether the shell's text shows that the command has ended, with the output
/// `out`: that is what stands between the last mark of its beginning and the
/// last mark of its end, where that comes later, without line feeds around it
/// and cut down to a length that the model can take.
pub open spec fn printed(shown: Seq<char>, n: nat, out: Seq<char>) -> bool {
    exists|b: int, e: int|
        #![trigger last_begun(shown, n, b), last_ended(shown, n, e)]
        last_begun(shown, n, b) && last_ended(shown, n, e) && b < e && out == tools::truncated(
            text::trim_char(shown.subrange(b + begin_mark(n).len(), e), '\n'),
            1500,
        )
}

spec fn follows(shown: Seq<char>, mark: Seq<char>, then: Follow, i: int) -> bool {
    match then {
        Follow::LineFeed => begun_at(shown, mark, i),
        Follow::Digit => ended_at(shown, mark, i),
    }
}

fn find_mark(v: &Vec<char>, mark: &Vec<char>, then: Follow) -> (r: Option<usize>)
    ensures
        match r {
            Some(i) => follows(v@, mark@, then, i as int) && forall|k: int|
                i < k ==> !follows(v@, mark@, then, k),
            None => forall|k: int| !follows(v@, mark@, then, k),
        },
{
    let mut i: usize = v.len();
    loop
        invariant
            i <= v.len(),
            forall|k: int| i < k ==> !follows(v@, mark@, then, k),
        decreases i,
    {
        if stands_at(v, mark, i) && i + mark.len() < v.len() {
            let at: usize = i + mark.len();
            let c: char = v[at];
            let found: bool = match then {
                Follow::LineFeed => c == '\n',
                Follow::Digit => ('0' <= c && c <= '9') || (c == '\n' && at < v.len() - 1 && '0'
                    <= v[at + 1] && v[at + 1] <= '9'),
            };
            if found {
                return Some(i);
            }
        }
        if i == 0 {
            return None;
        }
        i = i - 1;
    }
}

/// The two marks of a command never overlap where that of its end comes later.
proof fn lemma_marks_apart(shown: Seq<char>, n: nat, b: int, e: int)
    requires
        text::occurs_at(shown, begin_mark(n), b),
        text::occurs_at(shown, end_mark(n), e),
        b < e,
    ensures
        b + begin_mark(n).len() <= e,
{
    reveal_strlit("__GT_");
    reveal_strlit("__");
    reveal_strlit("BEGIN");
    reveal_strlit("END");
    text::lemma_decimal_digits(n);
    let m = begin_mark(n);
    let w = end_mark(n);
    let k = text::decimal(n).len() as int;
    let d = e - b;
    if d < m.len() {
        assert(shown.subrange(b, b + m.len())[d] == m[d]);
        assert(shown.subrange(e, e + w.len())[0] == w[0]);
        if d + 1 < m.len() {
            assert(shown.subrange(b, b + m.len())[d + 1] == m[d + 1]);
            assert(shown.subrange(e, e + w.len())[1] == w[1]);
        }
        if d + 2 < m.len() {
            assert(shown.subrange(b, b + m.len())[d + 2] == m[d + 2]);
            assert(shown.subrange(e, e + w.len())[2] == w[2]);
        }
        assert(5 <= d < 5 + k ==> m[d] == text::decimal(n)[d - 5]);
        assert(m[5] == text::decimal(n)[0]);
        assert(false);
    }
}

/// Reads the output of the command that began at the time `n` from the text
/// of the shell; `None` while it has not ended.
pub fn shell_output(shown: &str, n: u128) -> (r: Option<String>)
    ensures
        match r {
            Some(out) => printed(shown@, n as nat, out@),
            None => forall|out: Seq<char>| !printed(shown@, n as nat, out),
        },
{
    let v: Vec<char> = to_chars(shown);
    let begin: Vec<char> = to_chars(marked(n, "BEGIN").as_str());
    let end: Vec<char> = to_chars(marked(n, "END").as_str());
    let begun: Option<usize> = find_mark(&v, &begin, Follow::LineFeed);
    let ended: Option<usize> = find_mark(&v, &end, Follow::Digit);
    proof {
        match begun {
            Some(b) => {
                assert(follows(shown@, begin_mark(n as nat), Follow::LineFeed, b as int));
                assert forall|k: int| b < k implies !begun_at(
                    shown@,
                    begin_mark(n as nat),
                    k,
                ) by {
                    assert(!follows(shown@, begin_mark(n as nat), Follow::LineFeed, k));
                }
                assert(last_begun(shown@, n as nat, b as int));
            },
            None => {
                assert forall|k: int| !last_begun(shown@, n as nat, k) by {
                    assert(!follows(shown@, begin_mark(n as nat), Follow::LineFeed, k));
                }
            },
        }
        match ended {
            Some(e) => {
                assert(follows(shown@, end_mark(n as nat), Follow::Digit, e as int));
                assert forall|k: int| e < k implies !ended_at(shown@, end_mark(n as nat), k) by {
                    assert(!follows(shown@, end_mark(n as nat), Follow::Digit, k));
                }
                assert(last_ended(shown@, n as nat, e as int));
            },
            None => {
                assert forall|k: int| !last_ended(shown@, n as nat, k) by {
                    assert(!follows(shown@, end_mark(n as nat), Follow::Digit, k));
                }
            },
        }
    }
    match (begun, ended) {
        (Some(b), Some(e)) => {
            if e > b {
                proof {
                    lemma_marks_apart(shown@, n as nat, b as int, e as int);
                }
                let (from, to) = trim_char_range(&v, b + begin.len(), e, '\n');
                let out: String = from_chars(&v, from, to);
                let cut: String = truncate_tokens(out.as_str(), 1500);
                Some(cut)
            } else {
                assert forall|out: Seq<char>| !printed(shown@, n as nat, out) by {
                    assert forall|b2: int, e2: int|
                        #![trigger last_begun(shown@, n as nat, b2), last_ended(shown@, n as nat, e2)]
                        last_begun(shown@, n as nat, b2) && last_ended(
                            shown@,
                            n as nat,
                            e2,
                        ) implies b2 >= e2 by {
                        assert(b2 == b && e2 == e);
                    }
                }
                None
            }
        },
        _ => None,
    }
}

/// What to do after a look at the private shell.
pub enum ShellStep {
    /// The command has ended.
    Finished(String),
    /// It takes too long.
    TimedOut,
    /// Look again later.
    Again,
}

/// Decides what to do after a look at the private shell, where the command
/// began at the time `n`; `late` says whether its time is up.
pub fn poll_shell(shown: &str, n: u128, late: bool) -> (r: ShellStep)
    ensures
        match r {
            ShellStep::Finished(out) => printed(shown@, n as nat, out@),
            ShellStep::TimedOut => late && forall|out: Seq<char>| !printed(shown@, n as nat, out),
            ShellStep::Again => !late && forall|out: Seq<char>| !printed(shown@, n as nat, out),
        },
{
    match shell_output(shown, n) {
        Some(out) => ShellStep::Finished(out),
        None => if late {
            ShellStep::TimedOut
        } else {
            ShellStep::Again
        },
    }
}

/// What the model is told of a command whose time is up.
pub fn timeout_text(partial: &str) -> (r: String)
    ensures
        r@ == "(timed out after 30s; partial output)\n"@ + tools::truncated(partial@, 1000),
{
    let mut r: String = "(timed out after 30s; partial output)\n".to_owned();
    r.append(truncate_tokens(partial, 1000).as_str());
    r
}

/// What stands between two characters of a line on the screen: a line feed
/// where a row ends there.
pub open spec fn row_end(wrapped: bool) -> Seq<char> {
    if wrapped {
        seq!['\n']
    } else {
        seq![]
    }
}

/// A command that has printed `body` between its marks, and its exit status
/// behind the second, is read back as that, whatever stood in the shell before
/// and stands there after, as long as the marks are not printed again. Where the
/// second mark ends in the last column (`wrapped`), the status is in the next row.
pub proof fn law_output_is_read_back(
    before: Seq<char>,
    n: nat,
    body: Seq<char>,
    wrapped: bool,
    status: nat,
    after: Seq<char>,
    out: Seq<char>,
)
    requires
        ({
            let begun = before + begin_mark(n) + "\n"@;
            let shown = begun + body + end_mark(n) + row_end(wrapped) + text::decimal(status)
                + after;
            &&& forall|k: int| before.len() < k ==> !begun_at(shown, begin_mark(n), k)
            &&& forall|k: int| begun.len() + body.len() < k ==> !ended_at(shown, end_mark(n), k)
        }),
    ensures
        printed(
            before + begin_mark(n) + "\n"@ + body + end_mark(n) + row_end(wrapped) + text::decimal(status)
                + after,
            n,
            out,
        ) <==> out == tools::truncated(text::trim_char(body, '\n'), 1500),
{
    reveal_strlit("__GT_");
    reveal_strlit("\n");
    text::lemma_decimal_digits(status);
    let shown = before + begin_mark(n) + "\n"@ + body + end_mark(n) + row_end(wrapped)
        + text::decimal(status) + after;
    let b = before.len() as int;
    let e = b + begin_mark(n).len() + 1 + body.len();
    assert(shown.subrange(b, b + begin_mark(n).len()) =~= begin_mark(n));
    assert(shown.subrange(e, e + end_mark(n).len()) =~= end_mark(n));
    assert(shown[b + begin_mark(n).len()] == "\n"@[0]);
    let s = e + end_mark(n).len() + row_end(wrapped).len();
    assert(shown[s] == text::decimal(status)[0]);
    if wrapped {
        assert(shown[e + end_mark(n).len()] == row_end(wrapped)[0]);
    }
    assert(digit_from(shown, e + end_mark(n).len()));
    assert(last_begun(shown, n, b));
    assert(last_ended(shown, n, e));
    assert(shown.subrange(b + begin_mark(n).len(), e) =~= "\n"@ + body);
    assert(("\n"@ + body).drop_first() =~= body);
    assert(text::only('\n')(("\n"@ + body)[0]));
    if printed(shown, n, out) {
        let (b2, e2) = choose|b2: int, e2: int|
            #![trigger last_begun(shown, n, b2), last_ended(shown, n, e2)]
            last_begun(shown, n, b2) && last_ended(shown, n, e2) && b2 < e2 && out
                == tools::truncated(
                text::trim_char(shown.subrange(b2 + begin_mark(n).len(), e2), '\n'),
                1500,
            );
        assert(b2 == b && e2 == e);
    }
}

proof fn lemma_end_mark(n: nat)
    ensures
        end_mark(n).len() > 4,
        end_mark(n)[0] == '_',
        end_mark(n)[1] == '_',
        end_mark(n)[2] == 'G',
        end_mark(n)[3] == 'T',
{
    reveal_strlit("__GT_");
}

/// A line that ends with the typed mark shows no printed one, where none stands
/// before.
proof fn lemma_not_ended(line: Seq<char>, n: nat, e: int)
    requires
        forall|k: int| k < line.len() ==> !text::occurs_at(line + end_mark(n), end_mark(n), k),
    ensures
        !ended_at(line + end_mark(n) + "$?\n"@, end_mark(n), e),
{
    reveal_strlit("$?\n");
    lemma_end_mark(n);
    let w = end_mark(n);
    let shown = line + w + "$?\n"@;
    if ended_at(shown, w, e) {
        let here = shown.subrange(e, e + w.len());
        if e < line.len() {
            assert((line + w).subrange(e, e + w.len()) =~= here);
            assert(text::occurs_at(line + w, w, e));
        } else if e == line.len() {
            assert(shown[e + w.len()] == "$?\n"@[0]);
            assert(!digit_from(shown, e + w.len()));
        } else {
            let d = e - line.len();
            assert(here[0] == shown[e]);
            assert(here[1] == shown[e + 1]);
            assert(d == 1 || d == 2);
            assert(shown[e] == w[d]);
            assert(shown[e + 1] == w[d + 1]);
        }
    }
}

/// While the shell shows no more than the line that was typed to run a command,
/// the command has not ended, though both marks stand in that line: as long as
/// what stands before the second mark does not spell it out.
pub proof fn law_the_typed_line_is_no_output(
    before: Seq<char>,
    n: nat,
    command: Seq<char>,
    out: Seq<char>,
)
    requires
        ({
            let line = before + "echo "@ + begin_mark(n) + "; "@ + command + "; echo "@;
            forall|k: int| k < line.len() ==> !text::occurs_at(line + end_mark(n), end_mark(n), k)
        }),
    ensures
        !printed(before + command_line(n, command), n, out),
{
    let line = before + "echo "@ + begin_mark(n) + "; "@ + command + "; echo "@;
    let shown = before + command_line(n, command);
    assert(shown =~= line + end_mark(n) + "$?\n"@);
    assert forall|e: int| !last_ended(shown, n, e) by {
        lemma_not_ended(line, n, e);
    }
}

/// A tool that the agent runs itself.
pub enum LocalTool {
    /// What the model is told at once.
    Reply(String),
    /// Wait; the number of seconds is what the model gave.
    Wait(Value),
    /// Run a command in the private shell.
    Shell(String),
    /// Start a command in the private shell.
    ShellBg(String),
    /// Read the last lines of the private shell.
    ReadShell(usize),
    BrowserOpen(String),
    BrowserRead,
    RequestLogin(Option<String>),
    SaveLogin,
    Setup(BrowserMode),
}

/// What a [`LocalTool`] holds.
pub ghost enum LocalView {
    Reply(Seq<char>),
    Wait(Json),
    Shell(Seq<char>),
    ShellBg(Seq<char>),
    ReadShell(int),
    BrowserOpen(Seq<char>),
    BrowserRead,
    RequestLogin(Option<Seq<char>>),
    SaveLogin,
    Setup(BrowserMode),
}

impl View for LocalTool {
    type V = LocalView;

    open spec fn view(&self) -> LocalView {
        match *self {
            LocalTool::Reply(s) => LocalView::Reply(s@),
            LocalTool::Wait(v) => LocalView::Wait(json::json_of(v)),
            LocalTool::Shell(s) => LocalView::Shell(s@),
            LocalTool::ShellBg(s) => LocalView::ShellBg(s@),
            LocalTool::ReadShell(n) => LocalView::ReadShell(n as int),
            LocalTool::BrowserOpen(s) => LocalView::BrowserOpen(s@),
            LocalTool::BrowserRead => LocalView::BrowserRead,
            LocalTool::RequestLogin(url) => LocalView::RequestLogin(
                crate::ai::client::opt_view(url),
            ),
            LocalTool::SaveLogin => LocalView::SaveLogin,
            LocalTool::Setup(m) => LocalView::Setup(m),
        }
    }
}

/// The argument under a key; `Null` where there is none.
pub open spec fn arg(args: Json, key: Seq<char>) -> Json {
    match json::member(args, key) {
        Some(j) => j,
        None => Json::Null,
    }
}

/// The text argument under a key, if there is one.
pub open spec fn arg_text(args: Json, key: Seq<char>) -> Option<Seq<char>> {
    json::text_of(arg(args, key))
}

/// The text argument under a key; empty where there is none.
pub open spec fn arg_or_empty(args: Json, key: Seq<char>) -> Seq<char> {
    match arg_text(args, key) {
        Some(s) => s,
        None => seq![],
    }
}

/// A number kept between two bounds.
pub open spec fn clamped(n: int, low: int, high: int) -> int {
    if n < low {
        low
    } else if n > high {
        high
    } else {
        n
    }
}

/// How many lines the model wants to read: 80 where it does not say, and never
/// under 1 or over 400.
pub open spec fn lines_wanted(args: Json) -> int {
    match json::int_of(arg(args, "lines"@)) {
        Some(n) => clamped(n as int, 1, 400),
        None => 80,
    }
}

/// Whether the model wants the browser: unless it says "off".
pub open spec fn mode_wanted(args: Json) -> BrowserMode {
    if arg_text(args, "mode"@) == Some("off"@) {
        BrowserMode::Off
    } else {
        BrowserMode::Shared
    }
}

/// What the model's arguments are as a document; `Null` where they are none.
pub open spec fn args_json(arguments: Seq<char>) -> Json {
    match json::parsed(arguments) {
        Some(j) => j,
        None => Json::Null,
    }
}

/// Reads the model's arguments; `Null` where they are no JSON document.
pub fn read_args(arguments: &str) -> (r: Value)
    ensures
        json::json_of(r) == args_json(arguments@),
{
    match parse(arguments) {
        Ok(v) => v,
        Err(_) => null(),
    }
}

/// The text argument under a key, if there is one.
pub(crate) fn text_arg(args: &Value, key: &str) -> (r: Option<String>)
    ensures
        crate::ai::client::opt_view(r) == arg_text(json::json_of(*args), key@),
{
    match get(args, key) {
        Some(v) => match as_text(v) {
            Some(s) => Some(s.to_owned()),
            None => None,
        },
        None => None,
    }
}

/// The text argument under a key; empty where there is none.
pub(crate) fn text_arg_or_empty(args: &Value, key: &str) -> (r: String)
    ensures
        r@ == arg_or_empty(json::json_of(*args), key@),
{
    match text_arg(args, key) {
        Some(s) => s,
        None => {
            let s: String = String::new();
            assert(s@ =~= seq![]);
            s
        },
    }
}

/// The integer argument under a key, if there is one.
pub(crate) fn int_arg(args: &Value, key: &str) -> (r: Option<i64>)
    ensures
        r == json::int_of(arg(json::json_of(*args), key@)),
{
    match get(args, key) {
        Some(v) => as_int(v),
        None => None,
    }
}

/// How many lines the model wants to read.
pub(crate) fn lines_arg(args: &Value) -> (r: usize)
    ensures
        r == lines_wanted(json::json_of(*args)),
        1 <= r <= 400,
{
    match int_arg(args, "lines") {
        Some(n) => if n < 1 {
            1
        } else if n > 400 {
            400
        } else {
            n as usize
        },
        None => 80,
    }
}

/// Whether the model wants the browser.
pub(crate) fn mode_arg(args: &Value) -> (r: BrowserMode)
    ensures
        r == mode_wanted(json::json_of(*args)),
{
    match text_arg(args, "mode") {
        Some(s) => if same_text(s.as_str(), "off") {
            BrowserMode::Off
        } else {
            BrowserMode::Shared
        },
        None => BrowserMode::Shared,
    }
}

/// What the model is told where the agent has no private shell.
pub const NO_SHELL: &'static str = "(ai shell unavailable)";

/// What running the tool `name` comes to, for one that the agent runs itself.
pub open spec fn local_plan(name: Seq<char>, args: Json, has_shell: bool) -> LocalView {
    if name == "wait"@ {
        LocalView::Wait(arg(args, "seconds"@))
    } else if name == "shell"@ {
        if has_shell {
            LocalView::Shell(arg_or_empty(args, "command"@))
        } else {
            LocalView::Reply(NO_SHELL@)
        }
    } else if name == "shell_bg"@ {
        if has_shell {
            LocalView::ShellBg(arg_or_empty(args, "command"@))
        } else {
            LocalView::Reply(NO_SHELL@)
        }
    } else if name == "read_shell"@ {
        if has_shell {
            LocalView::ReadShell(lines_wanted(args))
        } else {
            LocalView::Reply(NO_SHELL@)
        }
    } else if name == "browser_open"@ {
        if arg_or_empty(args, "url"@).len() == 0 {
            LocalView::Reply("error: no url provided"@)
        } else {
            LocalView::BrowserOpen(arg_or_empty(args, "url"@))
        }
    } else if name == "browser_read"@ {
        LocalView::BrowserRead
    } else if name == "browser_request_login"@ {
        LocalView::RequestLogin(arg_text(args, "url"@))
    } else if name == "browser_save_login"@ {
        LocalView::SaveLogin
    } else {
        LocalView::Setup(mode_wanted(args))
    }
}

/// What running the tool `name` with the given arguments comes to; `None`
/// where it is not for the agent to run.
pub fn plan_local(name: &str, args: &Value, has_shell: bool) -> (r: Option<LocalTool>)
    ensures
        match r {
            Some(t) => agent::local_tool(name@) && t@ == local_plan(
                name@,
                json::json_of(*args),
                has_shell,
            ),
            None => !agent::local_tool(name@),
        },
{
    if !is_local_tool(name) {
        return None;
    }
    if same_text(name, "wait") {
        return Some(
            LocalTool::Wait(
                match get(args, "seconds") {
                    Some(v) => copy(v),
                    None => null(),
                },
            ),
        );
    }
    if same_text(name, "shell") || same_text(name, "shell_bg") || same_text(name, "read_shell") {
        if !has_shell {
            return Some(LocalTool::Reply(NO_SHELL.to_owned()));
        }
        if same_text(name, "shell") {
            return Some(LocalTool::Shell(text_arg_or_empty(args, "command")));
        }
        if same_text(name, "shell_bg") {
            return Some(LocalTool::ShellBg(text_arg_or_empty(args, "command")));
        }
        return Some(LocalTool::ReadShell(lines_arg(args)));
    }
    if same_text(name, "browser_open") {
        let url: String = text_arg_or_empty(args, "url");
        if url.as_str().is_empty() {
            return Some(LocalTool::Reply("error: no url provided".to_owned()));
        }
        return Some(LocalTool::BrowserOpen(url));
    }
    if same_text(name, "browser_read") {
        return Some(LocalTool::BrowserRead);
    }
    if same_text(name, "browser_request_login") {
        return Some(LocalTool::RequestLogin(text_arg(args, "url")));
    }
    if same_text(name, "browser_save_login") {
        return Some(LocalTool::SaveLogin);
    }
    Some(LocalTool::Setup(mode_arg(args)))
}

/// What running a call of the model comes to; `None` where it is not for the
/// agent to run (and must be sent to the UI for pane access).
pub fn plan_local_call(call: &ToolCall, has_shell: bool) -> (r: Option<LocalTool>)
    ensures
        match r {
            Some(t) => agent::local_tool(call@.name) && t@ == local_plan(
                call@.name,
                args_json(call@.arguments),
                has_shell,
            ),
            None => !agent::local_tool(call@.name),
        },
{
    let args: Value = read_args(call.arguments.as_str());
    plan_local(call.name.as_str(), &args, has_shell)
}

/// How much of the text that a tool gave the model is told.
pub open spec fn told(t: LocalView, raw: Seq<char>) -> Seq<char> {
    match t {
        LocalView::ReadShell(_) => tools::truncated(raw, 1500),
        LocalView::BrowserOpen(_) | LocalView::BrowserRead => tools::truncated(raw, 2000),
        _ => raw,
    }
}

impl LocalTool {
    /// How much of the text that the tool gave the model is told.
    pub fn tell(&self, raw: &str) -> (r: String)
        ensures
            r@ == told(self@, raw@),
    {
        match self {
            LocalTool::ReadShell(_) => truncate_tokens(raw, 1500),
            LocalTool::BrowserOpen(_) => truncate_tokens(raw, 2000),
            LocalTool::BrowserRead => truncate_tokens(raw, 2000),
            _ => raw.to_owned(),
        }
    }
}

/// What the model is told of a command that was started in the background.
pub fn background_reply(command: &str) -> (r: String)
    ensures
        r@ == "started in background: "@ + command@
            + "\n(use wait + read_shell to monitor)"@,
{
    let mut r: String = "started in background: ".to_owned();
    r.append(command);
    r.append("\n(use wait + read_shell to monitor)");
    r
}

/// What the model is told of a change of the browser's mode.
pub fn setup_reply(outcome: Result<String, String>) -> (r: String)
    ensures
        r@ == (match outcome {
            Ok(msg) => msg@,
            Err(e) => "failed: "@ + e@,
        }),
{
    match outcome {
        Ok(msg) => msg,
        Err(e) => {
            let mut r: String = "failed: ".to_owned();
            r.append(e.as_str());
            r
        },
    }
}

/// A tool that the agent runs itself does what the call says: the command as it
/// is, the address as it is, and as many lines as asked within one and four
/// hundred; a call without an address is refused, and without a shell nothing is
/// run in it.
pub proof fn law_local_calls_do_what_they_say(args: Json, said: Seq<char>, n: u64)
    ensures
        json::member(args, "command"@) == Some(Json::Text(said)) ==> {
            &&& local_plan("shell"@, args, true) == LocalView::Shell(said)
            &&& local_plan("shell_bg"@, args, true) == LocalView::ShellBg(said)
        },
        json::member(args, "url"@) == Some(Json::Text(said)) ==> {
            &&& said.len() > 0 ==> local_plan("browser_open"@, args, true)
                == LocalView::BrowserOpen(said)
            &&& said.len() == 0 ==> local_plan("browser_open"@, args, true) is Reply
            &&& local_plan("browser_request_login"@, args, true) == LocalView::RequestLogin(
                Some(said),
            )
        },
        json::member(args, "lines"@) == Some(Json::Number(json::JsonNumber::Natural(n))) && 1 <= n
            <= 400 ==> local_plan("read_shell"@, args, true) == LocalView::ReadShell(n as int),
        json::member(args, "lines"@) is None ==> local_plan("read_shell"@, args, true)
            == LocalView::ReadShell(80),
        local_plan("read_shell"@, args, true) matches LocalView::ReadShell(k) && 1 <= k <= 400,
        json::member(args, "seconds"@) matches Some(j) ==> local_plan("wait"@, args, true)
            == LocalView::Wait(j),
        json::member(args, "mode"@) == Some(Json::Text("off"@)) ==> local_plan(
            "browser_setup"@,
            args,
            true,
        ) == LocalView::Setup(BrowserMode::Off),
        json::member(args, "mode"@) == Some(Json::Text("on"@)) ==> local_plan(
            "browser_setup"@,
            args,
            true,
        ) == LocalView::Setup(BrowserMode::Shared),
        local_plan("browser_read"@, args, true) is BrowserRead,
        local_plan("browser_save_login"@, args, true) is SaveLogin,
        local_plan("shell"@, args, false) is Reply,
        local_plan("shell_bg"@, args, false) is Reply,
        local_plan("read_shell"@, args, false) is Reply,
{
    reveal_strlit("shell");
    reveal_strlit("shell_bg");
    reveal_strlit("read_shell");
    reveal_strlit("wait");
    reveal_strlit("browser_open");
    reveal_strlit("browser_read");
    reveal_strlit("browser_request_login");
    reveal_strlit("browser_save_login");
    reveal_strlit("browser_setup");
    reveal_strlit("on");
    reveal_strlit("off");
    assert("shell"@.len() == 5 && "shell_bg"@.len() == 8 && "read_shell"@.len() == 10
        && "wait"@.len() == 4 && "browser_open"@.len() == 12 && "browser_read"@.len() == 12
        && "browser_request_login"@.len() == 21 && "browser_save_login"@.len() == 18
        && "browser_setup"@.len() == 13 && "on"@.len() == 2 && "off"@.len() == 3);
    assert("browser_open"@[8] == 'o' && "browser_read"@[8] == 'r');
}

/// What a tool gave is told to the model whole, as long as it is not too long.
pub proof fn law_results_are_told_whole(t: LocalView, raw: Seq<char>)
    requires
        raw.len() <= 6000,
    ensures
        told(t, raw) == raw,
{
}

/// The line that is typed runs the command as it is, between its two marks; and
/// commands begun at different times have different marks.
pub proof fn law_commands_are_typed_whole(n: nat, m: nat, command: Seq<char>)
    ensures
        text::has_text(command_line(n, command), command),
        text::has_text(command_line(n, command), begin_mark(n)),
        text::has_text(command_line(n, command), end_mark(n)),
        command_line(n, command).last() == '\n',
        n != m ==> marker(n) != marker(m),
        begin_mark(n) != end_mark(n),
{
    reveal_strlit("$?\n");
    reveal_strlit("BEGIN");
    reveal_strlit("END");
    let line = command_line(n, command);
    let a = "echo "@ + begin_mark(n) + "; "@;
    let b = "; echo "@ + end_mark(n) + "$?\n"@;
    text::law_text_is_found(a, command, b);
    assert(line =~= a + command + b);
    text::law_text_is_found("echo "@, begin_mark(n), "; "@ + command + b);
    assert(line =~= "echo "@ + begin_mark(n) + ("; "@ + command + b));
    text::law_text_is_found(a + command + "; echo "@, end_mark(n), "$?\n"@);
    assert(line =~= a + command + "; echo "@ + end_mark(n) + "$?\n"@);
    text::law_numbers_are_read_back(n, m, 0);
    let k = "__GT_"@.len() as int;
    let z = "__"@.len() as int;
    assert(marker(n).subrange(k, marker(n).len() - z) =~= text::decimal(n));
    assert(marker(m).subrange(k, marker(m).len() - z) =~= text::decimal(m));
    assert(begin_mark(n).len() == marker(n).len() + 5);
    assert(end_mark(n).len() == marker(n).len() + 3);
}

/// An argument is the member that a call has under that key, whatever else it
/// has; a text is taken as it is, and nothing else is taken for a text.
pub proof fn law_arguments_are_found(
    m: Map<Seq<char>, Json>,
    key: Seq<char>,
    other: Seq<char>,
    value: Json,
    said: Seq<char>,
)
    ensures
        arg(Json::Object(m.insert(key, value)), key) == value,
        key != other ==> arg(Json::Object(m.insert(other, value)), key) == arg(
            Json::Object(m),
            key,
        ),
        arg(Json::Object(m.remove(key)), key) == Json::Null,
        arg(Json::Text(said), key) == Json::Null,
        arg_text(Json::Object(m.insert(key, Json::Text(said))), key) == Some(said),
        !(value is Text) ==> arg_text(Json::Object(m.insert(key, value)), key) is None,
        arg_or_empty(Json::Object(m.insert(key, Json::Text(said))), key) == said,
        !(value is Text) ==> arg_or_empty(Json::Object(m.insert(key, value)), key).len() == 0,
        arg_or_empty(Json::Object(m.remove(key)), key).len() == 0,
        json::parsed(said) matches Some(j) ==> args_json(said) == j,
        json::parsed(said) is None ==> args_json(said) == Json::Null,
{
}

/// How many lines a call wants: the number that it gives, but one where that is
/// less and four hundred where it is more, and eighty where it gives none.
pub proof fn law_lines_are_bounded(m: Map<Seq<char>, Json>, n: u64, k: i64, other: Json)
    requires
        n <= i64::MAX,
        k < 0,
        json::int_of(other) is None,
    ensures
        ({
            let wanted = |j: Json| lines_wanted(Json::Object(m.insert("lines"@, j)));
            let natural = Json::Number(json::JsonNumber::Natural(n));
            &&& 1 <= n <= 400 ==> wanted(natural) == n
            &&& n == 0 ==> wanted(natural) == 1
            &&& n > 400 ==> wanted(natural) == 400
            &&& wanted(Json::Number(json::JsonNumber::Negative(k))) == 1
            &&& wanted(other) == 80
        }),
        lines_wanted(Json::Object(m.remove("lines"@))) == 80,
{
}

/// What a tool gave is told to the model whole up to a length that goes by the
/// tool: commands and replies whatever their length is, the shell's screen up to
/// six thousand characters and a page up to eight thousand. What is longer loses
/// its middle, and the model is told how much that is.
pub proof fn law_results_are_cut_by_their_tool(
    raw: Seq<char>,
    n: int,
    url: Seq<char>,
    command: Seq<char>,
)
    ensures
        told(LocalView::Shell(command), raw) == raw,
        told(LocalView::ShellBg(command), raw) == raw,
        told(LocalView::Reply(command), raw) == raw,
        raw.len() <= 6000 ==> told(LocalView::ReadShell(n), raw) == raw,
        raw.len() <= 8000 ==> told(LocalView::BrowserOpen(url), raw) == raw,
        raw.len() <= 8000 ==> told(LocalView::BrowserRead, raw) == raw,
        raw.len() > 6000 ==> {
            let cut = told(LocalView::ReadShell(n), raw);
            &&& cut.take(1500) == raw.take(1500)
            &&& cut.skip(cut.len() - 4500) == raw.skip(raw.len() - 4500)
            &&& text::has_text(cut, text::decimal((raw.len() - 6000) as nat))
        },
        raw.len() > 8000 ==> {
            let cut = told(LocalView::BrowserOpen(url), raw);
            &&& cut == told(LocalView::BrowserRead, raw)
            &&& cut.take(2000) == raw.take(2000)
            &&& cut.skip(cut.len() - 6000) == raw.skip(raw.len() - 6000)
            &&& text::has_text(cut, text::decimal((raw.len() - 8000) as nat))
        },
{
    if raw.len() > 6000 {
        lemma_cut(raw, 1500);
    }
    if raw.len() > 8000 {
        lemma_cut(raw, 2000);
    }
}

proof fn lemma_cut(s: Seq<char>, max_tokens: nat)
    requires
        s.len() > max_tokens * 4,
    ensures
        ({
            let cut = tools::truncated(s, max_tokens as int);
            &&& cut.take(max_tokens as int) == s.take(max_tokens as int)
            &&& cut.skip(cut.len() - 3 * max_tokens) == s.skip(s.len() - 3 * max_tokens)
            &&& text::has_text(cut, text::decimal((s.len() - 4 * max_tokens) as nat))
        }),
{
    tools::law_cut_texts_fit(s, max_tokens);
    tools::law_cut_texts_keep_their_ends(s, max_tokens);
    let cut = tools::truncated(s, max_tokens as int);
    let head = tools::first_chars(s, max_tokens as int);
    let tail = tools::last_chars(s, 3 * max_tokens as int);
    let number = text::decimal((s.len() - 4 * max_tokens) as nat);
    assert(cut.take(max_tokens as int) =~= s.take(max_tokens as int));
    assert(s.skip(s.len() - 3 * max_tokens) =~= tail);
    assert(cut.skip(cut.len() - 3 * max_tokens) =~= tail);
    text::law_text_is_found(head + "\n\n... ["@, number, " chars truncated] ...\n\n"@ + tail);
    assert(cut =~= head + "\n\n... ["@ + number + (" chars truncated] ...\n\n"@ + tail));
}

} // verus!
