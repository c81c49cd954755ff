//! The browser that the agents share: where its files are, how agents are told
//! of it in their settings without disturbing those, and how its broker is
//! spoken to.

use serde_json::Value;
use vstd::prelude::*;

use crate::ai::client;
use crate::ai::shell;
use crate::ai::shell::text_arg;
use crate::json;
use crate::json::{
    add_item, array, as_items, as_natural, as_text, as_truth, compact, get, insert, is_object, object, parse,
    pretty, remove, string, Json,
};
use crate::text;
use crate::text::{from_chars, push_decimal, same_text, split_lines, stands_at, to_chars, trimmed};

verus! {

/// Browser access mode for the coding agents in the panes.
#[derive(Clone, Copy, Debug, PartialEq, Eq, Structural)]
pub enum BrowserMode {
    /// One shared persistent browser, brokered so that every agent gets its own
    /// tab in it. Logins are shared across panes; tabs are isolated.
    Shared,
    /// No browser server configured.
    Off,
}

// ---- where things are -------------------------------------------------------

/// The path of the file `name` in the directory `dir`.
pub open spec fn joined(dir: Seq<char>, name: Seq<char>) -> Seq<char> {
    if dir.len() == 0 || dir.last() == '/' {
        dir + name
    } else {
        dir.push('/') + name
    }
}

/// The path of the file `name` in the directory `dir`.
pub fn join_path(dir: &str, name: &str) -> (r: String)
    ensures
        r@ == joined(dir@, name@),
{
    let v: Vec<char> = to_chars(dir);
    let n: usize = v.len();
    let mut r: String = dir.to_owned();
    if n > 0 && v[n - 1] != '/' {
        r.push('/');
    }
    r.append(name);
    r
}

/// The directory of the user, where the environment names one.
pub open spec fn home(var: Option<Seq<char>>) -> Seq<char> {
    match var {
        Some(h) => h,
        None => "/tmp"@,
    }
}

/// The directory of the user.
pub fn home_dir(var: Option<String>) -> (r: String)
    ensures
        r@ == home(client::opt_view(var)),
{
    match var {
        Some(h) => h,
        None => "/tmp".to_owned(),
    }
}

/// The directory of this program's own files.
pub open spec fn own_dir(home: Seq<char>) -> Seq<char> {
    joined(home, ".gridterm"@)
}

/// The directory of this program's own files.
pub fn gt_dir(home: &str) -> (r: String)
    ensures
        r@ == own_dir(home@),
{
    join_path(home, ".gridterm")
}

/// Where the broker is installed: where the environment says, or in this
/// program's own directory.
pub fn broker_dir(var: Option<String>, home: &str) -> (r: String)
    ensures
        r@ == (match var {
            Some(d) => d@,
            None => joined(own_dir(home@), "broker"@),
        }),
{
    match var {
        Some(d) => d,
        None => join_path(gt_dir(home).as_str(), "broker"),
    }
}

/// The socket of the broker.
pub fn broker_sock(home: &str) -> (r: String)
    ensures
        r@ == joined(own_dir(home@), "browser-broker.sock"@),
{
    join_path(gt_dir(home).as_str(), "browser-broker.sock")
}

/// The name of the program that connects an agent with the broker.
pub const SHIM: &'static str = "gridterm-browser-shim";

/// Path to the program that agents are told to run: the one beside the running
/// program, where there is one, or the one in this program's own directory.
pub fn shim_path(sibling: Option<String>, home: &str) -> (r: String)
    ensures
        r@ == (match sibling {
            Some(p) => p@,
            None => joined(own_dir(home@), SHIM@),
        }),
{
    match sibling {
        Some(p) => p,
        None => join_path(gt_dir(home).as_str(), SHIM),
    }
}

/// The file in which the agent program `agent` keeps the servers of its user.
pub fn user_claude_json(home: &str, agent: &str) -> (r: String)
    ensures
        r@ == joined(home@, "."@ + agent@ + ".json"@),
{
    let mut name: String = ".".to_owned();
    name.append(agent);
    name.append(".json");
    join_path(home, name.as_str())
}

/// The directory in which the agent program `agent` keeps settings of its user.
pub fn user_settings_dir(home: &str, agent: &str) -> (r: String)
    ensures
        r@ == joined(home@, "."@ + agent@),
{
    let mut name: String = ".".to_owned();
    name.append(agent);
    join_path(home, name.as_str())
}

/// The file in that directory that has the settings.
pub fn user_settings_file(home: &str, agent: &str) -> (r: String)
    ensures
        r@ == joined(joined(home@, "."@ + agent@), "settings.json"@),
{
    join_path(user_settings_dir(home, agent).as_str(), "settings.json")
}

/// The agent program whose file of servers has the name `file` in the directory
/// of the user, if that is such a name.
pub open spec fn agent_named(file: Seq<char>) -> Option<Seq<char>> {
    if file.len() > 1 + ".json"@.len() && file[0] == '.' && text::ends_with(file, ".json"@) {
        Some(file.subrange(1, file.len() - ".json"@.len()))
    } else {
        None
    }
}

/// The agent program whose file of servers has the name `file` in the directory
/// of the user, if that is such a name.
pub fn agent_of(file: &str) -> (r: Option<String>)
    ensures
        client::opt_view(r) == agent_named(file@),
{
    let v: Vec<char> = to_chars(file);
    let tail: Vec<char> = to_chars(".json");
    let n: usize = v.len();
    let k: usize = tail.len();
    if n > k && n - k > 1 && v[0] == '.' && stands_at(&v, &tail, n - k) {
        Some(from_chars(&v, 1, n - k))
    } else {
        None
    }
}

/// Whether a file of servers and a file of settings, where there is one, are
/// those of an agent program: the first has a list of servers, or both hold
/// settings.
pub open spec fn of_an_agent(servers: Option<Json>, settings: Option<Json>) -> bool {
    servers matches Some(j) && j is Object && ((json::member(j, "mcpServers"@) matches Some(list)
        && list is Object) || (settings matches Some(k) && k is Object))
}

/// The document that a file holds, if it is there and holds one.
pub open spec fn held_in(content: Option<Seq<char>>) -> Option<Json> {
    match content {
        Some(s) => json::parsed(s),
        None => None,
    }
}

/// Whether a file of servers and a file of settings are those of an agent
/// program.
pub fn is_agent(servers: Option<String>, settings: Option<String>) -> (r: bool)
    ensures
        r == of_an_agent(held_in(client::opt_view(servers)), held_in(client::opt_view(settings))),
{
    let root: Value = match servers {
        Some(s) => match parse(s.as_str()) {
            Ok(v) => v,
            Err(_) => {
                return false;
            },
        },
        None => {
            return false;
        },
    };
    if !is_object(&root) {
        return false;
    }
    if let Some(list) = get(&root, "mcpServers") {
        if is_object(list) {
            return true;
        }
    }
    match settings {
        Some(s) => match parse(s.as_str()) {
            Ok(v) => is_object(&v),
            Err(_) => false,
        },
        None => false,
    }
}

/// An agent program is found by the name of its file of servers.
pub proof fn law_agents_are_found_by_their_files(agent: Seq<char>)
    requires
        agent.len() > 0,
    ensures
        agent_named("."@ + agent + ".json"@) == Some(agent),
{
    reveal_strlit(".");
    reveal_strlit(".json");
    let file = "."@ + agent + ".json"@;
    assert(file.subrange(file.len() - ".json"@.len(), file.len() as int) =~= ".json"@);
    assert(file.subrange(1, file.len() - ".json"@.len()) =~= agent);
}

// ---- the entry that agents are given ----------------------------------------

/// A text in which each single quote is written so that it ends a quotation,
/// stands for itself, and begins another.
pub open spec fn escaped(s: Seq<char>) -> Seq<char>
    decreases s.len(),
{
    if s.len() == 0 {
        seq![]
    } else {
        escaped(s.drop_last()) + (if s.last() == '\'' {
            seq!['\'', '\\', '\'', '\'']
        } else {
            seq![s.last()]
        })
    }
}

/// A text as one word of a shell line.
pub open spec fn quoted(s: Seq<char>) -> Seq<char> {
    seq!['\''] + escaped(s) + seq!['\'']
}

/// Quotes a text so that a shell reads it as one word.
pub fn shell_quote(s: &str) -> (r: String)
    ensures
        r@ == quoted(s@),
{
    let v: Vec<char> = to_chars(s);
    let n: usize = v.len();
    let mut r: String = String::new();
    r.push('\'');
    let mut i: usize = 0;
    assert(r@ =~= seq!['\''] + escaped(v@.take(0)));
    while i < n
        invariant
            i <= n,
            n == v.len(),
            r@ == seq!['\''] + escaped(v@.take(i as int)),
        decreases n - i,
    {
        proof {
            assert(v@.take(i + 1).drop_last() =~= v@.take(i as int));
        }
        if v[i] == '\'' {
            r.push('\'');
            r.push('\\');
            r.push('\'');
            r.push('\'');
        } else {
            r.push(v[i]);
        }
        assert(r@ =~= seq!['\''] + escaped(v@.take(i + 1)));
        i = i + 1;
    }
    r.push('\'');
    assert(v@.take(n as int) =~= v@);
    assert(r@ =~= quoted(s@));
    r
}

/// What a shell is at while it reads a word: outside quotes, inside single
/// quotes, behind a backslash, or behind the end of the word.
pub enum ShellReader {
    Bare,
    Quoted,
    Escape,
    Ended,
}

/// Whether a character that stands outside quotes does not belong to the word
/// before it, or stands for something else than itself.
pub open spec fn ends_word(c: char) -> bool {
    ||| text::is_white(c)
    ||| c == ';' || c == '&' || c == '|' || c == '<' || c == '>' || c == '(' || c == ')'
    ||| c == '$' || c == '`' || c == '"' || c == '*' || c == '?' || c == '[' || c == '#'
    ||| c == '~' || c == '{' || c == '}' || c == '!' || c == '='
}

/// What a shell has read once it has come to the end of `q`: the word at its
/// beginning as far as it has come, and what it is at.
pub open spec fn shell_reads(q: Seq<char>) -> (Seq<char>, ShellReader)
    decreases q.len(),
{
    if q.len() == 0 {
        (seq![], ShellReader::Bare)
    } else {
        let (word, at) = shell_reads(q.drop_last());
        let c = q.last();
        match at {
            ShellReader::Bare => if c == '\'' {
                (word, ShellReader::Quoted)
            } else if c == '\\' {
                (word, ShellReader::Escape)
            } else if ends_word(c) {
                (word, ShellReader::Ended)
            } else {
                (word.push(c), ShellReader::Bare)
            },
            ShellReader::Quoted => if c == '\'' {
                (word, ShellReader::Bare)
            } else {
                (word.push(c), ShellReader::Quoted)
            },
            ShellReader::Escape => (word.push(c), ShellReader::Bare),
            ShellReader::Ended => (word, ShellReader::Ended),
        }
    }
}

proof fn lemma_shell_reads(s: Seq<char>)
    ensures
        shell_reads(seq!['\''] + escaped(s)) == (s, ShellReader::Quoted),
    decreases s.len(),
{
    let open = seq!['\''];
    if s.len() == 0 {
        assert(open + escaped(s) =~= open);
        assert(open.drop_last() =~= seq![]);
        assert(shell_reads(open.drop_last()) == (Seq::<char>::empty(), ShellReader::Bare));
        assert(shell_reads(open).0 =~= s);
    } else {
        lemma_shell_reads(s.drop_last());
        let q = open + escaped(s.drop_last());
        if s.last() == '\'' {
            let q1 = q.push('\'');
            let q2 = q1.push('\\');
            let q3 = q2.push('\'');
            let q4 = q3.push('\'');
            assert(open + escaped(s) =~= q4);
            assert(q4.drop_last() =~= q3);
            assert(q3.drop_last() =~= q2);
            assert(q2.drop_last() =~= q1);
            assert(q1.drop_last() =~= q);
            assert(shell_reads(q1) == (s.drop_last(), ShellReader::Bare));
            assert(shell_reads(q2) == (s.drop_last(), ShellReader::Escape));
            assert(shell_reads(q3) == (s.drop_last().push('\''), ShellReader::Bare));
            assert(s.drop_last().push('\'') =~= s);
        } else {
            assert(open + escaped(s) =~= q.push(s.last()));
            assert(q.push(s.last()).drop_last() =~= q);
            assert(s.drop_last().push(s.last()) =~= s);
        }
    }
}

proof fn lemma_word_ended(q: Seq<char>, rest: Seq<char>)
    requires
        shell_reads(q).1 is Ended,
    ensures
        shell_reads(q + rest) == shell_reads(q),
    decreases rest.len(),
{
    if rest.len() == 0 {
        assert(q + rest =~= q);
    } else {
        lemma_word_ended(q, rest.drop_last());
        assert((q + rest).drop_last() =~= q + rest.drop_last());
    }
}

/// A shell reads a quoted text as one word, which is that text, whatever
/// characters it has: the word goes on to the end of the quoted text, and ends
/// there where a blank and anything else comes behind.
pub proof fn law_quoted_text_is_read_back(s: Seq<char>, rest: Seq<char>)
    ensures
        shell_reads(quoted(s)) == (s, ShellReader::Bare),
        shell_reads(quoted(s).push(' ') + rest) == (s, ShellReader::Ended),
{
    lemma_shell_reads(s);
    assert(quoted(s).drop_last() =~= seq!['\''] + escaped(s));
    assert(shell_reads(quoted(s)) == (s, ShellReader::Bare));
    assert(quoted(s).push(' ').drop_last() =~= quoted(s));
    assert(ends_word(' '));
    assert(shell_reads(quoted(s).push(' ')) == (s, ShellReader::Ended));
    lemma_word_ended(quoted(s).push(' '), rest);
}

/// A shell line that starts the broker in `dir`.
pub open spec fn bootstrap(dir: Seq<char>) -> Seq<char> {
    "cd "@ + quoted(dir) + " >/dev/null 2>&1 && nohup node broker.mjs >/dev/null 2>&1 &"@
}

/// A shell line that starts the broker detached.
pub fn broker_bootstrap_cmd(dir: &str) -> (r: String)
    ensures
        r@ == bootstrap(dir@),
{
    let mut r: String = "cd ".to_owned();
    r.append(shell_quote(dir).as_str());
    r.append(" >/dev/null 2>&1 && nohup node broker.mjs >/dev/null 2>&1 &");
    r
}

/// The entry of the browser's server in an agent's settings: the program to
/// run, and how that may start the broker.
pub open spec fn entry_json(shim: Seq<char>, dir: Seq<char>) -> Json {
    Json::Object(
        Map::<Seq<char>, Json>::empty().insert("command"@, Json::Text(shim)).insert(
            "args"@,
            Json::Array(seq![]),
        ).insert(
            "env"@,
            Json::Object(
                Map::<Seq<char>, Json>::empty().insert(
                    "GRIDTERM_BROKER_CMD"@,
                    Json::Text(bootstrap(dir)),
                ),
            ),
        ),
    )
}

/// The entry of the browser's server in an agent's settings.
pub fn shim_server_entry(shim: &str, dir: &str) -> (r: Value)
    ensures
        json::json_of(r) == entry_json(shim@, dir@),
{
    let mut env: Value = object();
    insert(&mut env, "GRIDTERM_BROKER_CMD", string(broker_bootstrap_cmd(dir).as_str()));
    let none: Vec<Value> = Vec::new();
    assert(none@.map_values(|x: Value| json::json_of(x)) =~= seq![]);
    let mut r: Value = object();
    insert(&mut r, "command", string(shim));
    insert(&mut r, "args", array(none));
    insert(&mut r, "env", env);
    r
}

// ---- settings of agents (merged without loss) -------------------------------

/// The document that a settings file holds: an empty object where there is no
/// file, or none that can be read.
pub open spec fn root_of(content: Option<Seq<char>>) -> Json {
    match content {
        Some(s) => match json::parsed(s) {
            Some(j) => j,
            None => Json::Object(Map::empty()),
        },
        None => Json::Object(Map::empty()),
    }
}

fn read_root(content: Option<String>) -> (r: Value)
    ensures
        json::json_of(r) == root_of(client::opt_view(content)),
{
    match content {
        Some(s) => match parse(s.as_str()) {
            Ok(v) => v,
            Err(_) => object(),
        },
        None => object(),
    }
}

/// What an agent's settings call all tools of the browser's server.
pub const APPROVED: &'static str = "mcp__playwright";

/// What agents call the browser's server.
pub const SERVER: &'static str = "playwright";

/// A list of allowed tools with those of the browser: behind the others, where
/// they are not there yet.
pub open spec fn allowing(allow: Option<Json>) -> Seq<Json> {
    match allow {
        Some(Json::Array(a)) => if a.contains(Json::Text(APPROVED@)) {
            a
        } else {
            a.push(Json::Text(APPROVED@))
        },
        _ => seq![Json::Text(APPROVED@)],
    }
}

/// Settings in which the tools of the browser are allowed.
pub open spec fn with_approval(root: Map<Seq<char>, Json>) -> Map<Seq<char>, Json> {
    let perms = match json::member(Json::Object(root), "permissions"@) {
        Some(Json::Object(m)) => m,
        _ => Map::empty(),
    };
    root.insert(
        "permissions"@,
        Json::Object(
            perms.insert(
                "allow"@,
                Json::Array(allowing(json::member(Json::Object(perms), "allow"@))),
            ),
        ),
    )
}

fn text_among(items: &Vec<Value>, s: &str) -> (r: bool)
    ensures
        r == items@.map_values(|x: Value| json::json_of(x)).contains(Json::Text(s@)),
{
    let n: usize = items.len();
    let ghost all = items@.map_values(|x: Value| json::json_of(x));
    let mut i: usize = 0;
    while i < n
        invariant
            i <= n,
            n == items.len(),
            all == items@.map_values(|x: Value| json::json_of(x)),
            forall|j: int| 0 <= j < i ==> #[trigger] all[j] != Json::Text(s@),
        decreases n - i,
    {
        assert(all[i as int] == json::json_of(items@[i as int]));
        if let Some(t) = as_text(&items[i]) {
            if same_text(t, s) {
                return true;
            }
        }
        i = i + 1;
    }
    false
}

/// The settings `root` with the tools of the browser allowed, so that an agent
/// never stops to ask for them.
pub fn approve(root: Value) -> (r: Value)
    ensures
        json::json_of(r) == Json::Object(with_approval(json::members(json::json_of(root)))),
{
    let mut root: Value = if is_object(&root) {
        root
    } else {
        object()
    };
    let ghost m = json::members(json::json_of(root));
    let mut perms: Value = match remove(&mut root, "permissions") {
        Some(p) => if is_object(&p) {
            p
        } else {
            object()
        },
        None => object(),
    };
    let ghost pm = json::members(json::json_of(perms));
    let allow: Value = match remove(&mut perms, "allow") {
        Some(a) => {
            let (is_list, there): (bool, bool) = match as_items(&a) {
                Some(items) => (true, text_among(items, APPROVED)),
                None => (false, false),
            };
            if is_list {
                let mut a: Value = a;
                if !there {
                    add_item(&mut a, string(APPROVED));
                }
                a
            } else {
                only_item(APPROVED)
            }
        },
        None => only_item(APPROVED),
    };
    assert(json::json_of(allow) == Json::Array(
        allowing(json::member(Json::Object(pm), "allow"@)),
    ));
    insert(&mut perms, "allow", allow);
    insert(&mut root, "permissions", perms);
    proof {
        assert(json::members(json::json_of(perms)) =~= pm.insert(
            "allow"@,
            json::json_of(allow),
        ));
        assert(json::members(json::json_of(root)) =~= with_approval(m));
    }
    root
}

fn only_item(s: &str) -> (r: Value)
    ensures
        json::json_of(r) == Json::Array(seq![Json::Text(s@)]),
{
    let items: Vec<Value> = vec![string(s)];
    assert(items@.map_values(|x: Value| json::json_of(x)) =~= seq![Json::Text(s@)]);
    array(items)
}

/// What a file of settings is to hold so that agents are allowed the tools of
/// the browser, given what it holds now.
pub fn ensure_user_autoapprove(content: Option<String>) -> (r: String)
    ensures
        ({
            let told = Json::Object(
                with_approval(json::members(root_of(client::opt_view(content)))),
            );
            &&& r@ == json::pretty_text(told)
            &&& json::plain(told, json::MAX_DEPTH as nat) ==> json::parsed(r@) == Some(told)
        }),
{
    let root: Value = read_root(content);
    pretty(&approve(root))
}

/// Settings in which agents are told of the browser's server, with the given
/// entry. Where the list of servers is no object, it is left alone.
pub open spec fn with_server(root: Map<Seq<char>, Json>, entry: Json) -> Map<Seq<char>, Json> {
    match json::member(Json::Object(root), "mcpServers"@) {
        None => root.insert(
            "mcpServers"@,
            Json::Object(Map::<Seq<char>, Json>::empty().insert(SERVER@, entry)),
        ),
        Some(Json::Object(m)) => root.insert(
            "mcpServers"@,
            Json::Object(m.insert(SERVER@, entry)),
        ),
        Some(_) => root,
    }
}

/// The settings `root` with the browser's server in them.
pub fn add_server(root: Value, entry: Value) -> (r: Value)
    ensures
        json::json_of(r) == Json::Object(
            with_server(json::members(json::json_of(root)), json::json_of(entry)),
        ),
{
    let mut root: Value = if is_object(&root) {
        root
    } else {
        object()
    };
    let ghost m = json::members(json::json_of(root));
    match remove(&mut root, "mcpServers") {
        Some(s) => {
            let mut servers: Value = s;
            if is_object(&servers) {
                insert(&mut servers, SERVER, entry);
            }
            insert(&mut root, "mcpServers", servers);
        },
        None => {
            let mut servers: Value = object();
            insert(&mut servers, SERVER, entry);
            insert(&mut root, "mcpServers", servers);
        },
    }
    assert(json::members(json::json_of(root)) =~= with_server(m, json::json_of(entry)));
    root
}

/// What an agent's file of servers is to hold so that agents are told of the
/// browser's server, given what it holds now.
pub fn write_user_mcp_server(content: Option<String>, entry: Value) -> (r: String)
    ensures
        ({
            let told = Json::Object(
                with_server(
                    json::members(root_of(client::opt_view(content))),
                    json::json_of(entry),
                ),
            );
            &&& r@ == json::pretty_text(told)
            &&& json::plain(told, json::MAX_DEPTH as nat) ==> json::parsed(r@) == Some(told)
        }),
{
    let root: Value = read_root(content);
    pretty(&add_server(root, entry))
}

/// The entry of the browser's server in settings.
pub open spec fn server_entry(root: Json) -> Option<Json> {
    json::member_of(json::member(root, "mcpServers"@), SERVER@)
}

/// Settings without the browser's server.
pub open spec fn without_server(root: Json) -> Json {
    match (root, json::member(root, "mcpServers"@)) {
        (Json::Object(m), Some(Json::Object(servers))) => Json::Object(
            m.insert("mcpServers"@, Json::Object(servers.remove(SERVER@))),
        ),
        _ => root,
    }
}

/// The settings `root` without the browser's server, and whether it was there.
pub fn remove_server(root: Value) -> (r: (Value, bool))
    ensures
        r.1 == (server_entry(json::json_of(root)) is Some),
        r.1 ==> json::json_of(r.0) == without_server(json::json_of(root)),
        !r.1 ==> json::json_of(r.0) == json::json_of(root),
{
    let mut root: Value = root;
    let ghost j = json::json_of(root);
    match remove(&mut root, "mcpServers") {
        Some(s) => {
            let mut servers: Value = s;
            let ghost sj = json::json_of(servers);
            let gone: bool = match remove(&mut servers, SERVER) {
                Some(_) => true,
                None => false,
            };
            insert(&mut root, "mcpServers", servers);
            proof {
                if !gone {
                    if let Json::Object(sm) = sj {
                        assert(sm.remove(SERVER@) =~= sm);
                    }
                    assert(json::members(json::json_of(root)) =~= json::members(j));
                } else {
                    assert(json::members(json::json_of(root)) =~= json::members(
                        without_server(j),
                    ));
                }
            }
            (root, gone)
        },
        None => {
            proof {
                if let Json::Object(m) = j {
                    assert(m.remove("mcpServers"@) =~= m);
                }
            }
            (root, false)
        },
    }
}

/// What an agent's file of servers is to hold so that agents are no longer told
/// of the browser's server, given what it holds now; `None` where they are not
/// told of it.
pub fn remove_browser_mcp(content: Option<String>) -> (r: Option<String>)
    ensures
        ({
            let root = match content {
                Some(s) => json::parsed(s@),
                None => None,
            };
            match r {
                Some(t) => {
                    &&& root is Some && server_entry(root->0) is Some
                    &&& t@ == json::pretty_text(without_server(root->0))
                    &&& json::plain(without_server(root->0), json::MAX_DEPTH as nat)
                        ==> json::parsed(t@) == Some(without_server(root->0))
                },
                None => root is None || server_entry(root->0) is None,
            }
        }),
{
    match content {
        Some(s) => match parse(s.as_str()) {
            Ok(v) => {
                let (rest, gone) = remove_server(v);
                if gone {
                    Some(pretty(&rest))
                } else {
                    None
                }
            },
            Err(_) => None,
        },
        None => None,
    }
}

/// What is to be done at the start for the browser's entry in settings.
#[derive(Clone, Copy, Debug, PartialEq, Eq, Structural)]
pub enum DefaultStep {
    /// The entry is this program's: see that the broker runs and its tools are
    /// allowed.
    Current,
    /// The entry is the user's own: leave it alone.
    Custom,
    /// There is no entry, or an outdated one of this program: write it.
    Write,
}

/// What the arguments of an outdated entry of this program contain.
pub const OLD_SERVER: &'static str = "@playwright/mcp@latest";

/// What is to be done for settings that hold the document `root`.
pub open spec fn default_step(root: Json) -> DefaultStep {
    match server_entry(root) {
        None => DefaultStep::Write,
        Some(entry) => if text::ends_with(shell::arg_or_empty(entry, "command"@), SHIM@) {
            DefaultStep::Current
        } else {
            match shell::arg(entry, "args"@) {
                Json::Array(a) => if a.contains(Json::Text(OLD_SERVER@)) {
                    DefaultStep::Write
                } else {
                    DefaultStep::Custom
                },
                _ => DefaultStep::Custom,
            }
        },
    }
}

/// What is to be done for the settings `root`.
pub fn default_step_of(root: &Value) -> (r: DefaultStep)
    ensures
        r == default_step(json::json_of(*root)),
{
    let entry: Option<&Value> = match get(root, "mcpServers") {
        Some(servers) => get(servers, SERVER),
        None => None,
    };
    match entry {
        None => DefaultStep::Write,
        Some(e) => {
            let command: Vec<char> = match text_arg(e, "command") {
                Some(c) => to_chars(c.as_str()),
                None => Vec::new(),
            };
            let shim: Vec<char> = to_chars(SHIM);
            assert(command@ =~= shell::arg_or_empty(json::json_of(*e), "command"@));
            if command.len() >= shim.len() && stands_at(
                &command,
                &shim,
                command.len() - shim.len(),
            ) {
                return DefaultStep::Current;
            }
            match get(e, "args") {
                Some(a) => match as_items(a) {
                    Some(items) => if text_among(items, OLD_SERVER) {
                        DefaultStep::Write
                    } else {
                        DefaultStep::Custom
                    },
                    None => DefaultStep::Custom,
                },
                None => DefaultStep::Custom,
            }
        },
    }
}

/// What is to be done at the start, given what an agent's file of servers holds.
pub fn ensure_default(content: Option<String>) -> (r: DefaultStep)
    ensures
        r == default_step(root_of(client::opt_view(content))),
{
    let root: Value = read_root(content);
    default_step_of(&root)
}

/// What the user is told of a mode that was set; where it is off, `removed`
/// says whether there was something to remove.
pub open spec fn mode_text(mode: BrowserMode, removed: bool) -> Seq<char> {
    match mode {
        BrowserMode::Off => if removed {
            "Browser access disabled."@
        } else {
            "Browser access was not configured."@
        },
        BrowserMode::Shared => READY@,
    }
}

/// What the user is told where agents have the browser.
pub const READY: &'static str =
    "Browser access ready: every panel agent gets its own tab in one shared Chrome \
that keeps your logins (sign in once, stays signed in like a normal browser). Works for agents \
started in ANY directory. If a site needs login, an agent surfaces the window for you to sign in \
once; all panels then share it.";

/// What setting a mode comes to.
pub struct ModeChange {
    /// What the agents' file of servers is to hold, where it changes.
    pub servers: Option<String>,
    /// What the agents' file of settings is to hold, where it changes.
    pub settings: Option<String>,
    /// What the user is told.
    pub message: String,
}

/// Sets a mode, given what the agents' files of servers and of settings hold
/// and the entry of the browser's server: where the browser is shared, agents
/// are told of its server and allowed its tools; where it is off, they are no
/// longer told of it. Nothing else in the files changes.
pub fn set_mode(
    mode: BrowserMode,
    servers: Option<String>,
    settings: Option<String>,
    entry: Value,
) -> (r: ModeChange)
    ensures
        match mode {
            BrowserMode::Off => {
                let root = match servers {
                    Some(s) => json::parsed(s@),
                    None => None,
                };
                let there = root is Some && server_entry(root->0) is Some;
                &&& r.settings is None
                &&& r.message@ == mode_text(mode, there)
                &&& client::opt_view(r.servers) == (if there {
                    Some(json::pretty_text(without_server(root->0)))
                } else {
                    None
                })
            },
            BrowserMode::Shared => {
                &&& client::opt_view(r.servers) == Some(
                    json::pretty_text(
                        Json::Object(
                            with_server(
                                json::members(root_of(client::opt_view(servers))),
                                json::json_of(entry),
                            ),
                        ),
                    ),
                )
                &&& client::opt_view(r.settings) == Some(
                    json::pretty_text(
                        Json::Object(
                            with_approval(json::members(root_of(client::opt_view(settings)))),
                        ),
                    ),
                )
                &&& r.message@ == mode_text(mode, false)
            },
        },
{
    match mode {
        BrowserMode::Off => {
            let left: Option<String> = remove_browser_mcp(servers);
            let message: String = if left.is_some() {
                "Browser access disabled.".to_owned()
            } else {
                "Browser access was not configured.".to_owned()
            };
            ModeChange { servers: left, settings: None, message }
        },
        BrowserMode::Shared => ModeChange {
            servers: Some(write_user_mcp_server(servers, entry)),
            settings: Some(ensure_user_autoapprove(settings)),
            message: READY.to_owned(),
        },
    }
}

// ---- the broker -------------------------------------------------------------

/// Whether a file of the broker is to be written: it is missing, or is not what
/// it should be.
pub fn outdated(existing: Option<String>, wanted: &str) -> (r: bool)
    ensures
        r == (client::opt_view(existing) != Some(wanted@)),
{
    match existing {
        Some(s) => !same_text(s.as_str(), wanted),
        None => true,
    }
}

/// The line that gives the broker a command. A reader of the line gets the
/// command back.
pub fn control_line(command: &Value) -> (r: String)
    ensures
        r@ == "CTL "@ + json::compact_text(json::json_of(*command)) + "\n"@,
        forall|i: int| 0 <= i < r@.len() - 1 ==> r@[i] != '\n',
        json::plain(json::json_of(*command), json::MAX_DEPTH as nat) ==> json::parsed(
            r@.subrange("CTL "@.len() as int, r@.len() - 1),
        ) == Some(json::json_of(*command)),
{
    let body: String = compact(command);
    let mut r: String = "CTL ".to_owned();
    r.append(body.as_str());
    r.append("\n");
    proof {
        reveal_strlit("CTL ");
        reveal_strlit("\n");
        assert(r@.subrange("CTL "@.len() as int, r@.len() - 1) =~= body@);
        assert forall|i: int| 0 <= i < r@.len() - 1 implies r@[i] != '\n' by {
            if i >= 4 {
                assert(r@[i] == body@[i - 4]);
                assert(body@.contains(body@[i - 4]));
            }
        }
    }
    r
}

/// The line of the broker's answer that counts: its first, without white space
/// around it.
pub open spec fn answer_line(answer: Seq<char>) -> Seq<char> {
    if text::lines(answer).len() > 0 {
        text::trim(text::lines(answer)[0])
    } else {
        seq![]
    }
}

/// What is said of an answer that is no JSON document.
pub fn bad_reply(error: &str, line: &str) -> (r: String)
    ensures
        r@ == "bad reply: "@ + error@ + ": "@ + line@,
{
    let mut r: String = "bad reply: ".to_owned();
    r.append(error);
    r.append(": ");
    r.append(line);
    r
}

/// Reads the broker's answer to a command.
pub fn control_reply(answer: &str) -> (r: Result<Value, String>)
    ensures
        match r {
            Ok(v) => json::parsed(answer_line(answer@)) == Some(json::json_of(v)),
            Err(m) => json::parsed(answer_line(answer@)) is None && m@ == "bad reply: "@
                + json::parse_error(answer_line(answer@)) + ": "@ + answer_line(answer@),
        },
{
    let lines: Vec<String> = split_lines(&to_chars(answer));
    let first: String = if lines.len() > 0 {
        trimmed(lines[0].as_str())
    } else {
        String::new()
    };
    proof {
        assert(lines.len() == text::views(lines@).len());
        if lines.len() > 0 {
            assert(text::views(lines@)[0] == lines@[0]@);
        }
        assert(first@ =~= answer_line(answer@));
    }
    match parse(first.as_str()) {
        Ok(v) => Ok(v),
        Err(e) => Err(bad_reply(e.as_str(), first.as_str())),
    }
}

/// A command for the broker, with the page that it is about, if any.
pub open spec fn command_json(name: Seq<char>, url: Option<Seq<char>>) -> Json {
    let m = Map::<Seq<char>, Json>::empty().insert("cmd"@, Json::Text(name));
    Json::Object(
        match url {
            Some(u) => m.insert("url"@, Json::Text(u)),
            None => m,
        },
    )
}

/// A command for the broker: `surface_login`, `cookie_count`, `hide`, `nav`,
/// `read` or `status`.
pub fn broker_command(name: &str, url: Option<&str>) -> (r: Value)
    ensures
        json::json_of(r) == command_json(
            name@,
            match url {
                Some(u) => Some(u@),
                None => None,
            },
        ),
        json::plain(json::json_of(r), json::MAX_DEPTH as nat),
{
    let mut r: Value = object();
    insert(&mut r, "cmd", string(name));
    if let Some(u) = url {
        insert(&mut r, "url", string(u));
    }
    proof {
        reveal_with_fuel(json::plain, 2);
    }
    r
}

/// Whether the broker did what it was told.
pub open spec fn succeeded(answer: Json) -> bool {
    json::bool_of(shell::arg(answer, "ok"@)) == Some(true)
}

fn has_succeeded(answer: &Value) -> (r: bool)
    ensures
        r == succeeded(json::json_of(*answer)),
{
    match get(answer, "ok") {
        Some(v) => match as_truth(v) {
            Some(b) => b,
            None => false,
        },
        None => false,
    }
}

/// What the model is told where the browser does not run yet.
pub const STARTING_FOR_LOGIN: &'static str =
    "The browser is still starting up (first run installs a small helper). \
Give it a few seconds and ask again.";

/// What the model is told where the browser does not run yet.
pub const STARTING: &'static str =
    "The browser is still starting (first run installs a small helper); try again in a few seconds.";

/// What the model is told where the browser does not run.
pub const NOT_OPEN: &'static str = "No browser is open yet. Open a URL first.";

/// What the model is told behind the page to sign in at.
pub const SIGN_IN: &'static str =
    ". Please sign in there. Because all panels \
share this one browser, you only need to log in once; every agent (and future runs) will \
stay signed in, just like your normal Chrome. Tell me when you're done.";

/// What the model is told behind the number of cookies.
pub const SIGNED_IN: &'static str =
    " cookies in the shared session). Every panel agent shares this \
one persistent Chrome, so your logins STAY signed in across runs, just like your normal \
browser. The agents can use those sites now.";

/// What the model is told of a window to sign in with.
pub open spec fn login_text(url: Option<Seq<char>>, answer: Result<Json, Seq<char>>) -> Seq<char> {
    match answer {
        Ok(v) => if succeeded(v) {
            "Opened a browser window at "@ + (match url {
                Some(u) => u,
                None => "the site you need"@,
            }) + SIGN_IN@
        } else {
            "couldn't surface the login window: "@ + json::compact_text(v)
        },
        Err(e) => "couldn't surface the login window: "@ + e,
    }
}

/// The broker's answer as a document, or what is said where there is none.
pub open spec fn answer_view(answer: Result<Value, String>) -> Result<Json, Seq<char>> {
    match answer {
        Ok(v) => Ok(json::json_of(v)),
        Err(e) => Err(e@),
    }
}

/// What the model is told of a window to sign in with. `answer` is what the
/// broker answered, where it runs.
pub fn surface_for_login(
    url: Option<&str>,
    answer: Option<Result<Value, String>>,
) -> (r: String)
    ensures
        r@ == (match answer {
            Some(a) => login_text(
                match url {
                    Some(u) => Some(u@),
                    None => None,
                },
                answer_view(a),
            ),
            None => STARTING_FOR_LOGIN@,
        }),
{
    match answer {
        None => STARTING_FOR_LOGIN.to_owned(),
        Some(Ok(v)) => if has_succeeded(&v) {
            let mut r: String = "Opened a browser window at ".to_owned();
            r.append(
                match url {
                    Some(u) => u,
                    None => "the site you need",
                },
            );
            r.append(SIGN_IN);
            r
        } else {
            let mut r: String = "couldn't surface the login window: ".to_owned();
            r.append(compact(&v).as_str());
            r
        },
        Some(Err(e)) => {
            let mut r: String = "couldn't surface the login window: ".to_owned();
            r.append(e.as_str());
            r
        },
    }
}

/// A number in the broker's answer; 0 where there is none.
pub open spec fn count_in(answer: Json, key: Seq<char>) -> u64 {
    match json::natural_of(shell::arg(answer, key)) {
        Some(n) => n,
        None => 0,
    }
}

fn number_in(answer: &Value, key: &str) -> (r: u64)
    ensures
        r == count_in(json::json_of(*answer), key@),
{
    match get(answer, key) {
        Some(v) => match as_natural(v) {
            Some(n) => n,
            None => 0,
        },
        None => 0,
    }
}

/// What the model is told of the session, once the user has signed in.
pub fn save_login_state(answer: Result<Value, String>) -> (r: String)
    ensures
        r@ == (match answer_view(answer) {
            Ok(v) => "You're signed in ("@ + text::decimal(count_in(v, "count"@) as nat)
                + SIGNED_IN@,
            Err(e) => "couldn't read the session: "@ + e,
        }),
{
    match answer {
        Ok(v) => {
            let mut r: String = "You're signed in (".to_owned();
            push_decimal(&mut r, number_in(&v, "count") as u128);
            r.append(SIGNED_IN);
            r
        },
        Err(e) => {
            let mut r: String = "couldn't read the session: ".to_owned();
            r.append(e.as_str());
            r
        },
    }
}

/// A text in the broker's answer, or another.
pub open spec fn text_in(answer: Json, key: Seq<char>, other: Seq<char>) -> Seq<char> {
    match shell::arg_text(answer, key) {
        Some(s) => s,
        None => other,
    }
}

fn text_or(answer: &Value, key: &str, other: &str) -> (r: String)
    ensures
        r@ == text_in(json::json_of(*answer), key@, other@),
{
    match text_arg(answer, key) {
        Some(s) => s,
        None => other.to_owned(),
    }
}

/// What the model is told of a page: where it is, its title and its text.
pub open spec fn page_text(answer: Json, url: Seq<char>) -> Seq<char> {
    text_in(answer, "url"@, url) + "\nTitle: "@ + text_in(answer, "title"@, ""@)
        + "\n\nPage text:\n"@ + text_in(answer, "text"@, ""@)
}

fn page_of(answer: &Value, url: &str) -> (r: String)
    ensures
        r@ == page_text(json::json_of(*answer), url@),
{
    let mut r: String = text_or(answer, "url", url);
    r.append("\nTitle: ");
    r.append(text_or(answer, "title", "").as_str());
    r.append("\n\nPage text:\n");
    r.append(text_or(answer, "text", "").as_str());
    r
}

/// What the model is told of a page that it opened.
pub open spec fn open_text(url: Seq<char>, answer: Result<Json, Seq<char>>) -> Seq<char> {
    match answer {
        Ok(v) => if succeeded(v) {
            "Opened "@ + page_text(v, url)
        } else {
            "couldn't open "@ + url + ": "@ + text_in(v, "error"@, "unknown error"@)
        },
        Err(e) => "couldn't open "@ + url + ": "@ + e,
    }
}

/// What the model is told of a page that it opened. `answer` is what the broker
/// answered, where it runs.
pub fn browser_open(url: &str, answer: Option<Result<Value, String>>) -> (r: String)
    ensures
        r@ == (match answer {
            Some(a) => open_text(url@, answer_view(a)),
            None => STARTING@,
        }),
{
    match answer {
        None => STARTING.to_owned(),
        Some(Ok(v)) => if has_succeeded(&v) {
            let mut r: String = "Opened ".to_owned();
            r.append(page_of(&v, url).as_str());
            r
        } else {
            let mut r: String = "couldn't open ".to_owned();
            r.append(url);
            r.append(": ");
            r.append(text_or(&v, "error", "unknown error").as_str());
            r
        },
        Some(Err(e)) => {
            let mut r: String = "couldn't open ".to_owned();
            r.append(url);
            r.append(": ");
            r.append(e.as_str());
            r
        },
    }
}

/// What the model is told of the page that is open.
pub open spec fn read_text(answer: Result<Json, Seq<char>>) -> Seq<char> {
    match answer {
        Ok(v) => if succeeded(v) {
            page_text(v, ""@)
        } else {
            "couldn't read the page: "@ + text_in(v, "error"@, "unknown error"@)
        },
        Err(e) => "couldn't read the page: "@ + e,
    }
}

/// What the model is told of the page that is open. `answer` is what the broker
/// answered, where it runs.
pub fn browser_read(answer: Option<Result<Value, String>>) -> (r: String)
    ensures
        r@ == (match answer {
            Some(a) => read_text(answer_view(a)),
            None => NOT_OPEN@,
        }),
{
    match answer {
        None => NOT_OPEN.to_owned(),
        Some(Ok(v)) => if has_succeeded(&v) {
            page_of(&v, "")
        } else {
            let mut r: String = "couldn't read the page: ".to_owned();
            r.append(text_or(&v, "error", "unknown error").as_str());
            r
        },
        Some(Err(e)) => {
            let mut r: String = "couldn't read the page: ".to_owned();
            r.append(e.as_str());
            r
        },
    }
}

/// How a truth value of the broker's answer is shown; a missing one is false.
pub open spec fn truth_text(answer: Json, key: Seq<char>) -> Seq<char> {
    if json::bool_of(shell::arg(answer, key)) == Some(true) {
        "true"@
    } else {
        "false"@
    }
}

fn truth_of(answer: &Value, key: &str) -> (r: &'static str)
    ensures
        r@ == truth_text(json::json_of(*answer), key@),
{
    let on: bool = match get(answer, key) {
        Some(v) => match as_truth(v) {
            Some(b) => b,
            None => false,
        },
        None => false,
    };
    if on {
        "true"
    } else {
        "false"
    }
}

/// The state of the broker, for the broker's answer.
pub open spec fn status_text(answer: Result<Json, Seq<char>>) -> Seq<char> {
    match answer {
        Ok(v) => "browser: identity="@ + truth_text(v, "identity"@) + " worker="@ + truth_text(
            v,
            "worker"@,
        ) + " pages="@ + text::decimal(count_in(v, "pages"@) as nat) + " clients="@
            + text::decimal(count_in(v, "clients"@) as nat),
        Err(_) => "browser broker: not running"@,
    }
}

/// Reports broker/browser status (for diagnostics / the main agent).
pub fn status_line(answer: Result<Value, String>) -> (r: String)
    ensures
        r@ == status_text(answer_view(answer)),
{
    match answer {
        Ok(v) => {
            let mut r: String = "browser: identity=".to_owned();
            r.append(truth_of(&v, "identity"));
            r.append(" worker=");
            r.append(truth_of(&v, "worker"));
            r.append(" pages=");
            push_decimal(&mut r, number_in(&v, "pages") as u128);
            r.append(" clients=");
            push_decimal(&mut r, number_in(&v, "clients") as u128);
            r
        },
        Err(_) => "browser broker: not running".to_owned(),
    }
}

// ---- what merging keeps -----------------------------------------------------

/// Allowing the tools of the browser keeps every other setting, every other
/// permission, and every tool that was allowed, in its order.
pub proof fn law_approval_is_nondestructive(root: Map<Seq<char>, Json>, key: Seq<char>)
    ensures
        key != "permissions"@ && root.contains_key(key) ==> with_approval(root).contains_key(key)
            && with_approval(root)[key] == root[key],
        ({
            let before = json::members(shell::arg(Json::Object(root), "permissions"@));
            let after = json::members(shell::arg(Json::Object(with_approval(root)), "permissions"@));
            &&& key != "allow"@ && before.contains_key(key) ==> after.contains_key(key)
                && after[key] == before[key]
            &&& after.contains_key("allow"@)
            &&& after["allow"@] is Array
            &&& json::items_of(after["allow"@])->0.contains(Json::Text(APPROVED@))
            &&& before.contains_key("allow"@) && before["allow"@] is Array ==> json::items_of(
                before["allow"@],
            )->0.is_prefix_of(json::items_of(after["allow"@])->0)
        }),
{
    let before = json::members(shell::arg(Json::Object(root), "permissions"@));
    let list = allowing(json::member(Json::Object(before), "allow"@));
    if let Some(Json::Array(a)) = json::member(Json::Object(before), "allow"@) {
        if !a.contains(Json::Text(APPROVED@)) {
            assert(a.push(Json::Text(APPROVED@))[a.len() as int] == Json::Text(APPROVED@));
        }
    } else {
        assert(list[0] == Json::Text(APPROVED@));
    }
    assert(list.contains(Json::Text(APPROVED@)));
}

/// To allow the tools of the browser twice is the same as to do it once.
pub proof fn law_approval_is_idempotent(root: Map<Seq<char>, Json>)
    ensures
        with_approval(with_approval(root)) == with_approval(root),
{
    law_approval_is_nondestructive(root, "allow"@);
    let once = with_approval(root);
    let perms = json::members(once["permissions"@]);
    assert(perms.insert("allow"@, perms["allow"@]) =~= perms);
    assert(with_approval(once) =~= once);
}

/// Telling agents of the browser's server keeps every other setting and every
/// other server.
pub proof fn law_adding_the_server_is_nondestructive(
    root: Map<Seq<char>, Json>,
    entry: Json,
    key: Seq<char>,
)
    ensures
        key != "mcpServers"@ && root.contains_key(key) ==> with_server(root, entry).contains_key(
            key,
        ) && with_server(root, entry)[key] == root[key],
        ({
            let before = json::members(shell::arg(Json::Object(root), "mcpServers"@));
            let after = json::members(
                shell::arg(Json::Object(with_server(root, entry)), "mcpServers"@),
            );
            key != SERVER@ && before.contains_key(key) ==> after.contains_key(key) && after[key]
                == before[key]
        }),
{
}

/// Agents are told of the entry that was written last, unless the place where
/// the servers are listed holds no list.
pub proof fn law_the_server_is_there(root: Map<Seq<char>, Json>, entry: Json)
    requires
        root.contains_key("mcpServers"@) ==> root["mcpServers"@] is Object,
    ensures
        server_entry(Json::Object(with_server(root, entry))) == Some(entry),
{
}

/// Taking the browser's server out undoes putting it in: what is left are the
/// servers and the settings that were there before, without an entry of that
/// name.
pub proof fn law_removing_undoes_adding(root: Map<Seq<char>, Json>, entry: Json)
    requires
        root.contains_key("mcpServers"@),
        root["mcpServers"@] is Object,
    ensures
        without_server(Json::Object(with_server(root, entry))) == without_server(
            Json::Object(root),
        ),
        server_entry(without_server(Json::Object(root))) is None,
        server_entry(Json::Object(root)) is None ==> without_server(Json::Object(root))
            == Json::Object(root),
{
    let servers = json::members(root["mcpServers"@]);
    let added = with_server(root, entry);
    assert(servers.insert(SERVER@, entry).remove(SERVER@) =~= servers.remove(SERVER@));
    assert(json::members(without_server(Json::Object(added))) =~= json::members(
        without_server(Json::Object(root)),
    ));
    if !servers.contains_key(SERVER@) {
        assert(servers.remove(SERVER@) =~= servers);
        assert(root.insert("mcpServers"@, root["mcpServers"@]) =~= root);
    }
}

/// The entry that this program writes is one that it takes for its own, so that
/// it is not written again.
pub proof fn law_own_entry_is_current(
    root: Map<Seq<char>, Json>,
    dir: Seq<char>,
    shim: Seq<char>,
)
    requires
        root.contains_key("mcpServers"@) ==> root["mcpServers"@] is Object,
        text::ends_with(shim, SHIM@),
    ensures
        default_step(Json::Object(with_server(root, entry_json(shim, dir))))
            == DefaultStep::Current,
{
    reveal_strlit("command");
    reveal_strlit("args");
    reveal_strlit("env");
    assert("command"@.len() == 7 && "args"@.len() == 4 && "env"@.len() == 3);
}

/// The place in this program's own directory is one that is recognised.
pub proof fn law_own_shim_is_recognised(home: Seq<char>)
    ensures
        text::ends_with(joined(own_dir(home), SHIM@), SHIM@),
{
    let path = joined(own_dir(home), SHIM@);
    assert(path.subrange(path.len() - SHIM@.len(), path.len() as int) =~= SHIM@);
}

/// An entry that runs another program, and is not an outdated one of this
/// program, is the user's own.
pub proof fn law_custom_entry_is_left_alone(root: Json, entry: Json)
    requires
        server_entry(root) == Some(entry),
        !text::ends_with(shell::arg_or_empty(entry, "command"@), SHIM@),
        !(shell::arg(entry, "args"@) is Array) || !json::items_of(
            shell::arg(entry, "args"@),
        )->0.contains(Json::Text(OLD_SERVER@)),
    ensures
        default_step(root) == DefaultStep::Custom,
{
}

/// What is written to allow the tools of the browser can be read again, where
/// what was there before could be, and had no number with a fraction or an
/// exponent.
pub proof fn law_approved_settings_are_readable(root: Map<Seq<char>, Json>)
    requires
        json::plain(Json::Object(root), json::MAX_DEPTH as nat),
    ensures
        json::plain(Json::Object(with_approval(root)), json::MAX_DEPTH as nat),
{
    let d = json::MAX_DEPTH as nat;
    let after = with_approval(root);
    let perms = json::members(shell::arg(Json::Object(root), "permissions"@));
    let list = allowing(json::member(Json::Object(perms), "allow"@));
    if root.contains_key("permissions"@) {
        assert(json::plain(root["permissions"@], (d - 1) as nat));
    }
    if perms.contains_key("allow"@) {
        assert(json::plain(perms["allow"@], (d - 2) as nat));
    }
    assert forall|i: int| 0 <= i < list.len() implies json::plain(
        #[trigger] list[i],
        (d - 3) as nat,
    ) by {
        if let Some(Json::Array(a)) = json::member(Json::Object(perms), "allow"@) {
            if i < a.len() {
                assert(json::plain(a[i], (d - 3) as nat));
            }
        }
    }
    assert(json::plain(Json::Array(list), (d - 2) as nat));
    let told = perms.insert("allow"@, Json::Array(list));
    assert forall|k: Seq<char>| told.contains_key(k) implies json::plain(
        #[trigger] told[k],
        (d - 2) as nat,
    ) by {
        if k != "allow"@ {
            assert(json::plain(perms[k], (d - 2) as nat));
        }
    }
    assert(json::plain(Json::Object(told), (d - 1) as nat));
    assert forall|k: Seq<char>| after.contains_key(k) implies json::plain(
        #[trigger] after[k],
        (d - 1) as nat,
    ) by {
        if k != "permissions"@ {
            assert(json::plain(root[k], (d - 1) as nat));
        }
    }
}

/// What is written to tell agents of the browser's server can be read again,
/// where what was there before could be, and had no number with a fraction or
/// an exponent.
pub proof fn law_settings_with_server_are_readable(
    root: Map<Seq<char>, Json>,
    shim: Seq<char>,
    dir: Seq<char>,
)
    requires
        json::plain(Json::Object(root), json::MAX_DEPTH as nat),
    ensures
        json::plain(
            Json::Object(with_server(root, entry_json(shim, dir))),
            json::MAX_DEPTH as nat,
        ),
{
    let d = json::MAX_DEPTH as nat;
    let entry = entry_json(shim, dir);
    let after = with_server(root, entry);
    let env = json::members(json::members(entry)["env"@]);
    assert(json::plain(entry, (d - 2) as nat)) by {
        reveal_with_fuel(json::plain, 3);
    }
    if root.contains_key("mcpServers"@) {
        assert(json::plain(root["mcpServers"@], (d - 1) as nat));
    }
    let servers = json::members(shell::arg(Json::Object(root), "mcpServers"@));
    let told = servers.insert(SERVER@, entry);
    assert forall|k: Seq<char>| told.contains_key(k) implies json::plain(
        #[trigger] told[k],
        (d - 2) as nat,
    ) by {
        if k != SERVER@ {
            assert(json::plain(servers[k], (d - 2) as nat));
        }
    }
    assert(json::plain(Json::Object(told), (d - 1) as nat));
    assert forall|k: Seq<char>| after.contains_key(k) implies json::plain(
        #[trigger] after[k],
        (d - 1) as nat,
    ) by {
        if k != "mcpServers"@ {
            assert(json::plain(root[k], (d - 1) as nat));
        }
    }
}

/// The socket of the broker, for the program that connects an agent with it.
pub fn sock_path(home: &str) -> (r: String)
    ensures
        r@ == joined(home@, ".gridterm/browser-broker.sock"@),
{
    join_path(home, ".gridterm/browser-broker.sock")
}

/// The program that connects an agent looks for the broker where it listens.
pub proof fn law_both_ends_use_one_socket(home: Seq<char>)
    ensures
        joined(home, ".gridterm/browser-broker.sock"@) == joined(
            own_dir(home),
            "browser-broker.sock"@,
        ),
{
    reveal_strlit(".gridterm");
    reveal_strlit(".gridterm/browser-broker.sock");
    reveal_strlit("browser-broker.sock");
    assert(".gridterm/browser-broker.sock"@ =~= ".gridterm"@.push('/') + "browser-broker.sock"@);
    assert(joined(home, ".gridterm/browser-broker.sock"@) =~= joined(
        own_dir(home),
        "browser-broker.sock"@,
    ));
}

/// An agent program that was found is found again, whether it is told of the
/// browser's server or no longer told of it.
pub proof fn law_agents_stay_found(root: Json, settings: Option<Json>, entry: Json)
    requires
        of_an_agent(Some(root), settings),
    ensures
        of_an_agent(Some(Json::Object(with_server(json::members(root), entry))), settings),
        of_an_agent(Some(without_server(root)), settings),
{
}

// ---- what is written and said ---------------------------------------------------

/// A path begins with its directory and ends with the name, with one slash
/// between them that is only added where none is there; and it does not matter
/// which two of three parts are joined first.
pub proof fn law_paths_are_joined(dir: Seq<char>, name: Seq<char>, more: Seq<char>)
    ensures
        dir.is_prefix_of(joined(dir, name)),
        text::ends_with(joined(dir, name), name),
        dir.len() == 0 ==> joined(dir, name) == name,
        dir.len() > 0 ==> joined(dir, name)[joined(dir, name).len() - name.len() - 1] == '/',
        dir.len() > 0 && dir.last() == '/' ==> joined(dir, name).len() == dir.len() + name.len(),
        dir.len() > 0 && dir.last() != '/' ==> joined(dir, name).len() == dir.len() + name.len()
            + 1,
        name.len() > 0 ==> joined(joined(dir, name), more) == joined(dir, joined(name, more)),
{
    let path = joined(dir, name);
    assert(path.subrange(0, dir.len() as int) =~= dir);
    assert(path.subrange(path.len() - name.len(), path.len() as int) =~= name);
    if dir.len() == 0 {
        assert(path =~= name);
    }
    if name.len() > 0 {
        assert(path.last() == name.last());
        assert(joined(path, more) =~= joined(dir, joined(name, more)));
    }
}

/// A shell that is given the line which starts the broker changes to the very
/// directory that was asked for, whatever its name holds, and starts the broker
/// behind that, in the background.
pub proof fn law_the_broker_is_started_in_its_directory(dir: Seq<char>)
    ensures
        text::begins_with(bootstrap(dir), "cd "@),
        shell_reads(bootstrap(dir).skip("cd "@.len() as int)) == (dir, ShellReader::Ended),
        text::has_text(bootstrap(dir), " && nohup node broker.mjs "@),
        bootstrap(dir).last() == '&',
{
    reveal_strlit("cd ");
    reveal_strlit(" >/dev/null 2>&1 && nohup node broker.mjs >/dev/null 2>&1 &");
    reveal_strlit(" >/dev/null 2>&1");
    reveal_strlit(" && nohup node broker.mjs ");
    reveal_strlit(">/dev/null 2>&1 &");
    let tail = " >/dev/null 2>&1 && nohup node broker.mjs >/dev/null 2>&1 &"@;
    let rest = tail.drop_first();
    law_quoted_text_is_read_back(dir, rest);
    assert(bootstrap(dir).skip("cd "@.len() as int) =~= quoted(dir).push(' ') + rest);
    assert(bootstrap(dir).subrange(0, "cd "@.len() as int) =~= "cd "@);
    let before = "cd "@ + quoted(dir) + " >/dev/null 2>&1"@;
    assert(tail =~= " >/dev/null 2>&1"@ + " && nohup node broker.mjs "@ + ">/dev/null 2>&1 &"@);
    assert(bootstrap(dir) =~= before + " && nohup node broker.mjs "@ + ">/dev/null 2>&1 &"@);
    text::law_text_is_found(before, " && nohup node broker.mjs "@, ">/dev/null 2>&1 &"@);
}

/// The entry that agents are told runs the shim, without arguments, and tells it
/// how the broker of that directory is started.
pub proof fn law_entries_run_the_shim(shim: Seq<char>, dir: Seq<char>)
    ensures
        ({
            let entry = entry_json(shim, dir);
            let env = shell::arg(entry, "env"@);
            &&& shell::arg_text(entry, "command"@) == Some(shim)
            &&& shell::arg(entry, "args"@) == Json::Array(seq![])
            &&& shell::arg_text(env, "GRIDTERM_BROKER_CMD"@) matches Some(line)
                && shell_reads(line.skip("cd "@.len() as int)) == (dir, ShellReader::Ended)
        }),
{
    reveal_strlit("command");
    reveal_strlit("args");
    reveal_strlit("env");
    assert("command"@.len() == 7 && "args"@.len() == 4 && "env"@.len() == 3);
    law_the_broker_is_started_in_its_directory(dir);
}

/// Settings are what their file holds; a file that is missing or cannot be read
/// is one without settings.
pub proof fn law_files_hold_their_settings(content: Seq<char>)
    ensures
        held_in(Some(content)) == json::parsed(content),
        held_in(None) is None,
        json::parsed(content) is Some ==> Some(root_of(Some(content))) == json::parsed(content),
        json::parsed(content) is None ==> root_of(Some(content)) == root_of(None),
        root_of(None) == Json::Object(Map::empty()),
{
}

/// Allowing the tools of the browser adds that one permission and nothing else,
/// and not even that where it is there.
pub proof fn law_approval_adds_one_thing(root: Map<Seq<char>, Json>, key: Seq<char>, item: Json)
    ensures
        with_approval(root).contains_key(key) ==> key == "permissions"@ || root.contains_key(key),
        ({
            let before = json::members(shell::arg(Json::Object(root), "permissions"@));
            let after = json::members(shell::arg(Json::Object(with_approval(root)), "permissions"@));
            let old_list = json::items_of(shell::arg(Json::Object(before), "allow"@));
            let new_list = json::items_of(shell::arg(Json::Object(after), "allow"@));
            &&& after.contains_key(key) ==> key == "allow"@ || before.contains_key(key)
            &&& new_list matches Some(list) && (list.contains(item) ==> item == Json::Text(
                APPROVED@,
            ) || (old_list matches Some(a) && a.contains(item)))
            &&& old_list matches Some(a) ==> new_list == Some(
                if a.contains(Json::Text(APPROVED@)) {
                    a
                } else {
                    a.push(Json::Text(APPROVED@))
                },
            )
        }),
{
    let before = json::members(shell::arg(Json::Object(root), "permissions"@));
    let list = allowing(json::member(Json::Object(before), "allow"@));
    if list.contains(item) {
        let i = choose|i: int| 0 <= i < list.len() && list[i] == item;
        if let Some(Json::Array(a)) = json::member(Json::Object(before), "allow"@) {
            if i < a.len() {
                assert(a[i] == item);
                assert(a.contains(item));
            }
        }
    }
}

/// Telling agents of the browser's server adds no other server and no other
/// setting; taking it out takes out nothing else.
pub proof fn law_only_the_server_comes_and_goes(
    root: Map<Seq<char>, Json>,
    entry: Json,
    key: Seq<char>,
)
    ensures
        with_server(root, entry).contains_key(key) ==> key == "mcpServers"@ || root.contains_key(
            key,
        ),
        ({
            let servers = json::members(shell::arg(Json::Object(root), "mcpServers"@));
            let told = json::members(
                shell::arg(Json::Object(with_server(root, entry)), "mcpServers"@),
            );
            let left = json::members(without_server(Json::Object(root)));
            let kept = json::members(shell::arg(without_server(Json::Object(root)), "mcpServers"@));
            &&& told.contains_key(key) ==> key == SERVER@ || servers.contains_key(key)
            &&& left.contains_key(key) <==> root.contains_key(key)
            &&& root.contains_key(key) && key != "mcpServers"@ ==> left[key] == root[key]
            &&& kept.contains_key(key) <==> servers.contains_key(key) && key != SERVER@
            &&& kept.contains_key(key) ==> kept[key] == servers[key]
        }),
        !(entry is Object) ==> without_server(entry) == entry,
{
}

/// An entry is written where there is none, and over an outdated one of this
/// program; never over another.
pub proof fn law_entries_are_written_where_wanted(root: Json)
    ensures
        server_entry(root) is None ==> default_step(root) == DefaultStep::Write,
        server_entry(root) matches Some(entry) ==> {
            let ours = text::ends_with(shell::arg_or_empty(entry, "command"@), SHIM@);
            let outdated = json::items_of(shell::arg(entry, "args"@)) matches Some(a)
                && a.contains(Json::Text(OLD_SERVER@));
            &&& default_step(root) == DefaultStep::Current <==> ours
            &&& default_step(root) == DefaultStep::Write <==> !ours && outdated
            &&& default_step(root) == DefaultStep::Custom <==> !ours && !outdated
        },
{
}

/// What the broker answers is its first line, without the white space around it,
/// whatever follows.
pub proof fn law_the_first_line_is_the_answer(line: Seq<char>, rest: Seq<char>)
    requires
        forall|k: int| 0 <= k < line.len() ==> line[k] != '\n',
        line.len() == 0 || line.last() != '\r',
    ensures
        answer_line(line.push('\n') + rest) == text::trim(line),
        answer_line(line) == text::trim(line),
{
    text::law_lines_are_cut_at_line_feeds(line, rest);
    assert((seq![line] + text::lines(rest))[0] == line);
    if line.len() == 0 {
        assert(line =~= Seq::<char>::empty());
        assert(text::trim(line) =~= line);
    }
}

/// The broker is sent the command that was meant, with the address where there is
/// one, and nothing else.
pub proof fn law_commands_are_sent(name: Seq<char>, url: Option<Seq<char>>, key: Seq<char>)
    ensures
        shell::arg_text(command_json(name, url), "cmd"@) == Some(name),
        shell::arg_text(command_json(name, url), "url"@) == url,
        json::members(command_json(name, url)).contains_key(key) ==> key == "cmd"@ || key
            == "url"@,
{
    reveal_strlit("cmd");
    reveal_strlit("url");
    assert("cmd"@[0] == 'c' && "url"@[0] == 'u');
}

/// The broker did what it was told where it says so, and only there.
pub proof fn law_success_is_said(m: Map<Seq<char>, Json>, yes: bool, other: Json)
    ensures
        succeeded(Json::Object(m.insert("ok"@, Json::Bool(yes)))) == yes,
        !(other is Bool) ==> !succeeded(Json::Object(m.insert("ok"@, other))),
        !succeeded(Json::Object(m.remove("ok"@))),
        !(other is Object) ==> !succeeded(other),
{
}

/// Whoever asked is told which page is open, its title and all of its text; what
/// the broker does not say is left blank, and the address is then the one that
/// was asked for.
pub proof fn law_pages_are_told_whole(
    m: Map<Seq<char>, Json>,
    url: Seq<char>,
    title: Seq<char>,
    said: Seq<char>,
    asked: Seq<char>,
)
    ensures
        ({
            let there = m.insert("ok"@, Json::Bool(true)).insert("url"@, Json::Text(url)).insert(
                "title"@,
                Json::Text(title),
            ).insert("text"@, Json::Text(said));
            let page = url + "\nTitle: "@ + title + "\n\nPage text:\n"@ + said;
            &&& read_text(Ok(Json::Object(there))) == page
            &&& open_text(asked, Ok(Json::Object(there))) == "Opened "@ + page
            &&& open_text(asked, Ok(Json::Object(there.remove("url"@)))) == "Opened "@ + asked
                + "\nTitle: "@ + title + "\n\nPage text:\n"@ + said
            &&& text::ends_with(read_text(Ok(Json::Object(there))), said)
            &&& text::has_text(read_text(Ok(Json::Object(there))), title)
            &&& text::begins_with(read_text(Ok(Json::Object(there))), url)
        }),
{
    reveal_strlit("ok");
    reveal_strlit("url");
    reveal_strlit("title");
    reveal_strlit("text");
    assert("ok"@.len() == 2 && "url"@.len() == 3 && "title"@.len() == 5 && "text"@.len() == 4);
    let there = m.insert("ok"@, Json::Bool(true)).insert("url"@, Json::Text(url)).insert(
        "title"@,
        Json::Text(title),
    ).insert("text"@, Json::Text(said));
    assert(succeeded(Json::Object(there)));
    assert(succeeded(Json::Object(there.remove("url"@))));
    let page = url + "\nTitle: "@ + title + "\n\nPage text:\n"@ + said;
    assert("Opened "@ + (asked + "\nTitle: "@ + title + "\n\nPage text:\n"@ + said) =~= "Opened "@
        + asked + "\nTitle: "@ + title + "\n\nPage text:\n"@ + said);
    text::law_text_is_found(url + "\nTitle: "@ + title + "\n\nPage text:\n"@, said, seq![]);
    text::law_text_is_found(url + "\nTitle: "@, title, "\n\nPage text:\n"@ + said);
    assert(page =~= url + "\nTitle: "@ + title + ("\n\nPage text:\n"@ + said));
    text::law_text_is_found(seq![], url, "\nTitle: "@ + title + "\n\nPage text:\n"@ + said);
    assert(page =~= url + ("\nTitle: "@ + title + "\n\nPage text:\n"@ + said));
}

/// What went wrong is told as it was reported, with the address that was asked
/// for.
pub proof fn law_failures_are_told(
    m: Map<Seq<char>, Json>,
    asked: Seq<char>,
    url: Option<Seq<char>>,
    error: Seq<char>,
)
    ensures
        ({
            let failed = Json::Object(m.remove("ok"@).insert("error"@, Json::Text(error)));
            &&& open_text(asked, Ok(failed)) == open_text(asked, Err(error))
            &&& text::ends_with(open_text(asked, Err(error)), error)
            &&& text::has_text(open_text(asked, Err(error)), asked)
            &&& read_text(Ok(failed)) == read_text(Err(error))
            &&& text::ends_with(read_text(Err(error)), error)
            &&& text::ends_with(login_text(url, Err(error)), error)
            &&& text::ends_with(login_text(url, Ok(failed)), json::compact_text(failed))
            &&& text::ends_with(
                open_text(asked, Ok(Json::Object(m.remove("ok"@).remove("error"@)))),
                "unknown error"@,
            )
        }),
{
    reveal_strlit("ok");
    reveal_strlit("error");
    assert("ok"@.len() == 2 && "error"@.len() == 5);
    let failed = Json::Object(m.remove("ok"@).insert("error"@, Json::Text(error)));
    assert(!succeeded(failed));
    assert(!succeeded(Json::Object(m.remove("ok"@).remove("error"@))));
    text::law_text_is_found("couldn't open "@ + asked + ": "@, error, seq![]);
    text::law_text_is_found("couldn't open "@ + asked + ": "@, "unknown error"@, seq![]);
    text::law_text_is_found("couldn't open "@, asked, ": "@ + error);
    assert(open_text(asked, Err(error)) =~= "couldn't open "@ + asked + (": "@ + error));
    text::law_text_is_found("couldn't read the page: "@, error, seq![]);
    text::law_text_is_found("couldn't surface the login window: "@, error, seq![]);
    text::law_text_is_found(
        "couldn't surface the login window: "@,
        json::compact_text(failed),
        seq![],
    );
}

/// Whoever shall sign in is told where, as the address was asked for, and how it
/// goes on.
pub proof fn law_logins_are_told(m: Map<Seq<char>, Json>, url: Seq<char>)
    ensures
        ({
            let done = Json::Object(m.insert("ok"@, Json::Bool(true)));
            &&& login_text(Some(url), Ok(done)) == "Opened a browser window at "@ + url + SIGN_IN@
            &&& login_text(None, Ok(done)) == "Opened a browser window at the site you need"@
                + SIGN_IN@
        }),
{
    reveal_strlit("Opened a browser window at ");
    reveal_strlit("the site you need");
    reveal_strlit("Opened a browser window at the site you need");
    let done = Json::Object(m.insert("ok"@, Json::Bool(true)));
    assert(succeeded(done));
    assert("Opened a browser window at "@ + "the site you need"@
        =~= "Opened a browser window at the site you need"@);
}

/// The state of the broker is told with the numbers and the flags that it
/// reports.
pub proof fn law_the_state_is_told(
    m: Map<Seq<char>, Json>,
    identity: bool,
    worker: bool,
    pages: u64,
    clients: u64,
    error: Seq<char>,
)
    ensures
        ({
            let state = m.insert("identity"@, Json::Bool(identity)).insert(
                "worker"@,
                Json::Bool(worker),
            ).insert("pages"@, Json::Number(json::JsonNumber::Natural(pages))).insert(
                "clients"@,
                Json::Number(json::JsonNumber::Natural(clients)),
            );
            let yes_no = |b: bool|
                if b {
                    "true"@
                } else {
                    "false"@
                };
            &&& status_text(Ok(Json::Object(state))) == "browser: identity="@ + yes_no(identity)
                + " worker="@ + yes_no(worker) + " pages="@ + text::decimal(pages as nat)
                + " clients="@ + text::decimal(clients as nat)
            &&& status_text(Err(error)) == "browser broker: not running"@
        }),
{
    reveal_strlit("identity");
    reveal_strlit("worker");
    reveal_strlit("pages");
    reveal_strlit("clients");
    assert("identity"@.len() == 8 && "worker"@.len() == 6 && "pages"@.len() == 5
        && "clients"@.len() == 7);
}

/// A number or a text that was reported is taken as it is; without one there is
/// none, whatever else stands there.
pub proof fn law_reports_are_read(
    m: Map<Seq<char>, Json>,
    key: Seq<char>,
    n: u64,
    said: Seq<char>,
    other: Seq<char>,
)
    ensures
        count_in(Json::Object(m.insert(key, Json::Number(json::JsonNumber::Natural(n)))), key)
            == n,
        count_in(Json::Object(m.insert(key, Json::Text(said))), key) == 0,
        count_in(Json::Object(m.remove(key)), key) == 0,
        text_in(Json::Object(m.insert(key, Json::Text(said))), key, other) == said,
        text_in(Json::Object(m.remove(key)), key, other) == other,
        text_in(
            Json::Object(m.insert(key, Json::Number(json::JsonNumber::Natural(n)))),
            key,
            other,
        ) == other,
        truth_text(Json::Object(m.insert(key, Json::Bool(true))), key) == "true"@,
        truth_text(Json::Object(m.insert(key, Json::Bool(false))), key) == "false"@,
        truth_text(Json::Object(m.insert(key, Json::Text(said))), key) == "false"@,
        truth_text(Json::Object(m.remove(key)), key) == "false"@,
{
}

} // verus!
