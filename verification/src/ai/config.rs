//! How the assistant's service is reached: settings from the environment, or
//! from a file of settings where the environment has none.

use vstd::prelude::*;

use crate::ai::client;
use crate::browser;
use crate::browser::join_path;
use crate::text;
use crate::text::{
    find_char, from_chars, same_text, split_lines, stands_at, to_chars, trim_char_range,
    trim_end_char_range, trim_range,
};

verus! {

/// The key and the value that a line of a settings file gives, as KEY=VALUE;
/// white space around them does not count, nor a leading `export`, nor quotes
/// around the value. A line that is empty or a comment gives none.
pub open spec fn setting(line: Seq<char>) -> Option<(Seq<char>, Seq<char>)> {
    let bare = text::trim(line);
    if bare.len() == 0 || bare[0] == '#' {
        None
    } else {
        let rest = if text::begins_with(bare, "export "@) {
            bare.skip("export "@.len() as int)
        } else {
            bare
        };
        let i = text::until(rest, '=') as int;
        if i < rest.len() {
            Some(
                (
                    text::trim(rest.take(i)),
                    text::trim_char(
                        text::trim_char(text::trim(rest.skip(i + 1)), '"'),
                        '\'',
                    ),
                ),
            )
        } else {
            None
        }
    }
}

/// The settings that lines give; of two for one key, the later counts.
pub open spec fn settings(lines: Seq<Seq<char>>) -> Map<Seq<char>, Seq<char>>
    decreases lines.len(),
{
    if lines.len() == 0 {
        Map::empty()
    } else {
        let m = settings(lines.drop_last());
        match setting(lines.last()) {
            Some((k, v)) => m.insert(k, v),
            None => m,
        }
    }
}

/// The settings that pairs of a key and a value give; the later count.
pub open spec fn pairs(entries: Seq<(String, String)>) -> Map<Seq<char>, Seq<char>>
    decreases entries.len(),
{
    if entries.len() == 0 {
        Map::empty()
    } else {
        pairs(entries.drop_last()).insert(entries.last().0@, entries.last().1@)
    }
}

/// Settings of a file.
pub struct Dotenv {
    entries: Vec<(String, String)>,
}

impl View for Dotenv {
    type V = Map<Seq<char>, Seq<char>>;

    closed spec fn view(&self) -> Map<Seq<char>, Seq<char>> {
        pairs(self.entries@)
    }
}

fn read_setting(line: &str) -> (r: Option<(String, String)>)
    ensures
        match r {
            Some((k, v)) => setting(line@) == Some((k@, v@)),
            None => setting(line@) is None,
        },
{
    let v: Vec<char> = to_chars(line);
    let n: usize = v.len();
    assert(v@.subrange(0, n as int) =~= line@);
    let (from, to) = trim_range(&v, 0, n);
    let bare: Vec<char> = to_chars(from_chars(&v, from, to).as_str());
    if bare.len() == 0 || bare[0] == '#' {
        return None;
    }
    let mark: Vec<char> = to_chars("export ");
    let start: usize = if stands_at(&bare, &mark, 0) {
        mark.len()
    } else {
        0
    };
    let m: usize = bare.len();
    let ghost rest = bare@.skip(start as int);
    assert(bare@.subrange(start as int, m as int) =~= rest);
    proof {
        if start == 0 {
            assert(rest =~= bare@);
        }
    }
    let i: usize = find_char(&bare, start, m, '=');
    if i == m {
        return None;
    }
    let (k0, k1) = trim_range(&bare, start, i);
    let (v0, v1) = trim_range(&bare, i + 1, m);
    let (d0, d1) = trim_char_range(&bare, v0, v1, '"');
    let (q0, q1) = trim_char_range(&bare, d0, d1, '\'');
    proof {
        assert(bare@.subrange(start as int, i as int) =~= rest.take(i - start));
        assert(bare@.subrange(i + 1, m as int) =~= rest.skip(i - start + 1));
    }
    Some((from_chars(&bare, k0, k1), from_chars(&bare, q0, q1)))
}

impl Dotenv {
    /// Parses a simple KEY=VALUE file.
    pub fn parse(content: &str) -> (r: Self)
        ensures
            r@ == settings(text::lines(content@)),
    {
        let lines: Vec<String> = split_lines(&to_chars(content));
        let ghost all = text::views(lines@);
        let n: usize = lines.len();
        let mut entries: Vec<(String, String)> = Vec::new();
        let mut i: usize = 0;
        while i < n
            invariant
                i <= n,
                n == lines.len(),
                all == text::views(lines@),
                pairs(entries@) == settings(all.take(i as int)),
            decreases n - i,
        {
            proof {
                assert(all.take(i + 1).drop_last() =~= all.take(i as int));
                assert(all.take(i + 1).last() == lines@[i as int]@);
            }
            let ghost before = entries@;
            if let Some(e) = read_setting(lines[i].as_str()) {
                entries.push(e);
                assert(entries@.drop_last() =~= before);
            }
            i = i + 1;
        }
        assert(all.take(n as int) =~= all);
        Dotenv { entries }
    }

    /// The setting under a key.
    pub fn get(&self, key: &str) -> (r: Option<String>)
        ensures
            match r {
                Some(v) => self@.contains_key(key@) && self@[key@] == v@,
                None => !self@.contains_key(key@),
            },
    {
        let mut i: usize = self.entries.len();
        proof {
            assert(self.entries@.take(i as int) =~= self.entries@);
        }
        while i > 0
            invariant
                i <= self.entries.len(),
                self@.contains_key(key@) == pairs(self.entries@.take(i as int)).contains_key(key@),
                self@.contains_key(key@) ==> self@[key@] == pairs(
                    self.entries@.take(i as int),
                )[key@],
            decreases i,
        {
            proof {
                let t = self.entries@.take(i as int);
                assert(t.drop_last() =~= self.entries@.take(i - 1));
                assert(t.last() == self.entries@[i - 1]);
            }
            if same_text(self.entries[i - 1].0.as_str(), key) {
                return Some(self.entries[i - 1].1.clone());
            }
            i = i - 1;
        }
        None
    }
}

/// Configuration of the service that the built-in agent asks. No secret is
/// part of the program: they come from environment variables or a local file.
pub struct AiConfig {
    pub endpoint: String,
    pub deployment: String,
    pub api_version: String,
    pub api_key: String,
}

impl Clone for AiConfig {
    fn clone(&self) -> (r: Self)
        ensures
            r.endpoint@ == self.endpoint@,
            r.deployment@ == self.deployment@,
            r.api_version@ == self.api_version@,
            r.api_key@ == self.api_key@,
    {
        AiConfig {
            endpoint: self.endpoint.clone(),
            deployment: self.deployment.clone(),
            api_version: self.api_version.clone(),
            api_key: self.api_key.clone(),
        }
    }
}

/// The environment variables that configure the service, where they are set.
pub struct EnvSettings {
    pub endpoint: Option<String>,
    pub deployment: Option<String>,
    pub api_version: Option<String>,
    pub api_key: Option<String>,
}

/// A setting: that of the environment, or that of the file.
pub open spec fn effective(
    env: Option<String>,
    file: Map<Seq<char>, Seq<char>>,
    key: Seq<char>,
) -> Option<Seq<char>> {
    match env {
        Some(v) => Some(v@),
        None => if file.contains_key(key) {
            Some(file[key])
        } else {
            None
        },
    }
}

fn choose_setting(env: Option<String>, file: &Option<Dotenv>, key: &str) -> (r: Option<String>)
    ensures
        client::opt_view(r) == effective(env, file_view(*file), key@),
{
    match env {
        Some(v) => Some(v),
        None => match file {
            Some(d) => d.get(key),
            None => None,
        },
    }
}

/// The settings of a file that there may be.
pub open spec fn file_view(file: Option<Dotenv>) -> Map<Seq<char>, Seq<char>> {
    match file {
        Some(d) => d@,
        None => Map::empty(),
    }
}

/// The settings of the text of a file that there may be.
pub open spec fn content_settings(content: Option<String>) -> Map<Seq<char>, Seq<char>> {
    match content {
        Some(s) => settings(text::lines(s@)),
        None => Map::empty(),
    }
}

impl AiConfig {
    /// Loads from the environment first, then from the text of a settings file.
    /// The endpoint, the deployment and the key must be there.
    pub fn load(env: EnvSettings, content: Option<String>) -> (r: Option<Self>)
        ensures
            ({
                let file = content_settings(content);
                let endpoint = effective(env.endpoint, file, "AZURE_OPENAI_ENDPOINT"@);
                let deployment = effective(env.deployment, file, "AZURE_OPENAI_DEPLOYMENT"@);
                let version = effective(env.api_version, file, "AZURE_OPENAI_API_VERSION"@);
                let key = effective(env.api_key, file, "AZURE_OPENAI_KEY"@);
                match r {
                    Some(c) => {
                        &&& endpoint == Some(c.endpoint@)
                        &&& deployment == Some(c.deployment@)
                        &&& c.api_version@ == (match version {
                            Some(v) => v,
                            None => "2024-10-21"@,
                        })
                        &&& key == Some(c.api_key@)
                    },
                    None => endpoint is None || deployment is None || key is None,
                }
            }),
    {
        let file: Option<Dotenv> = match content {
            Some(s) => Some(Dotenv::parse(s.as_str())),
            None => None,
        };
        let endpoint = choose_setting(env.endpoint, &file, "AZURE_OPENAI_ENDPOINT");
        let deployment = choose_setting(env.deployment, &file, "AZURE_OPENAI_DEPLOYMENT");
        let version = choose_setting(env.api_version, &file, "AZURE_OPENAI_API_VERSION");
        let key = choose_setting(env.api_key, &file, "AZURE_OPENAI_KEY");
        match (endpoint, deployment, key) {
            (Some(endpoint), Some(deployment), Some(api_key)) => Some(
                AiConfig {
                    endpoint,
                    deployment,
                    api_version: match version {
                        Some(v) => v,
                        None => "2024-10-21".to_owned(),
                    },
                    api_key,
                },
            ),
            _ => None,
        }
    }

    /// Full chat-completions URL for streaming.
    pub fn chat_url(&self) -> (r: String)
        ensures
            r@ == text::trim_end_char(self.endpoint@, '/') + "/openai/deployments/"@
                + self.deployment@ + "/chat/completions?api-version="@ + self.api_version@,
    {
        let v: Vec<char> = to_chars(self.endpoint.as_str());
        let n: usize = v.len();
        let end: usize = trim_end_char_range(&v, 0, n, '/');
        assert(v@.subrange(0, n as int) =~= self.endpoint@);
        let mut r: String = from_chars(&v, 0, end);
        r.append("/openai/deployments/");
        r.append(self.deployment.as_str());
        r.append("/chat/completions?api-version=");
        r.append(self.api_version.as_str());
        r
    }
}

/// A slash at the end of the endpoint makes no difference.
pub proof fn law_trailing_slash_is_ignored(endpoint: Seq<char>)
    ensures
        text::trim_end_char(endpoint.push('/'), '/') == text::trim_end_char(endpoint, '/'),
{
    assert(endpoint.push('/').drop_last() =~= endpoint);
}

/// What the environment says counts, whatever the file says.
pub proof fn law_environment_wins(
    v: String,
    file: Map<Seq<char>, Seq<char>>,
    key: Seq<char>,
)
    ensures
        effective(Some(v), file, key) == Some(v@),
{
}

/// A comment or an empty line changes no setting.
pub proof fn law_comments_are_ignored(lines: Seq<Seq<char>>, line: Seq<char>)
    requires
        text::trim(line).len() == 0 || text::trim(line)[0] == '#',
    ensures
        settings(lines.push(line)) == settings(lines),
{
    assert(lines.push(line).drop_last() =~= lines);
}

/// Of two lines for one key, the later counts.
pub proof fn law_later_setting_counts(
    lines: Seq<Seq<char>>,
    line: Seq<char>,
    key: Seq<char>,
    value: Seq<char>,
)
    requires
        setting(line) == Some((key, value)),
    ensures
        settings(lines.push(line)) == settings(lines).insert(key, value),
{
    assert(lines.push(line).drop_last() =~= lines);
}

/// A line KEY=VALUE gives that value for that key, where nothing around them is
/// there to be taken off.
pub proof fn law_plain_line_is_read(key: Seq<char>, value: Seq<char>)
    requires
        key.len() > 0,
        key[0] != '#',
        !key.contains('='),
        text::trim(key + seq!['='] + value) == key + seq!['='] + value,
        !text::begins_with(key + seq!['='] + value, "export "@),
        text::trim(key) == key,
        text::trim_char(text::trim_char(text::trim(value), '"'), '\'') == value,
    ensures
        setting(key + seq!['='] + value) == Some((key, value)),
{
    let line = key + seq!['='] + value;
    let k = key.len() as int;
    assert(line[0] == key[0]);
    assert(line[k] == '=');
    assert forall|j: int| 0 <= j < k implies line[j] != '=' by {
        assert(line[j] == key[j]);
        assert(key.contains(key[j]));
    }
    text::lemma_until(line, '=', k);
    assert(line.take(k) =~= key);
    assert(line.skip(k + 1) =~= value);
}

/// Where a file of settings is looked for, in order: in the working directory
/// `cwd`, in the directory `exe_dir` of the running program, and two directories
/// above that (the project's root, where the program was built there).
pub open spec fn settings_files(
    cwd: Option<Seq<char>>,
    exe_dir: Option<Seq<char>>,
) -> Seq<Seq<char>> {
    (match cwd {
        Some(d) => seq![browser::joined(d, ".env"@)],
        None => seq![],
    }) + (match exe_dir {
        Some(d) => seq![browser::joined(d, ".env"@), browser::joined(d, "../../.env"@)],
        None => seq![],
    })
}

/// Where a file of settings is looked for, in order.
pub fn candidate_paths(cwd: Option<String>, exe_dir: Option<String>) -> (r: Vec<String>)
    ensures
        text::views(r@) == settings_files(client::opt_view(cwd), client::opt_view(exe_dir)),
{
    let mut r: Vec<String> = Vec::new();
    if let Some(d) = &cwd {
        r.push(join_path(d.as_str(), ".env"));
    }
    if let Some(d) = &exe_dir {
        r.push(join_path(d.as_str(), ".env"));
        r.push(join_path(d.as_str(), "../../.env"));
    }
    assert(text::views(r@) =~= settings_files(client::opt_view(cwd), client::opt_view(exe_dir)));
    r
}

/// Whether a text is white space alone.
pub open spec fn blank(s: Seq<char>) -> bool {
    forall|k: int| 0 <= k < s.len() ==> text::is_white(#[trigger] s[k])
}

/// Whether a text can be a key: a word that is no comment and has no equals sign.
pub open spec fn key_word(key: Seq<char>) -> bool {
    &&& key.len() > 0
    &&& key[0] != '#'
    &&& key != "export"@
    &&& forall|k: int|
        0 <= k < key.len() ==> #[trigger] key[k] != '=' && !text::is_white(key[k])
}

/// Whether a text has neither white space nor a quote at its ends.
pub open spec fn bare_value(value: Seq<char>) -> bool {
    value.len() > 0 ==> {
        &&& !text::is_white(value[0]) && !text::is_white(value.last())
        &&& value[0] != '"' && value.last() != '"'
        &&& value[0] != '\'' && value.last() != '\''
    }
}

proof fn lemma_value_is_read(gap: Seq<char>, quote: Seq<char>, value: Seq<char>)
    requires
        blank(gap),
        bare_value(value),
        quote == Seq::<char>::empty() || quote == seq!['"'] || quote == seq!['\''],
    ensures
        text::trim_char(
            text::trim_char(text::trim(gap + (quote + value + quote)), '"'),
            '\'',
        ) == value,
{
    let white = |c: char| text::is_white(c);
    let none = Seq::<char>::empty();
    let inner = quote + value + quote;
    if inner.len() > 0 {
        if quote.len() == 0 {
            assert(inner =~= value);
        } else {
            assert(inner[0] == quote[0] && inner.last() == quote[0]);
        }
    }
    text::law_trimming_leaves_the_middle(gap, inner, none, white);
    assert(gap + inner + none =~= gap + inner);
    assert(text::trim(gap + inner) == inner);
    let double = text::only('"');
    let single = text::only('\'');
    assert(none + value + none =~= value);
    text::law_trimming_leaves_the_middle(none, value, none, single);
    text::law_trimming_leaves_the_middle(none, value, none, double);
    if quote == none {
        assert(inner =~= value);
    } else if quote == seq!['"'] {
        text::law_trimming_leaves_the_middle(quote, value, quote, double);
    } else {
        text::law_trimming_leaves_the_middle(none, inner, none, double);
        assert(none + inner + none =~= inner);
        text::law_trimming_leaves_the_middle(quote, value, quote, single);
    }
}

/// A line KEY=VALUE is read as that key and that value, whole, whatever blanks
/// stand around the line, the key and the value, with or without quotes of either
/// kind around the value, and with or without `export` before the key.
pub proof fn law_settings_are_read(
    before: Seq<char>,
    exported: bool,
    key: Seq<char>,
    gap1: Seq<char>,
    gap2: Seq<char>,
    quote: Seq<char>,
    value: Seq<char>,
    after: Seq<char>,
)
    requires
        blank(before),
        blank(gap1),
        blank(gap2),
        blank(after),
        key_word(key),
        bare_value(value),
        quote == Seq::<char>::empty() || quote == seq!['"'] || quote == seq!['\''],
        value.len() == 0 && quote.len() == 0 ==> gap2.len() == 0,
    ensures
        setting(
            before + ((if exported { "export "@ } else { ""@ }) + (key + gap1 + seq!['='] + (gap2 + (
            quote + value + quote)))) + after,
        ) == Some((key, value)),
{
    reveal_strlit("export ");
    reveal_strlit("export");
    reveal_strlit("");
    let white = |c: char| text::is_white(c);
    let none = Seq::<char>::empty();
    let inner = quote + value + quote;
    let tail = gap2 + inner;
    let rest = key + gap1 + seq!['='] + tail;
    let head = if exported { "export "@ } else { ""@ };
    let bare = head + rest;
    assert(!text::is_white(key[0]));
    if exported {
        assert(bare[0] == 'e');
    } else {
        assert(bare =~= rest);
        assert(bare[0] == key[0]);
    }
    if inner.len() > 0 {
        assert(bare.last() == inner.last());
        if quote.len() == 0 {
            assert(inner =~= value);
        } else {
            assert(inner.last() == quote[0]);
        }
    } else {
        assert(tail =~= none);
        assert(bare.last() == '=');
    }
    text::law_trimming_leaves_the_middle(before, bare, after, white);
    assert(text::trim(before + bare + after) == bare);
    let n = "export "@.len() as int;
    if exported {
        assert(bare.subrange(0, n) =~= "export "@);
        assert(bare.skip(n) =~= rest);
    } else if text::begins_with(bare, "export "@) {
        assert forall|j: int| 0 <= j < n implies bare[j] == "export "@[j] by {
            assert(bare.subrange(0, n)[j] == bare[j]);
        }
        if key.len() < 6 {
            let k = key.len() as int;
            if gap1.len() > 0 {
                assert(bare[k] == gap1[0]);
                assert(text::is_white(gap1[0]));
            } else {
                assert(bare[k] == '=');
            }
            assert("export "@[k] != '=' && !text::is_white("export "@[k]));
        } else if key.len() == 6 {
            assert forall|j: int| 0 <= j < 6 implies key[j] == "export"@[j] by {
                assert(bare[j] == key[j]);
            }
            assert(key =~= "export"@);
        } else {
            assert(bare[6] == key[6]);
            assert(text::is_white(' '));
        }
    }
    let k = (key.len() + gap1.len()) as int;
    assert forall|j: int| 0 <= j < k implies rest[j] != '=' by {
        if j < key.len() {
            assert(rest[j] == key[j]);
        } else {
            assert(rest[j] == gap1[j - key.len()]);
            assert(text::is_white(gap1[j - key.len()]));
        }
    }
    assert(rest[k] == '=');
    text::lemma_until(rest, '=', k);
    assert(rest.take(k) =~= key + gap1);
    assert(rest.skip(k + 1) =~= tail);
    assert(none + key + gap1 =~= key + gap1);
    assert(!text::is_white(key[key.len() - 1]));
    text::law_trimming_leaves_the_middle(none, key, gap1, white);
    lemma_value_is_read(gap2, quote, value);
}

/// A setting counts for its own key alone.
pub proof fn law_other_settings_stay(
    lines: Seq<Seq<char>>,
    line: Seq<char>,
    key: Seq<char>,
    other: Seq<char>,
)
    requires
        setting(line) matches Some(s) ==> s.0 == key,
        other != key,
    ensures
        settings(lines.push(line)).contains_key(other) <==> settings(lines).contains_key(other),
        settings(lines).contains_key(other) ==> settings(lines.push(line))[other]
            == settings(lines)[other],
{
    assert(lines.push(line).drop_last() =~= lines);
}

/// What the environment does not say, the file says, and where neither does there
/// is none.
pub proof fn law_the_file_fills_in(file: Map<Seq<char>, Seq<char>>, key: Seq<char>)
    ensures
        file.contains_key(key) ==> effective(None, file, key) == Some(file[key]),
        !file.contains_key(key) ==> effective(None, file, key) is None,
{
}

/// Settings are looked for in the working directory first, then beside the
/// program, then above it.
pub proof fn law_settings_files_in_order(cwd: Seq<char>, exe_dir: Seq<char>)
    ensures
        settings_files(Some(cwd), Some(exe_dir)) == settings_files(Some(cwd), None)
            + settings_files(None, Some(exe_dir)),
        settings_files(Some(cwd), None) == seq![browser::joined(cwd, ".env"@)],
        settings_files(None, Some(exe_dir)).len() == 2,
        settings_files(None, Some(exe_dir))[0] == browser::joined(exe_dir, ".env"@),
        settings_files(None, Some(exe_dir))[1] == browser::joined(exe_dir, "../../.env"@),
        settings_files(None, None).len() == 0,
{
    let a = settings_files(Some(cwd), None);
    assert(a =~= seq![browser::joined(cwd, ".env"@)]);
    assert(settings_files(Some(cwd), Some(exe_dir)) =~= a + settings_files(None, Some(exe_dir)));
}

} // verus!
