//! The chat overlay: its conversation log and its input line.

use serde_json::Value;
use vstd::prelude::*;

use crate::ai::client;
use crate::ai::client::{AiEvent, ToolCall};
use crate::ai::shell;
use crate::ai::shell::{int_arg, read_args, text_arg};
use crate::bytes;
use crate::bytes::{index_at, offset_of, text_len};
use crate::json;
use crate::json::Json;
use crate::text;
use crate::text::{from_chars, join_texts, same_text, signed_decimal_text, to_chars, trimmed};

verus! {

/// Who a chat entry comes from.
#[derive(PartialEq, Eq, Structural, Clone, Copy, Debug)]
pub enum Role {
    User,
    Assistant,
    Tool,
}

/// A visible chat entry in the conversation log.
pub struct ChatEntry {
    pub role: Role,
    pub text: String,
}

impl View for ChatEntry {
    type V = (Role, Seq<char>);

    open spec fn view(&self) -> (Role, Seq<char>) {
        (self.role, self.text@)
    }
}

/// The state of the chat overlay.
pub struct ChatState {
    pub open: bool,
    pub entries: Vec<ChatEntry>,
    pub input: String,
    /// Caret byte-offset within `input`.
    pub input_cursor: usize,
    /// True when the chat input has keyboard focus (vs a terminal pane).
    pub input_focused: bool,
    /// True while a turn is streaming (disables sending another).
    pub streaming: bool,
    /// Whether the assistant is available (config loaded).
    pub available: bool,
    /// True to snap to the newest content on the next render.
    pub stick_bottom: bool,
}

/// The characters that a word in the input line ends at: space, tab, line
/// feed, form feed and carriage return.
pub open spec fn is_ascii_white(c: char) -> bool {
    c == ' ' || c == '\t' || c == '\n' || c == '\u{c}' || c == '\r'
}

/// The greatest character boundary of `s` below byte offset `i`, or 0.
pub open spec fn prev_offset(s: Seq<char>, i: int) -> int
    decreases i,
{
    if i <= 1 {
        0
    } else if bytes::on_boundary(s, i - 1) {
        i - 1
    } else {
        prev_offset(s, i - 1)
    }
}

/// The least character boundary of `s` above byte offset `i`, which lies
/// before the end of `s`.
pub open spec fn next_offset(s: Seq<char>, i: int) -> int
    decreases bytes::byte_len(s) - i,
{
    if i >= bytes::byte_len(s) - 1 || bytes::on_boundary(s, i + 1) {
        i + 1
    } else {
        next_offset(s, i + 1)
    }
}

/// Where the line begins that ends with `s`: after its last line feed.
pub open spec fn line_start(s: Seq<char>) -> nat {
    text::trim_end_by(s, |c: char| c != '\n').len()
}

/// Where the word begins that ends with `s`.
pub open spec fn word_start(s: Seq<char>) -> nat {
    text::trim_end_by(s, |c: char| !is_ascii_white(c)).len()
}

/// What is left of `s` when the last word goes, and the white space after it.
pub open spec fn before_last_word(s: Seq<char>) -> nat {
    word_start(text::trim_end_by(s, |c: char| is_ascii_white(c)))
}

/// The text of the last entry of the assistant.
pub open spec fn last_said(log: Seq<(Role, Seq<char>)>) -> Option<Seq<char>>
    decreases log.len(),
{
    if log.len() == 0 {
        None
    } else if log.last().0 == Role::Assistant {
        Some(log.last().1)
    } else {
        last_said(log.drop_last())
    }
}

/// How a copied transcript names the author of an entry.
pub open spec fn role_tag(role: Role) -> Seq<char> {
    match role {
        Role::User => "You"@,
        Role::Assistant => "AI"@,
        Role::Tool => "tool"@,
    }
}

/// The line of a transcript for one entry.
pub open spec fn transcript_entry(e: (Role, Seq<char>)) -> Seq<char> {
    role_tag(e.0) + ": "@ + e.1
}

/// The log after the assistant has said `t`: more of the entry that it is at,
/// or a new entry.
pub open spec fn log_with_token(
    log: Seq<(Role, Seq<char>)>,
    t: Seq<char>,
) -> Seq<(Role, Seq<char>)> {
    if log.len() > 0 && log.last().0 == Role::Assistant {
        log.drop_last().push((Role::Assistant, log.last().1 + t))
    } else {
        log.push((Role::Assistant, t))
    }
}

/// The greatest character boundary of `s` below `i`.
pub fn prev_char_boundary(s: &str, i: usize) -> (r: usize)
    requires
        i > 0,
    ensures
        r == prev_offset(s@, i as int),
{
    let mut p: usize = i - 1;
    proof {
        bytes::lemma_boundary(s@, p as int);
    }
    while p > 0 && !s.is_char_boundary(p)
        invariant
            p < i,
            is_char_boundary_of(s@, p as int),
            prev_offset(s@, i as int) == (if bytes::on_boundary(s@, p as int) || p == 0 {
                p as int
            } else {
                prev_offset(s@, p as int)
            }),
        decreases p,
    {
        p = p - 1;
        proof {
            bytes::lemma_boundary(s@, p as int);
        }
    }
    p
}

/// That the two notions of a boundary agree at `i`.
spec fn is_char_boundary_of(s: Seq<char>, i: int) -> bool {
    vstd::utf8::is_char_boundary(vstd::utf8::encode_utf8(s), i) == bytes::on_boundary(s, i)
}

/// The least character boundary of `s` above `i`; `i + 1` where `i` is not
/// before the end of `s`.
pub fn next_char_boundary(s: &str, i: usize) -> (r: usize)
    requires
        i < usize::MAX,
    ensures
        r == next_offset(s@, i as int),
{
    let mut p: usize = i + 1;
    let n: usize = text_len(s);
    proof {
        bytes::lemma_boundary(s@, p as int);
    }
    while p < n && !s.is_char_boundary(p)
        invariant
            i < p,
            n == bytes::byte_len(s@),
            is_char_boundary_of(s@, p as int),
            next_offset(s@, i as int) == (if p >= n || bytes::on_boundary(s@, p as int) {
                p as int
            } else {
                next_offset(s@, p as int)
            }),
        decreases n - p,
    {
        p = p + 1;
        proof {
            bytes::lemma_boundary(s@, p as int);
        }
    }
    p
}

/// No boundary lies strictly between the beginnings of neighbouring characters.
proof fn lemma_no_boundary_inside(s: Seq<char>, k: int, i: int)
    requires
        0 < k <= s.len(),
        bytes::offset(s, k - 1) < i < bytes::offset(s, k),
    ensures
        !bytes::on_boundary(s, i),
{
    assert forall|j: int| 0 <= j <= s.len() implies #[trigger] bytes::offset(s, j) != i by {
        if j < k - 1 {
            bytes::lemma_offset_increases(s, j, k - 1);
        }
        if k < j {
            bytes::lemma_offset_increases(s, k, j);
        }
    }
}

/// The boundary before the beginning of character `k` is the beginning of the
/// character before it.
proof fn lemma_prev_offset(s: Seq<char>, k: int, i: int)
    requires
        0 < k <= s.len(),
        bytes::offset(s, k - 1) < i <= bytes::offset(s, k),
    ensures
        prev_offset(s, i) == bytes::offset(s, k - 1),
    decreases i,
{
    if i - 1 > bytes::offset(s, k - 1) {
        lemma_no_boundary_inside(s, k, i - 1);
        lemma_prev_offset(s, k, i - 1);
    } else {
        assert(bytes::on_boundary(s, i - 1));
    }
}

/// The boundary after the beginning of character `k` is the beginning of the
/// character after it.
proof fn lemma_next_offset(s: Seq<char>, k: int, i: int)
    requires
        0 < k <= s.len(),
        bytes::offset(s, k - 1) <= i < bytes::offset(s, k),
    ensures
        next_offset(s, i) == bytes::offset(s, k),
    decreases bytes::offset(s, k) - i,
{
    bytes::lemma_offset_ends(s);
    if k < s.len() {
        bytes::lemma_offset_increases(s, k, s.len() as int);
    }
    if i + 1 < bytes::offset(s, k) {
        lemma_no_boundary_inside(s, k, i + 1);
        lemma_next_offset(s, k, i + 1);
    } else {
        assert(bytes::on_boundary(s, i + 1));
    }
}

/// The boundary before an offset is a boundary, and lies in the text.
proof fn lemma_prev_is_boundary(s: Seq<char>, i: int)
    ensures
        bytes::on_boundary(s, prev_offset(s, i)),
        0 <= prev_offset(s, i) <= bytes::byte_len(s),
        i > 0 ==> prev_offset(s, i) < i,
    decreases i,
{
    bytes::lemma_offset_ends(s);
    assert(bytes::offset(s, 0) == 0);
    if i <= 1 {
    } else if bytes::on_boundary(s, i - 1) {
        bytes::lemma_boundary_index(s, i - 1);
    } else {
        lemma_prev_is_boundary(s, i - 1);
    }
}

impl ChatState {
    /// Whether the caret lies between two characters of the input, or at an
    /// end of it.
    pub open spec fn wf(self) -> bool {
        bytes::on_boundary(self.input@, self.input_cursor as int)
    }

    /// How many characters stand before the caret.
    pub open spec fn caret(self) -> int {
        bytes::char_index(self.input@, self.input_cursor as int) as int
    }

    /// The conversation log.
    pub open spec fn log(self) -> Seq<(Role, Seq<char>)> {
        self.entries@.map_values(|e: ChatEntry| e@)
    }

    /// Whether the two states differ in the input line alone.
    pub open spec fn same_but_input(self, other: ChatState) -> bool {
        &&& self.open == other.open
        &&& self.entries == other.entries
        &&& self.input_focused == other.input_focused
        &&& self.streaming == other.streaming
        &&& self.available == other.available
        &&& self.stick_bottom == other.stick_bottom
    }

    /// Whether this is `before` with the input `text` and the caret after its
    /// first `caret` characters.
    pub open spec fn edited(self, before: ChatState, text: Seq<char>, caret: int) -> bool {
        &&& self.same_but_input(before)
        &&& self.input@ == text
        &&& self.wf()
        &&& self.caret() == caret
        &&& self.input_cursor == bytes::offset(text, caret)
    }

    /// Whether this is `before` with another log, made to show its end.
    pub open spec fn logged(self, before: ChatState, log: Seq<(Role, Seq<char>)>) -> bool {
        &&& self.open == before.open
        &&& self.log() == log
        &&& self.input == before.input
        &&& self.input_cursor == before.input_cursor
        &&& self.input_focused == before.input_focused
        &&& self.streaming == before.streaming
        &&& self.available == before.available
        &&& self.stick_bottom
    }

    /// Whether this is `before` with `s` inserted at the caret.
    pub open spec fn did_insert(self, before: ChatState, s: Seq<char>) -> bool {
        let k = before.insertion_point();
        self.edited(before, before.input@.take(k) + s + before.input@.skip(k), k + s.len())
    }

    /// The character before which text is inserted: the one at the caret; a
    /// caret beyond the end counts as one at the end.
    pub open spec fn insertion_point(self) -> int {
        if self.input_cursor >= bytes::byte_len(self.input@) {
            self.input@.len() as int
        } else {
            self.caret()
        }
    }

    /// Whether this is `before` without the characters from `j` up to the
    /// caret.
    pub open spec fn did_cut(self, before: ChatState, j: int) -> bool {
        let k = before.caret();
        &&& 0 <= j <= k <= before.input@.len()
        &&& self.edited(before, before.input@.take(j) + before.input@.skip(k), j)
    }

    /// Whether this is `before` without the character before the caret.
    pub open spec fn did_backspace(self, before: ChatState) -> bool {
        if before.input_cursor == 0 {
            self == before
        } else {
            self.did_cut(before, before.caret() - 1)
        }
    }

    /// Whether this is `before` without the word before the caret.
    pub open spec fn did_delete_word(self, before: ChatState) -> bool {
        self.did_cut(before, before_last_word(before.input@.take(before.caret())) as int)
    }

    /// Whether this is `before` without the line up to the caret.
    pub open spec fn did_delete_line(self, before: ChatState) -> bool {
        self.did_cut(before, line_start(before.input@.take(before.caret())) as int)
    }

    /// Whether this is `before` with the caret before character `k`.
    pub open spec fn did_move(self, before: ChatState, k: int) -> bool {
        &&& self.edited(before, before.input@, k)
        &&& self.input == before.input
        &&& 0 <= k <= before.input@.len()
    }

    /// Whether this is `before` with the caret one character to the left.
    pub open spec fn did_move_left(self, before: ChatState) -> bool {
        let at = prev_offset(before.input@, before.input_cursor as int);
        &&& self.did_move(before, bytes::char_index(before.input@, at) as int)
        &&& self.input_cursor == at
    }

    /// Whether this is `before` with the caret one character to the right.
    pub open spec fn did_move_right(self, before: ChatState) -> bool {
        &&& self.same_but_input(before)
        &&& self.input == before.input
        &&& self.input_cursor == (if before.input_cursor < bytes::byte_len(before.input@) {
            next_offset(before.input@, before.input_cursor as int)
        } else {
            before.input_cursor as int
        })
        &&& before.wf() ==> self.did_move(
            before,
            if before.caret() < before.input@.len() {
                before.caret() + 1
            } else {
                before.caret()
            },
        )
    }

    /// Whether this is `before` with the caret moved over one character to the
    /// left, and on to the start of the word that it is then in.
    pub open spec fn did_move_word_left(self, before: ChatState) -> bool {
        let at = prev_offset(before.input@, before.input_cursor as int);
        let k = bytes::char_index(before.input@, at) as int;
        self.did_move(before, word_start(before.input@.take(k)) as int)
    }

    /// Whether this is `before` with the caret at the start of its line.
    pub open spec fn did_move_home(self, before: ChatState) -> bool {
        self.did_move(before, line_start(before.input@.take(before.caret())) as int)
    }

    /// Whether this is `before` with the caret at the end of its line.
    pub open spec fn did_move_end(self, before: ChatState) -> bool {
        self.did_move(
            before,
            before.caret() + text::until(before.input@.skip(before.caret()), '\n'),
        )
    }

    /// Whether this is `before` after its trimmed input was sent to the
    /// assistant.
    pub open spec fn did_send(self, before: ChatState) -> bool {
        &&& self.open == before.open
        &&& self.log() == before.log().push((Role::User, text::trim(before.input@)))
        &&& self.input@.len() == 0
        &&& self.input_cursor == 0
        &&& self.wf()
        &&& self.input_focused == before.input_focused
        &&& self.streaming
        &&& self.available == before.available
        &&& self.stick_bottom
    }

    /// Whether there is something to send, and nothing being answered.
    pub open spec fn can_send(self) -> bool {
        text::trim(self.input@).len() > 0 && !self.streaming
    }

    /// Whether this is `before` with the given focus.
    pub open spec fn did_focus(self, before: ChatState, open: bool, focused: bool) -> bool {
        &&& self.open == open
        &&& self.input_focused == focused
        &&& self.entries == before.entries
        &&& self.input == before.input
        &&& self.input_cursor == before.input_cursor
        &&& self.streaming == before.streaming
        &&& self.available == before.available
        &&& self.stick_bottom == before.stick_bottom
    }

    /// A closed overlay with an empty log and an empty input.
    pub fn new(available: bool) -> (r: Self)
        ensures
            r.wf(),
            r.caret() == 0,
            r.input_cursor == 0,
            r.input@.len() == 0,
            r.log().len() == 0,
            !r.open,
            !r.input_focused,
            !r.streaming,
            r.available == available,
            r.stick_bottom,
    {
        let r = ChatState {
            open: false,
            entries: Vec::new(),
            input: String::new(),
            input_cursor: 0,
            input_focused: false,
            streaming: false,
            available,
            stick_bottom: true,
        };
        proof {
            bytes::lemma_offset_ends(r.input@);
            assert(bytes::offset(r.input@, 0) == 0);
        }
        r
    }

    /// The most recent assistant message text, for copying.
    pub fn last_assistant_text(&self) -> (r: Option<String>)
        ensures
            match last_said(self.log()) {
                Some(t) if t.len() > 0 => r matches Some(x) && x@ == t,
                _ => r is None,
            },
    {
        let mut i: usize = self.entries.len();
        assert(self.log().take(i as int) =~= self.log());
        while i > 0
            invariant
                i <= self.entries.len(),
                last_said(self.log()) == last_said(self.log().take(i as int)),
            decreases i,
        {
            let e: &ChatEntry = &self.entries[i - 1];
            proof {
                assert(self.log().take(i as int).last() == e@);
                assert(self.log().take(i as int).drop_last() =~= self.log().take(i - 1));
            }
            if e.role == Role::Assistant {
                if e.text.as_str().is_empty() {
                    return None;
                }
                return Some(e.text.clone());
            }
            i = i - 1;
        }
        None
    }

    /// The full visible transcript (user, assistant and tool lines), for
    /// copying the whole conversation.
    pub fn transcript_text(&self) -> (r: String)
        ensures
            r@ == text::join(
                self.log().map_values(|e: (Role, Seq<char>)| transcript_entry(e)),
                "\n\n"@,
            ),
    {
        let mut parts: Vec<String> = Vec::new();
        let n: usize = self.entries.len();
        let ghost want = self.log().map_values(|e: (Role, Seq<char>)| transcript_entry(e));
        let mut i: usize = 0;
        while i < n
            invariant
                i <= n,
                n == self.entries.len(),
                want == self.log().map_values(|e: (Role, Seq<char>)| transcript_entry(e)),
                text::views(parts@) == want.take(i as int),
            decreases n - i,
        {
            let e: &ChatEntry = &self.entries[i];
            let mut line: String = String::new();
            match e.role {
                Role::User => line.append("You"),
                Role::Assistant => line.append("AI"),
                Role::Tool => line.append("tool"),
            }
            line.append(": ");
            line.append(e.text.as_str());
            let ghost before = parts@;
            parts.push(line);
            proof {
                assert(line@ =~= transcript_entry(e@));
                assert(text::views(parts@) =~= text::views(before).push(line@));
                assert(want.take(i + 1) =~= want.take(i as int).push(want[i as int]));
            }
            i = i + 1;
        }
        assert(want.take(n as int) =~= want);
        join_texts(&parts, "\n\n")
    }

    /// Appends streamed text to the current assistant entry (or starts one).
    pub fn push_assistant_token(&mut self, t: &str)
        ensures
            final(self).logged(*old(self), log_with_token(old(self).log(), t@)),
    {
        self.stick_bottom = true;
        let n: usize = self.entries.len();
        let ghost log = self.log();
        if n > 0 && self.entries[n - 1].role == Role::Assistant {
            let last = self.entries.pop();
            if let Some(mut e) = last {
                e.text.append(t);
                self.entries.push(e);
                proof {
                    assert(self.log() =~= log_with_token(log, t@));
                }
            }
        } else {
            self.push_entry(Role::Assistant, t.to_owned());
        }
    }

    fn push_entry(&mut self, role: Role, text: String)
        ensures
            final(self).logged(*old(self), old(self).log().push((role, text@))),
    {
        let ghost log = self.log();
        self.stick_bottom = true;
        self.entries.push(ChatEntry { role, text });
        assert(self.log() =~= log.push((role, text@)));
    }

    /// Logs what the user said.
    pub fn push_user(&mut self, text: String)
        ensures
            final(self).logged(*old(self), old(self).log().push((Role::User, text@))),
    {
        self.push_entry(Role::User, text)
    }

    /// Logs what a tool does.
    pub fn push_tool(&mut self, text: String)
        ensures
            final(self).logged(*old(self), old(self).log().push((Role::Tool, text@))),
    {
        self.push_entry(Role::Tool, text)
    }

    /// Puts `s` in the place of the characters of the input from `from` up to
    /// `to`, and the caret after it.
    fn splice(&mut self, v: &Vec<char>, from: usize, to: usize, s: &str)
        requires
            v@ == old(self).input@,
            from <= to <= v.len(),
        ensures
            final(self).edited(
                *old(self),
                old(self).input@.take(from as int) + s@ + old(self).input@.skip(to as int),
                from + s@.len(),
            ),
    {
        // The length of a text fits a `usize`.
        let _room: usize = text_len(self.input.as_str());
        let mut input: String = from_chars(v, 0, from);
        input.append(s);
        let tail: String = from_chars(v, to, v.len());
        input.append(tail.as_str());
        let ghost text = v@.take(from as int) + s@ + v@.skip(to as int);
        let ghost caret = from + s@.len();
        proof {
            assert(v@.subrange(0, from as int) =~= v@.take(from as int));
            assert(v@.subrange(to as int, v@.len() as int) =~= v@.skip(to as int));
            assert(input@ =~= text);
            assert(text.take(caret) =~= v@.take(from as int) + s@);
            bytes::lemma_encode_concat(v@.take(from as int), s@);
            bytes::lemma_offset_ends(text);
            if caret < text.len() {
                bytes::lemma_offset_increases(text, caret, text.len() as int);
            }
            bytes::lemma_char_index(text, caret);
            bytes::lemma_offset_ends(v@);
        }
        let whole: usize = text_len(input.as_str());
        let at: usize = offset_of(v, from);
        assert(bytes::offset(text, caret) <= whole);
        self.input = input;
        self.input_cursor = at + text_len(s);
        assert(bytes::on_boundary(text, bytes::offset(text, caret) as int));
    }

    /// Inserts a string at the caret; a caret beyond the end counts as one at
    /// the end.
    pub fn insert(&mut self, s: &str)
        requires
            old(self).wf() || old(self).input_cursor >= bytes::byte_len(old(self).input@),
        ensures
            final(self).did_insert(*old(self), s@),
    {
        let v: Vec<char> = to_chars(self.input.as_str());
        let n: usize = text_len(self.input.as_str());
        let at: usize = if self.input_cursor >= n {
            n
        } else {
            self.input_cursor
        };
        proof {
            bytes::lemma_offset_ends(v@);
            assert(bytes::offset(v@, v@.len() as int) == n);
            bytes::lemma_char_index(v@, v@.len() as int);
        }
        let k: usize = index_at(&v, at);
        self.splice(&v, k, k, s);
    }

    /// Deletes the character before the caret (Backspace).
    pub fn backspace(&mut self)
        requires
            old(self).wf(),
        ensures
            final(self).did_backspace(*old(self)),
    {
        if self.input_cursor == 0 {
            return;
        }
        let v: Vec<char> = to_chars(self.input.as_str());
        let k: usize = index_at(&v, self.input_cursor);
        proof {
            bytes::lemma_offset_ends(v@);
            if k == 0 {
                assert(bytes::offset(v@, 0) == self.input_cursor);
            }
        }
        self.splice(&v, k - 1, k, "");
        proof {
            reveal_strlit("");
            assert(v@.take(k - 1) + ""@ + v@.skip(k as int) =~= v@.take(k - 1) + v@.skip(
                k as int,
            ));
        }
    }

    /// Deletes the word before the caret (Option+Backspace): the white space
    /// directly before it, and the characters before that down to the next
    /// white space.
    pub fn delete_word(&mut self)
        requires
            old(self).wf(),
        ensures
            final(self).did_delete_word(*old(self)),
    {
        let v: Vec<char> = to_chars(self.input.as_str());
        let k: usize = index_at(&v, self.input_cursor);
        let i: usize = skip_white_back(&v, k);
        let j: usize = skip_word_back(&v, i);
        proof {
            assert(v@.take(k as int).take(i as int) =~= v@.take(i as int));
        }
        self.splice(&v, j, k, "");
        proof {
            reveal_strlit("");
            assert(v@.take(j as int) + ""@ + v@.skip(k as int) =~= v@.take(j as int) + v@.skip(
                k as int,
            ));
        }
    }

    /// Deletes from the caret to the start of the line (Cmd+Backspace).
    pub fn delete_to_line_start(&mut self)
        requires
            old(self).wf(),
        ensures
            final(self).did_delete_line(*old(self)),
    {
        let v: Vec<char> = to_chars(self.input.as_str());
        let k: usize = index_at(&v, self.input_cursor);
        let j: usize = skip_line_back(&v, k);
        self.splice(&v, j, k, "");
        proof {
            reveal_strlit("");
            assert(v@.take(j as int) + ""@ + v@.skip(k as int) =~= v@.take(j as int) + v@.skip(
                k as int,
            ));
        }
    }

    /// Moves the caret before character `k` of the input.
    fn place(&mut self, v: &Vec<char>, k: usize)
        requires
            v@ == old(self).input@,
            k <= v.len(),
        ensures
            final(self).did_move(*old(self), k as int),
    {
        // The length of a text fits a `usize`.
        let _room: usize = text_len(self.input.as_str());
        self.input_cursor = offset_of(v, k);
        proof {
            bytes::lemma_char_index(v@, k as int);
            assert(bytes::on_boundary(v@, bytes::offset(v@, k as int) as int));
        }
    }

    /// Moves the caret one character to the left.
    pub fn move_left(&mut self)
        ensures
            final(self).did_move_left(*old(self)),
            old(self).wf() ==> final(self).caret() == (if old(self).caret() > 0 {
                old(self).caret() - 1
            } else {
                0
            }),
    {
        let ghost s = self.input@;
        let ghost i = self.input_cursor as int;
        if self.input_cursor > 0 {
            self.input_cursor = prev_char_boundary(self.input.as_str(), self.input_cursor);
        }
        proof {
            lemma_prev_is_boundary(s, i);
            bytes::lemma_boundary_index(s, prev_offset(s, i));
            bytes::lemma_offset_ends(s);
            if bytes::on_boundary(s, i) {
                bytes::lemma_boundary_index(s, i);
                let k = bytes::char_index(s, i) as int;
                if k > 0 {
                    bytes::lemma_offset_increases(s, k - 1, k);
                    lemma_prev_offset(s, k, i);
                    bytes::lemma_char_index(s, k - 1);
                }
            }
        }
    }

    /// Moves the caret one character to the right.
    pub fn move_right(&mut self)
        ensures
            final(self).did_move_right(*old(self)),
    {
        let ghost s = self.input@;
        let ghost i = self.input_cursor as int;
        if self.input_cursor < text_len(self.input.as_str()) {
            self.input_cursor = next_char_boundary(self.input.as_str(), self.input_cursor);
        }
        proof {
            bytes::lemma_offset_ends(s);
            if bytes::on_boundary(s, i) {
                bytes::lemma_boundary_index(s, i);
                let k = bytes::char_index(s, i) as int;
                if k < s.len() {
                    bytes::lemma_offset_increases(s, k, k + 1);
                    bytes::lemma_offset_increases(s, k, s.len() as int);
                    lemma_next_offset(s, k + 1, i);
                    bytes::lemma_char_index(s, k + 1);
                    assert(bytes::on_boundary(s, bytes::offset(s, k + 1) as int));
                }
            }
        }
    }

    /// Moves the caret to the left over one character, and on to the start of
    /// the word that it is then in (Option+Left).
    pub fn move_word_left(&mut self)
        ensures
            final(self).did_move_word_left(*old(self)),
    {
        self.move_left();
        let v: Vec<char> = to_chars(self.input.as_str());
        let k: usize = index_at(&v, self.input_cursor);
        let j: usize = skip_word_back(&v, k);
        self.place(&v, j);
    }

    /// Moves the caret to the start of its line.
    pub fn move_home(&mut self)
        requires
            old(self).wf(),
        ensures
            final(self).did_move_home(*old(self)),
    {
        let v: Vec<char> = to_chars(self.input.as_str());
        let k: usize = index_at(&v, self.input_cursor);
        let j: usize = skip_line_back(&v, k);
        self.place(&v, j);
    }

    /// Moves the caret to the end of its line.
    pub fn move_end(&mut self)
        requires
            old(self).wf(),
        ensures
            final(self).did_move_end(*old(self)),
    {
        let v: Vec<char> = to_chars(self.input.as_str());
        let k: usize = index_at(&v, self.input_cursor);
        let j: usize = text::find_char(&v, k, v.len(), '\n');
        assert(v@.subrange(k as int, v@.len() as int) =~= v@.skip(k as int));
        self.place(&v, j);
    }

    /// Takes the input as a message to the assistant: the text to send, unless
    /// it is blank or an answer is still streaming.
    pub fn begin_send(&mut self) -> (r: Option<String>)
        ensures
            match r {
                Some(t) => {
                    &&& old(self).can_send()
                    &&& t@ == text::trim(old(self).input@)
                    &&& final(self).did_send(*old(self))
                },
                None => !old(self).can_send() && *final(self) == *old(self),
            },
    {
        let t: String = trimmed(self.input.as_str());
        if t.as_str().is_empty() || self.streaming {
            return None;
        }
        self.clear_input();
        self.push_user(t.clone());
        self.streaming = true;
        Some(t)
    }

    /// Empties the input.
    pub fn clear_input(&mut self)
        ensures
            final(self).edited(*old(self), Seq::<char>::empty(), 0),
    {
        self.input = String::new();
        self.input_cursor = 0;
        proof {
            bytes::lemma_offset_ends(self.input@);
            assert(bytes::offset(self.input@, 0) == 0);
        }
    }
}

/// The position after the last line feed before position `k`.
fn skip_line_back(v: &Vec<char>, k: usize) -> (r: usize)
    requires
        k <= v.len(),
    ensures
        r <= k,
        r == line_start(v@.take(k as int)),
{
    let ghost p = |c: char| c != '\n';
    let mut j: usize = k;
    while j > 0 && v[j - 1] != '\n'
        invariant
            j <= k <= v.len(),
            forall|i: int| j <= i < k ==> v@[i] != '\n',
        decreases j,
    {
        j = j - 1;
    }
    proof {
        text::lemma_trim_end(v@.take(k as int), p, j as int);
    }
    j
}

/// Whether `c` is one of the characters that a word ends at.
fn ascii_white(c: char) -> (r: bool)
    ensures
        r == is_ascii_white(c),
{
    c == ' ' || c == '\t' || c == '\n' || c == '\u{c}' || c == '\r'
}

/// The position before the white space that ends at position `k`.
fn skip_white_back(v: &Vec<char>, k: usize) -> (r: usize)
    requires
        k <= v.len(),
    ensures
        r <= k,
        v@.take(r as int) == text::trim_end_by(v@.take(k as int), |c: char| is_ascii_white(c)),
{
    let ghost p = |c: char| is_ascii_white(c);
    let mut j: usize = k;
    while j > 0 && ascii_white(v[j - 1])
        invariant
            j <= k <= v.len(),
            forall|i: int| j <= i < k ==> is_ascii_white(v@[i]),
        decreases j,
    {
        j = j - 1;
    }
    proof {
        text::lemma_trim_end(v@.take(k as int), p, j as int);
        assert(v@.take(k as int).take(j as int) =~= v@.take(j as int));
    }
    j
}

/// The position before the word that ends at position `k`.
fn skip_word_back(v: &Vec<char>, k: usize) -> (r: usize)
    requires
        k <= v.len(),
    ensures
        r <= k,
        r == word_start(v@.take(k as int)),
{
    let ghost p = |c: char| !is_ascii_white(c);
    let mut j: usize = k;
    while j > 0 && !ascii_white(v[j - 1])
        invariant
            j <= k <= v.len(),
            forall|i: int| j <= i < k ==> !is_ascii_white(v@[i]),
        decreases j,
    {
        j = j - 1;
    }
    proof {
        text::lemma_trim_end(v@.take(k as int), p, j as int);
    }
    j
}

/// The pane that a call names, as it is shown; -1 where it names none.
pub open spec fn shown_pane(args: Json) -> Seq<char> {
    match json::int_of(shell::arg(args, "pane"@)) {
        Some(n) => text::signed_decimal(n as int),
        None => text::signed_decimal(-1),
    }
}

/// A text argument of a call, as it is shown; a question mark where it has none.
pub open spec fn shown_text(args: Json, key: Seq<char>) -> Seq<char> {
    match shell::arg_text(args, key) {
        Some(s) => s,
        None => "?"@,
    }
}

/// The line that shows a call of the tool `name`.
pub open spec fn summary(name: Seq<char>, args: Json) -> Seq<char> {
    if name == "run_command"@ {
        "$ "@ + shown_text(args, "command"@) + " (pane "@ + shown_pane(args) + ")"@
    } else if name == "read_pane"@ {
        "read pane "@ + shown_pane(args)
    } else if name == "send_keys"@ {
        "send keys to pane "@ + shown_pane(args)
    } else if name == "grep_pane"@ {
        "grep '"@ + shown_text(args, "pattern"@) + "' in pane "@ + shown_pane(args)
    } else if name == "list_panes"@ {
        "list panes"@
    } else {
        name
    }
}

fn pane_shown(args: &Value) -> (r: String)
    ensures
        r@ == shown_pane(json::json_of(*args)),
{
    match int_arg(args, "pane") {
        Some(n) => signed_decimal_text(n),
        None => signed_decimal_text(-1),
    }
}

fn text_shown(args: &Value, key: &str) -> (r: String)
    ensures
        r@ == shown_text(json::json_of(*args), key@),
{
    match text_arg(args, key) {
        Some(s) => s,
        None => "?".to_owned(),
    }
}

/// The line that shows a call of the tool `name` with the given arguments.
pub fn summary_of(name: &str, args: &Value) -> (r: String)
    ensures
        r@ == summary(name@, json::json_of(*args)),
{
    if same_text(name, "run_command") {
        let mut r: String = "$ ".to_owned();
        r.append(text_shown(args, "command").as_str());
        r.append(" (pane ");
        r.append(pane_shown(args).as_str());
        r.append(")");
        r
    } else if same_text(name, "read_pane") {
        let mut r: String = "read pane ".to_owned();
        r.append(pane_shown(args).as_str());
        r
    } else if same_text(name, "send_keys") {
        let mut r: String = "send keys to pane ".to_owned();
        r.append(pane_shown(args).as_str());
        r
    } else if same_text(name, "grep_pane") {
        let mut r: String = "grep '".to_owned();
        r.append(text_shown(args, "pattern").as_str());
        r.append("' in pane ");
        r.append(pane_shown(args).as_str());
        r
    } else if same_text(name, "list_panes") {
        "list panes".to_owned()
    } else {
        name.to_owned()
    }
}

/// Short human-readable description of a tool call for the chat log.
pub fn tool_summary(tc: &ToolCall) -> (r: String)
    ensures
        r@ == summary(tc@.name, shell::args_json(tc@.arguments)),
{
    let args: Value = read_args(tc.arguments.as_str());
    summary_of(tc.name.as_str(), &args)
}

/// A boundary behind the beginning of a text is one of the rest.
proof fn lemma_boundary_behind(head: Seq<char>, s: Seq<char>, i: int)
    requires
        bytes::on_boundary(head + s, i),
        i >= bytes::byte_len(head),
    ensures
        bytes::on_boundary(s, i - bytes::byte_len(head)),
        i - bytes::byte_len(head) <= bytes::byte_len(s),
{
    let all = head + s;
    bytes::lemma_boundary_index(all, i);
    bytes::lemma_encode_concat(head, s);
    let k = bytes::char_index(all, i) as int;
    assert(all.take(head.len() as int) =~= head);
    if k < head.len() {
        bytes::lemma_offset_increases(all, k, head.len() as int);
    }
    assert(all.take(k) =~= head + s.take(k - head.len()));
    bytes::lemma_encode_concat(head, s.take(k - head.len()));
    assert(bytes::offset(s, k - head.len()) == i - bytes::byte_len(head));
}

impl ChatState {
    /// Puts the caret where a click leads, as a byte offset in the input with the
    /// prompt before it; a click on the prompt leads to the beginning.
    pub fn place_caret(&mut self, off: usize)
        requires
            bytes::on_boundary("› "@ + old(self).input@, off as int),
        ensures
            final(self).wf(),
            final(self).same_but_input(*old(self)),
            final(self).input@ == old(self).input@,
            final(self).input_cursor == (if off > 4 {
                off - 4
            } else {
                0
            }),
    {
        let len: usize = text_len(self.input.as_str());
        let at: usize = off.saturating_sub(4);
        proof {
            reveal_strlit("› ");
            let head = "› "@;
            bytes::lemma_offset_ends(head);
            bytes::lemma_offset_step(head, 0);
            bytes::lemma_offset_step(head, 1);
            bytes::lemma_width(head[0]);
            bytes::lemma_width(head[1]);
            assert(bytes::byte_len(head) == 4);
            bytes::lemma_offset_ends(self.input@);
            if off >= 4 {
                lemma_boundary_behind(head, self.input@, off as int);
            } else {
                assert(bytes::offset(self.input@, 0) == 0);
            }
        }
        self.input_cursor = if at < len {
            at
        } else {
            len
        };
    }

    /// Whether this is the state after the agent reported `event`: what it says
    /// and which tools it uses goes to the log; a turn that is done or has failed
    /// streams no more.
    pub open spec fn did_hear(self, before: ChatState, event: client::EventView) -> bool {
        match event {
            client::EventView::Token(t) => self.logged(before, log_with_token(before.log(), t)),
            client::EventView::ToolCall(c) => self.logged(
                before,
                before.log().push((Role::Tool, summary(c.name, shell::args_json(c.arguments)))),
            ),
            client::EventView::ExecPaneTool(_) => self == before,
            client::EventView::Done => self == (ChatState { streaming: false, ..before }),
            client::EventView::Error(e) => {
                &&& !self.streaming
                &&& (ChatState { streaming: before.streaming, ..self }).logged(
                    before,
                    log_with_token(before.log(), "\n[error: "@ + e + "]"@),
                )
            },
        }
    }

    /// Takes note of what the agent reports. Returns the call that is to be run
    /// for it in a pane, if it wants one.
    pub fn hear(&mut self, event: AiEvent) -> (r: Option<ToolCall>)
        ensures
            final(self).did_hear(*old(self), event@),
            match r {
                Some(c) => event@ == client::EventView::ExecPaneTool(c@),
                None => !(event@ is ExecPaneTool),
            },
    {
        match event {
            AiEvent::Token(t) => {
                self.push_assistant_token(t.as_str());
                None
            },
            AiEvent::ToolCall(c) => {
                self.push_tool(tool_summary(&c));
                None
            },
            AiEvent::ExecPaneTool(c) => Some(c),
            AiEvent::Done => {
                self.streaming = false;
                None
            },
            AiEvent::Error(e) => {
                let mut t: String = "\n[error: ".to_owned();
                t.append(e.as_str());
                t.append("]");
                self.push_assistant_token(t.as_str());
                self.streaming = false;
                None
            },
        }
    }
}

/// A piece of an answer that comes in two parts is shown as if it had come in
/// one.
pub proof fn law_tokens_join(log: Seq<(Role, Seq<char>)>, a: Seq<char>, b: Seq<char>)
    ensures
        log_with_token(log_with_token(log, a), b) == log_with_token(log, a + b),
{
    let once = log_with_token(log, a);
    if log.len() > 0 && log.last().0 == Role::Assistant {
        assert(log.last().1 + a + b =~= log.last().1 + (a + b));
        assert(once.drop_last() =~= log.drop_last());
    } else {
        assert(once.drop_last() =~= log);
    }
    assert(log_with_token(once, b) =~= log_with_token(log, a + b));
}

/// A caret that is well-placed stands where text is inserted.
proof fn lemma_insertion_point(s: ChatState)
    requires
        s.wf(),
    ensures
        s.insertion_point() == s.caret(),
        0 <= s.caret() <= s.input@.len(),
        s.input_cursor == bytes::offset(s.input@, s.caret()),
{
    bytes::lemma_boundary_index(s.input@, s.input_cursor as int);
    bytes::lemma_offset_ends(s.input@);
    if s.input_cursor >= bytes::byte_len(s.input@) {
        bytes::lemma_char_index(s.input@, s.input@.len() as int);
    }
}

/// Backspace takes back a character that was just typed.
pub proof fn law_backspace_undoes_typing(a: ChatState, b: ChatState, c: ChatState, ch: char)
    requires
        a.wf(),
        b.did_insert(a, seq![ch]),
        c.did_backspace(b),
    ensures
        c.input@ == a.input@,
        c.caret() == a.caret(),
        c.same_but_input(a),
{
    lemma_insertion_point(a);
    let k = a.caret();
    bytes::lemma_offset_ends(b.input@);
    bytes::lemma_offset_increases(b.input@, 0, k + 1);
    assert(b.input@.take(k) + b.input@.skip(k + 1) =~= a.input@);
}

/// To type two texts one after the other is to type them as one.
pub proof fn law_typing_in_pieces(
    a: ChatState,
    b: ChatState,
    c: ChatState,
    d: ChatState,
    s: Seq<char>,
    t: Seq<char>,
)
    requires
        a.wf(),
        b.did_insert(a, s),
        c.did_insert(b, t),
        d.did_insert(a, s + t),
    ensures
        c.input@ == d.input@,
        c.caret() == d.caret(),
{
    lemma_insertion_point(a);
    lemma_insertion_point(b);
    let k = a.caret();
    let m = k + s.len();
    assert(b.input@.take(m) =~= a.input@.take(k) + s);
    assert(b.input@.skip(m) =~= a.input@.skip(k));
    assert(c.input@ =~= d.input@);
}

/// To the right and then to the left leads back, unless the caret was at the
/// end.
pub proof fn law_left_undoes_right(a: ChatState, b: ChatState, c: ChatState)
    requires
        a.wf(),
        a.caret() < a.input@.len(),
        b.did_move_right(a),
        c.did_move_left(b),
    ensures
        c.input@ == a.input@,
        c.caret() == a.caret(),
        c.input_cursor == a.input_cursor,
{
    lemma_insertion_point(a);
    let s = a.input@;
    let k = a.caret();
    bytes::lemma_offset_increases(s, k, k + 1);
    lemma_prev_offset(s, k + 1, bytes::offset(s, k + 1) as int);
    bytes::lemma_char_index(s, k);
}

/// Deleting the line up to the caret and deleting the word before it leave what
/// stands behind the caret.
pub proof fn law_deleting_keeps_what_follows(a: ChatState, b: ChatState)
    requires
        a.wf(),
        b.did_delete_word(a) || b.did_delete_line(a) || b.did_backspace(a),
    ensures
        b.input@.skip(b.caret()) == a.input@.skip(a.caret()),
        b.input@.take(b.caret()).is_prefix_of(a.input@),
{
    lemma_insertion_point(a);
    let k = a.caret();
    let j = b.caret();
    assert(b.input@.skip(j) =~= a.input@.skip(k));
    assert(b.input@.take(j) =~= a.input@.take(j));
}

/// While an answer streams, nothing can be sent.
pub proof fn law_one_request_at_a_time(s: ChatState)
    requires
        s.streaming,
    ensures
        !s.can_send(),
{
}

/// What is typed goes in at the caret, whole: what stood before the caret stays
/// before it, what stood behind it stays behind it, and the caret comes to stand
/// behind what was typed. Nothing else changes.
pub proof fn law_typing_goes_in_at_the_caret(a: ChatState, b: ChatState, s: Seq<char>)
    requires
        a.wf(),
        b.did_insert(a, s),
    ensures
        b.input@.len() == a.input@.len() + s.len(),
        b.input@.take(a.caret()) == a.input@.take(a.caret()),
        b.input@.subrange(a.caret(), b.caret()) == s,
        b.input@.skip(b.caret()) == a.input@.skip(a.caret()),
        b.caret() == a.caret() + s.len(),
        b.same_but_input(a),
        b.wf(),
{
    lemma_insertion_point(a);
    let k = a.caret();
    assert(b.input@.take(k) =~= a.input@.take(k));
    assert(b.input@.subrange(k, k + s.len()) =~= s);
    assert(b.input@.skip(k + s.len()) =~= a.input@.skip(k));
}

/// Backspace deletes the one character before the caret, and nothing where there
/// is none.
pub proof fn law_backspace_deletes_one(a: ChatState, b: ChatState)
    requires
        a.wf(),
        b.did_backspace(a),
    ensures
        a.caret() == 0 ==> b.input@ == a.input@ && b.caret() == 0,
        a.caret() > 0 ==> b.input@ == a.input@.remove(a.caret() - 1) && b.caret() == a.caret() - 1,
        b.same_but_input(a),
{
    lemma_insertion_point(a);
    bytes::lemma_offset_ends(a.input@);
    if a.input_cursor == 0 {
        if a.caret() > 0 {
            bytes::lemma_offset_increases(a.input@, 0, a.caret());
        }
    } else {
        assert(a.caret() > 0);
        assert(b.input@ =~= a.input@.remove(a.caret() - 1));
    }
}

/// Where a word and where a line begins: behind the last blank, and behind the
/// last line feed, before the end.
pub proof fn law_words_and_lines_begin(s: Seq<char>)
    ensures
        word_start(s) <= s.len(),
        forall|k: int| word_start(s) <= k < s.len() ==> !is_ascii_white(#[trigger] s[k]),
        word_start(s) > 0 ==> is_ascii_white(s[word_start(s) - 1]),
        line_start(s) <= s.len(),
        forall|k: int| line_start(s) <= k < s.len() ==> #[trigger] s[k] != '\n',
        line_start(s) > 0 ==> s[line_start(s) - 1] == '\n',
{
    text::lemma_trim_end_by(s, |c: char| !is_ascii_white(c));
    text::lemma_trim_end_by(s, |c: char| c != '\n');
}

/// The last word goes with the blanks behind it, and nothing more: what goes is
/// a stretch without blanks and then blanks, and before it stands a blank or
/// nothing.
pub proof fn law_the_last_word_goes(s: Seq<char>)
    ensures
        before_last_word(s) <= s.len(),
        before_last_word(s) > 0 ==> is_ascii_white(s[before_last_word(s) - 1]),
        exists|m: int|
            before_last_word(s) <= m <= s.len() && (forall|k: int|
                before_last_word(s) <= k < m ==> !is_ascii_white(#[trigger] s[k])) && (forall|k: int|
                m <= k < s.len() ==> is_ascii_white(#[trigger] s[k])) && (m > 0
                ==> #[trigger] before_word_end(s, m)),
{
    let white = |c: char| is_ascii_white(c);
    let t = text::trim_end_by(s, white);
    text::lemma_trim_end_by(s, white);
    law_words_and_lines_begin(t);
    let m = t.len() as int;
    let j = before_last_word(s) as int;
    assert forall|k: int| j <= k < m implies !is_ascii_white(#[trigger] s[k]) by {
        assert(t[k] == s[k]);
    }
    if j > 0 {
        assert(t[j - 1] == s[j - 1]);
    }
    assert(m > 0 ==> before_word_end(s, m));
}

/// Whether the character before position `m` belongs to a word.
pub open spec fn before_word_end(s: Seq<char>, m: int) -> bool {
    !is_ascii_white(s[m - 1])
}

/// Deleting a word or a line takes away what stands between its beginning and
/// the caret, which comes to stand there.
pub proof fn law_words_and_lines_are_deleted(a: ChatState, b: ChatState)
    requires
        a.wf(),
    ensures
        b.did_delete_word(a) ==> {
            &&& b.caret() == before_last_word(a.input@.take(a.caret()))
            &&& b.input@ == a.input@.take(b.caret()) + a.input@.skip(a.caret())
            &&& b.same_but_input(a)
        },
        b.did_delete_line(a) ==> {
            &&& b.caret() == line_start(a.input@.take(a.caret()))
            &&& b.input@ == a.input@.take(b.caret()) + a.input@.skip(a.caret())
            &&& b.same_but_input(a)
        },
{
}

/// The caret moves by one character, if there is one: to the left and to the
/// right. The text stays as it is.
pub proof fn law_the_caret_moves_by_one(a: ChatState, b: ChatState)
    requires
        a.wf(),
    ensures
        b.did_move_left(a) ==> b.input@ == a.input@ && b.same_but_input(a) && b.caret() == (
        if a.caret() > 0 {
            a.caret() - 1
        } else {
            0
        }),
        b.did_move_right(a) ==> b.input@ == a.input@ && b.same_but_input(a) && b.caret() == (
        if a.caret() < a.input@.len() {
            a.caret() + 1
        } else {
            a.caret()
        }),
{
    lemma_insertion_point(a);
    let s = a.input@;
    let k = a.caret();
    bytes::lemma_offset_ends(s);
    if k > 0 {
        bytes::lemma_offset_increases(s, k - 1, k);
        lemma_prev_offset(s, k, bytes::offset(s, k) as int);
        bytes::lemma_char_index(s, k - 1);
    } else {
        bytes::lemma_char_index(s, 0);
    }
}

/// Home and End lead to the ends of the line that the caret is in: no line feed
/// lies between, and one or nothing beyond.
pub proof fn law_the_caret_moves_within_its_line(a: ChatState, b: ChatState)
    requires
        a.wf(),
    ensures
        b.did_move_home(a) ==> {
            &&& b.input@ == a.input@
            &&& 0 <= b.caret() <= a.caret()
            &&& forall|k: int| b.caret() <= k < a.caret() ==> #[trigger] a.input@[k] != '\n'
            &&& b.caret() > 0 ==> a.input@[b.caret() - 1] == '\n'
        },
        b.did_move_end(a) ==> {
            &&& b.input@ == a.input@
            &&& a.caret() <= b.caret() <= a.input@.len()
            &&& forall|k: int| a.caret() <= k < b.caret() ==> #[trigger] a.input@[k] != '\n'
            &&& b.caret() < a.input@.len() ==> a.input@[b.caret()] == '\n'
        },
{
    lemma_insertion_point(a);
    let k0 = a.caret();
    let head = a.input@.take(k0);
    let tail = a.input@.skip(k0);
    law_words_and_lines_begin(head);
    text::lemma_until_bounds(tail, '\n');
    if b.did_move_home(a) {
        assert forall|k: int| b.caret() <= k < k0 implies #[trigger] a.input@[k] != '\n' by {
            assert(head[k] == a.input@[k]);
        }
        if b.caret() > 0 {
            assert(head[b.caret() - 1] == a.input@[b.caret() - 1]);
        }
    }
    if b.did_move_end(a) {
        assert forall|k: int| k0 <= k < b.caret() implies #[trigger] a.input@[k] != '\n' by {
            assert(tail[k - k0] == a.input@[k]);
        }
        if b.caret() < a.input@.len() {
            assert(tail[b.caret() - k0] == a.input@[b.caret()]);
        }
    }
}

/// What the assistant says is added behind what it is saying, or begins a new
/// entry behind the others; no other entry changes.
pub proof fn law_tokens_are_shown(log: Seq<(Role, Seq<char>)>, t: Seq<char>, i: int)
    ensures
        ({
            let after = log_with_token(log, t);
            let goes_on = log.len() > 0 && log.last().0 == Role::Assistant;
            &&& after.len() == log.len() + (if goes_on { 0int } else { 1 })
            &&& after.last().0 == Role::Assistant
            &&& after.last().1 == (if goes_on { log.last().1 } else { seq![] }) + t
            &&& 0 <= i < after.len() - 1 ==> after[i] == log[i]
        }),
{
    assert(Seq::<char>::empty() + t =~= t);
}

/// What was said last is the text of the last entry of the assistant.
pub proof fn law_the_last_answer_is_found(log: Seq<(Role, Seq<char>)>, i: int)
    requires
        0 <= i < log.len(),
        log[i].0 == Role::Assistant,
        forall|k: int| i < k < log.len() ==> (#[trigger] log[k]).0 != Role::Assistant,
    ensures
        last_said(log) == Some(log[i].1),
    decreases log.len(),
{
    if i < log.len() - 1 {
        assert(log[log.len() - 1].0 != Role::Assistant);
        let t = log.drop_last();
        assert(t[i] == log[i]);
        assert forall|k: int| i < k < t.len() implies (#[trigger] t[k]).0 != Role::Assistant by {
            assert(t[k] == log[k]);
        }
        law_the_last_answer_is_found(t, i);
    }
}

/// Where the assistant has said nothing, nothing was said last.
pub proof fn law_no_answer_is_made_up(log: Seq<(Role, Seq<char>)>)
    requires
        forall|k: int| 0 <= k < log.len() ==> (#[trigger] log[k]).0 != Role::Assistant,
    ensures
        last_said(log) is None,
    decreases log.len(),
{
    if log.len() > 0 {
        assert(log[log.len() - 1].0 != Role::Assistant);
        let t = log.drop_last();
        assert forall|k: int| 0 <= k < t.len() implies (#[trigger] t[k]).0 != Role::Assistant by {
            assert(t[k] == log[k]);
        }
        law_no_answer_is_made_up(t);
    }
}

/// An entry of a copied transcript has the whole text, behind the name of its
/// author; the three authors have different names.
pub proof fn law_transcripts_name_their_authors(role: Role, said: Seq<char>)
    ensures
        said.is_suffix_of(transcript_entry((role, said))),
        role_tag(role).is_prefix_of(transcript_entry((role, said))),
        transcript_entry((role, said)).len() == role_tag(role).len() + 2 + said.len(),
        role_tag(Role::User) == "You"@,
        role_tag(Role::Assistant) == "AI"@,
        role_tag(Role::Tool) == "tool"@,
{
    reveal_strlit(": ");
    let e = transcript_entry((role, said));
    assert(e.skip(e.len() - said.len()) =~= said);
    assert(e.take(role_tag(role).len() as int) =~= role_tag(role));
}

/// A message that is sent is the input without the white space around it; it
/// comes into the log behind the others, the input is empty then, and an answer
/// is awaited. It can be sent exactly where there is more than white space and
/// none is awaited yet.
pub proof fn law_messages_are_sent(a: ChatState, b: ChatState, i: int)
    requires
        b.did_send(a),
    ensures
        b.log().len() == a.log().len() + 1,
        b.log().last() == (Role::User, text::trim(a.input@)),
        0 <= i < a.log().len() ==> b.log()[i] == a.log()[i],
        b.input@.len() == 0,
        b.caret() == 0,
        b.streaming,
        !b.can_send(),
{
    bytes::lemma_offset_ends(b.input@);
    bytes::lemma_char_index(b.input@, 0);
}

/// Input of white space alone is not sent, any other is unless an answer is
/// awaited.
pub proof fn law_what_can_be_sent(a: ChatState, i: int)
    ensures
        (forall|k: int| 0 <= k < a.input@.len() ==> text::is_white(#[trigger] a.input@[k]))
            ==> !a.can_send(),
        0 <= i < a.input@.len() && !text::is_white(a.input@[i]) && !a.streaming ==> a.can_send(),
{
    let s = a.input@;
    text::law_trimming(s);
    let (x, y) = choose|x: int, y: int|
        0 <= x <= y <= s.len() && text::trim(s) == #[trigger] s.subrange(x, y) && (forall|k: int|
            0 <= k < x ==> text::is_white(#[trigger] s[k])) && (forall|k: int|
            y <= k < s.len() ==> text::is_white(#[trigger] s[k]));
    if text::trim(s).len() > 0 {
        assert(text::trim(s)[0] == s[x]);
    } else if 0 <= i < s.len() {
        assert(x == y);
        assert(text::is_white(s[i]));
    }
}

/// What the agent reports is shown: what it says as its own, the tools that it
/// uses as tools, and what went wrong in full; a turn that is done or has failed
/// is no longer awaited, and only then.
pub proof fn law_reports_are_shown(a: ChatState, b: ChatState, event: client::EventView)
    requires
        b.did_hear(a, event),
    ensures
        event matches client::EventView::Token(t) ==> b.log() == log_with_token(a.log(), t)
            && b.streaming == a.streaming,
        event matches client::EventView::ToolCall(c) ==> b.log().len() == a.log().len() + 1
            && b.log().last() == (Role::Tool, summary(c.name, shell::args_json(c.arguments)))
            && a.log().is_prefix_of(b.log()) && b.streaming == a.streaming,
        event matches client::EventView::Error(e) ==> b.log().last().0 == Role::Assistant
            && text::has_text(b.log().last().1, e) && !b.streaming,
        event is Done ==> b.log() == a.log() && !b.streaming,
        event is ExecPaneTool ==> b == a,
        b.input@ == a.input@ && b.input_cursor == a.input_cursor,
{
    if event is ToolCall {
        assert(a.log() =~= b.log().take(a.log().len() as int));
    }
    if let client::EventView::Error(e) = event {
        let c = ChatState { streaming: a.streaming, ..b };
        assert(c.log() == b.log());
        let t = "\n[error: "@ + e + "]"@;
        law_tokens_are_shown(a.log(), t, 0);
        let before = if a.log().len() > 0 && a.log().last().0 == Role::Assistant {
            a.log().last().1
        } else {
            seq![]
        };
        text::law_text_is_found(before + "\n[error: "@, e, "]"@);
        assert(b.log().last().1 =~= before + "\n[error: "@ + e + "]"@);
    }
}

/// A call is shown with what it does: the command that it runs, what it searches
/// for, and the number of the pane; a call of another tool by its name.
pub proof fn law_calls_are_shown(args: Json, said: Seq<char>, n: u64, name: Seq<char>)
    ensures
        json::member(args, "command"@) == Some(Json::Text(said)) ==> ("$ "@ + said).is_prefix_of(
            summary("run_command"@, args),
        ),
        json::member(args, "pattern"@) == Some(Json::Text(said)) ==> text::has_text(
            summary("grep_pane"@, args),
            said,
        ),
        json::member(args, "pane"@) == Some(Json::Number(json::JsonNumber::Natural(n))) && n
            <= i64::MAX ==> {
            &&& text::decimal(n as nat).is_suffix_of(summary("read_pane"@, args))
            &&& text::decimal(n as nat).is_suffix_of(summary("send_keys"@, args))
            &&& text::decimal(n as nat).is_suffix_of(summary("grep_pane"@, args))
            &&& (text::decimal(n as nat).push(')')).is_suffix_of(summary("run_command"@, args))
        },
        name != "run_command"@ && name != "read_pane"@ && name != "send_keys"@ && name
            != "grep_pane"@ && name != "list_panes"@ ==> summary(name, args) == name,
{
    reveal_strlit("run_command");
    reveal_strlit("send_keys");
    reveal_strlit("read_pane");
    reveal_strlit("grep_pane");
    reveal_strlit("list_panes");
    reveal_strlit(")");
    assert("run_command"@[0] == 'r' && "send_keys"@[0] == 's' && "read_pane"@[0] == 'r'
        && "grep_pane"@[0] == 'g' && "list_panes"@[0] == 'l');
    assert("run_command"@[1] == 'u' && "read_pane"@[1] == 'e');
    let run = summary("run_command"@, args);
    let grep = summary("grep_pane"@, args);
    let read = summary("read_pane"@, args);
    let keys = summary("send_keys"@, args);
    let p = shown_pane(args);
    assert(read.skip(read.len() - p.len()) =~= p);
    assert(keys.skip(keys.len() - p.len()) =~= p);
    assert(grep.skip(grep.len() - p.len()) =~= p);
    assert(run.skip(run.len() - p.len() - 1) =~= p.push(')'));
    let head = "$ "@ + shown_text(args, "command"@);
    assert(run.take(head.len() as int) =~= head);
    text::law_text_is_found(
        "grep '"@,
        shown_text(args, "pattern"@),
        "' in pane "@ + shown_pane(args),
    );
    assert(grep =~= "grep '"@ + shown_text(args, "pattern"@) + ("' in pane "@ + shown_pane(args)));
}

/// The boundary before an offset is the next one down, and the one behind it the
/// next one up: none lies between.
pub proof fn law_boundaries_are_the_next(s: Seq<char>, i: int)
    requires
        0 <= i <= bytes::byte_len(s),
    ensures
        i > 0 ==> {
            &&& 0 <= prev_offset(s, i) < i
            &&& bytes::on_boundary(s, prev_offset(s, i))
            &&& forall|k: int| prev_offset(s, i) < k < i ==> !bytes::on_boundary(s, k)
        },
        i < bytes::byte_len(s) ==> {
            &&& i < next_offset(s, i) <= bytes::byte_len(s)
            &&& bytes::on_boundary(s, next_offset(s, i))
            &&& forall|k: int| i < k < next_offset(s, i) ==> !bytes::on_boundary(s, k)
        },
{
    bytes::lemma_offset_ends(s);
    if i > 0 {
        lemma_prev_gap(s, i);
    }
    if i < bytes::byte_len(s) {
        lemma_next_gap(s, i);
    }
}

proof fn lemma_prev_gap(s: Seq<char>, i: int)
    requires
        i > 0,
    ensures
        0 <= prev_offset(s, i) < i,
        bytes::on_boundary(s, prev_offset(s, i)),
        forall|k: int| prev_offset(s, i) < k < i ==> !bytes::on_boundary(s, k),
    decreases i,
{
    bytes::lemma_offset_ends(s);
    assert(bytes::offset(s, 0) == 0);
    assert(bytes::on_boundary(s, 0));
    if i > 1 && !bytes::on_boundary(s, i - 1) {
        lemma_prev_gap(s, i - 1);
    }
}

proof fn lemma_next_gap(s: Seq<char>, i: int)
    requires
        0 <= i < bytes::byte_len(s),
    ensures
        i < next_offset(s, i) <= bytes::byte_len(s),
        bytes::on_boundary(s, next_offset(s, i)),
        forall|k: int| i < k < next_offset(s, i) ==> !bytes::on_boundary(s, k),
    decreases bytes::byte_len(s) - i,
{
    bytes::lemma_offset_ends(s);
    assert(bytes::offset(s, s.len() as int) == bytes::byte_len(s));
    assert(bytes::on_boundary(s, bytes::byte_len(s) as int));
    if i < bytes::byte_len(s) - 1 && !bytes::on_boundary(s, i + 1) {
        lemma_next_gap(s, i + 1);
    }
}

/// Moving by a word leads over the character before the caret to the beginning
/// of the word that ends there: no blank lies between, and one or nothing before.
pub proof fn law_the_caret_moves_by_a_word(a: ChatState, b: ChatState)
    requires
        a.wf(),
        b.did_move_word_left(a),
    ensures
        b.input@ == a.input@,
        b.same_but_input(a),
        a.caret() == 0 ==> b.caret() == 0,
        a.caret() > 0 ==> {
            &&& 0 <= b.caret() <= a.caret() - 1
            &&& forall|k: int|
                b.caret() <= k < a.caret() - 1 ==> !is_ascii_white(#[trigger] a.input@[k])
            &&& b.caret() > 0 ==> is_ascii_white(a.input@[b.caret() - 1])
        },
{
    lemma_insertion_point(a);
    let s = a.input@;
    let n = a.caret();
    bytes::lemma_offset_ends(s);
    if n > 0 {
        bytes::lemma_offset_increases(s, n - 1, n);
        lemma_prev_offset(s, n, bytes::offset(s, n) as int);
        bytes::lemma_char_index(s, n - 1);
        let head = s.take(n - 1);
        law_words_and_lines_begin(head);
        assert forall|k: int| b.caret() <= k < n - 1 implies !is_ascii_white(
            #[trigger] s[k],
        ) by {
            assert(head[k] == s[k]);
        }
        if b.caret() > 0 {
            assert(head[b.caret() - 1] == s[b.caret() - 1]);
        }
    } else {
        bytes::lemma_char_index(s, 0);
        law_words_and_lines_begin(s.take(0));
    }
}

/// Words are parted by a space, a tab, a line feed, a form feed or a carriage
/// return, and by nothing else.
pub proof fn law_what_parts_words(c: char)
    ensures
        is_ascii_white(c) <==> seq![' ', '\t', '\n', '\u{c}', '\r'].contains(c),
{
    let blanks = seq![' ', '\t', '\n', '\u{c}', '\r'];
    assert(blanks[0] == ' ' && blanks[1] == '\t' && blanks[2] == '\n' && blanks[3] == '\u{c}'
        && blanks[4] == '\r');
}

} // verus!
