//! The conversation with the model: the messages as the service wants them,
//! the answer that it streams back piece by piece, and the loop that runs turn
//! after turn until the model needs no more tools.

use serde_json::Value;
use vstd::prelude::*;

use crate::json;
use crate::json::{array, boolean, copy, insert, natural, object, string, Json, JsonNumber};
use crate::text;
use crate::text::{from_chars, same_text, stands_at, to_chars, trimmed};

verus! {

/// A tool call that the model asks for.
#[derive(Debug)]
pub struct ToolCall {
    pub id: String,
    pub name: String,
    /// Raw JSON arguments string.
    pub arguments: String,
}

/// What a [`ToolCall`] holds.
pub ghost struct CallView {
    pub id: Seq<char>,
    pub name: Seq<char>,
    pub arguments: Seq<char>,
}

impl View for ToolCall {
    type V = CallView;

    open spec fn view(&self) -> CallView {
        CallView { id: self.id@, name: self.name@, arguments: self.arguments@ }
    }
}

impl Clone for ToolCall {
    fn clone(&self) -> (r: Self)
        ensures
            r@ == self@,
    {
        ToolCall { id: self.id.clone(), name: self.name.clone(), arguments: self.arguments.clone() }
    }
}

/// What a list of calls holds.
pub open spec fn call_views(calls: Seq<ToolCall>) -> Seq<CallView> {
    calls.map_values(|c: ToolCall| c@)
}

pub(crate) fn copy_calls(calls: &Vec<ToolCall>) -> (r: Vec<ToolCall>)
    ensures
        call_views(r@) == call_views(calls@),
{
    let mut r: Vec<ToolCall> = Vec::new();
    let n: usize = calls.len();
    let mut i: usize = 0;
    while i < n
        invariant
            i <= n,
            n == calls.len(),
            r.len() == i,
            forall|j: int| 0 <= j < i ==> (#[trigger] r@[j])@ == calls@[j]@,
        decreases n - i,
    {
        r.push(calls[i].clone());
        i = i + 1;
    }
    assert(call_views(r@) =~= call_views(calls@));
    r
}

/// A chat message in the conversation.
pub struct ChatMessage {
    pub role: String,
    pub content: String,
    /// For assistant messages that requested tools.
    pub tool_calls: Vec<ToolCall>,
    /// For tool result messages: which call id this answers.
    pub tool_call_id: Option<String>,
}

/// What a [`ChatMessage`] holds.
pub ghost struct MessageView {
    pub role: Seq<char>,
    pub content: Seq<char>,
    pub tool_calls: Seq<CallView>,
    pub tool_call_id: Option<Seq<char>>,
}

/// The view of a text that there may be.
pub open spec fn opt_view(s: Option<String>) -> Option<Seq<char>> {
    match s {
        Some(t) => Some(t@),
        None => None,
    }
}

impl View for ChatMessage {
    type V = MessageView;

    open spec fn view(&self) -> MessageView {
        MessageView {
            role: self.role@,
            content: self.content@,
            tool_calls: call_views(self.tool_calls@),
            tool_call_id: opt_view(self.tool_call_id),
        }
    }
}

/// What a list of messages holds.
pub open spec fn message_views(messages: Seq<ChatMessage>) -> Seq<MessageView> {
    messages.map_values(|m: ChatMessage| m@)
}

/// What the user says.
pub open spec fn user_message(content: Seq<char>) -> MessageView {
    MessageView { role: "user"@, content, tool_calls: seq![], tool_call_id: None }
}

/// The instructions.
pub open spec fn system_message(content: Seq<char>) -> MessageView {
    MessageView { role: "system"@, content, tool_calls: seq![], tool_call_id: None }
}

/// The result of the tool call `id`.
pub open spec fn tool_message(id: Seq<char>, content: Seq<char>) -> MessageView {
    MessageView { role: "tool"@, content, tool_calls: seq![], tool_call_id: Some(id) }
}

/// What the model says, and the tools that it asks for.
pub open spec fn assistant_message(content: Seq<char>, calls: Seq<CallView>) -> MessageView {
    MessageView { role: "assistant"@, content, tool_calls: calls, tool_call_id: None }
}

impl ChatMessage {
    pub fn user(content: String) -> (r: Self)
        ensures
            r@ == user_message(content@),
    {
        let r = Self {
            role: "user".to_owned(),
            content,
            tool_calls: Vec::new(),
            tool_call_id: None,
        };
        assert(call_views(r.tool_calls@) =~= seq![]);
        r
    }

    pub fn system(content: String) -> (r: Self)
        ensures
            r@ == system_message(content@),
    {
        let r = Self {
            role: "system".to_owned(),
            content,
            tool_calls: Vec::new(),
            tool_call_id: None,
        };
        assert(call_views(r.tool_calls@) =~= seq![]);
        r
    }

    pub fn tool_result(id: String, content: String) -> (r: Self)
        ensures
            r@ == tool_message(id@, content@),
    {
        let r = Self {
            role: "tool".to_owned(),
            content,
            tool_calls: Vec::new(),
            tool_call_id: Some(id),
        };
        assert(call_views(r.tool_calls@) =~= seq![]);
        r
    }
}

/// Events streamed from the agent thread back to the UI.
#[derive(Debug)]
pub enum AiEvent {
    /// A chunk of assistant text.
    Token(String),
    /// Display-only: the agent is invoking a tool (show it in chat).
    ToolCall(ToolCall),
    /// The UI must execute this pane-touching tool and reply with ToolResult.
    ExecPaneTool(ToolCall),
    /// The assistant turn finished (no more tools this round).
    Done,
    /// An error occurred.
    Error(String),
}

/// What an [`AiEvent`] holds.
pub ghost enum EventView {
    Token(Seq<char>),
    ToolCall(CallView),
    ExecPaneTool(CallView),
    Done,
    Error(Seq<char>),
}

impl View for AiEvent {
    type V = EventView;

    open spec fn view(&self) -> EventView {
        match *self {
            AiEvent::Token(s) => EventView::Token(s@),
            AiEvent::ToolCall(c) => EventView::ToolCall(c@),
            AiEvent::ExecPaneTool(c) => EventView::ExecPaneTool(c@),
            AiEvent::Done => EventView::Done,
            AiEvent::Error(s) => EventView::Error(s@),
        }
    }
}

/// A request from the UI to the agent thread (a new user turn or a tool result).
pub enum AgentInput {
    User { text: String, context: String },
    ToolResult { id: String, content: String },
}

/// What an [`AgentInput`] holds.
pub ghost enum InputView {
    User { text: Seq<char>, context: Seq<char> },
    ToolResult { id: Seq<char>, content: Seq<char> },
}

impl View for AgentInput {
    type V = InputView;

    open spec fn view(&self) -> InputView {
        match *self {
            AgentInput::User { text, context } => InputView::User {
                text: text@,
                context: context@,
            },
            AgentInput::ToolResult { id, content } => InputView::ToolResult {
                id: id@,
                content: content@,
            },
        }
    }
}

/// A tool call as the service wants it.
pub open spec fn call_json(c: CallView) -> Json {
    Json::Object(
        Map::<Seq<char>, Json>::empty().insert("id"@, Json::Text(c.id)).insert(
            "type"@,
            Json::Text("function"@),
        ).insert(
            "function"@,
            Json::Object(
                Map::<Seq<char>, Json>::empty().insert("name"@, Json::Text(c.name)).insert(
                    "arguments"@,
                    Json::Text(c.arguments),
                ),
            ),
        ),
    )
}

/// The members of a message as the service wants it: a message has content,
/// unless that is empty and there are tool calls instead; it has tool calls
/// where it asks for some; it names a call where it answers one.
pub open spec fn message_members(m: MessageView) -> Map<Seq<char>, Json> {
    let base = Map::<Seq<char>, Json>::empty().insert("role"@, Json::Text(m.role));
    let said = if m.content.len() > 0 || m.tool_calls.len() == 0 {
        base.insert("content"@, Json::Text(m.content))
    } else {
        base
    };
    let asked = if m.tool_calls.len() > 0 {
        said.insert(
            "tool_calls"@,
            Json::Array(m.tool_calls.map_values(|c: CallView| call_json(c))),
        )
    } else {
        said
    };
    match m.tool_call_id {
        Some(id) => asked.insert("tool_call_id"@, Json::Text(id)),
        None => asked,
    }
}

/// A message as the service wants it.
pub open spec fn message_json(m: MessageView) -> Json {
    Json::Object(message_members(m))
}

/// A conversation as the service wants it.
pub open spec fn conversation_json(messages: Seq<MessageView>) -> Json {
    Json::Array(messages.map_values(|m: MessageView| message_json(m)))
}

fn call_value(c: &ToolCall) -> (r: Value)
    ensures
        json::json_of(r) == call_json(c@),
{
    let mut function: Value = object();
    insert(&mut function, "name", string(c.name.as_str()));
    insert(&mut function, "arguments", string(c.arguments.as_str()));
    let mut r: Value = object();
    insert(&mut r, "id", string(c.id.as_str()));
    insert(&mut r, "type", string("function"));
    insert(&mut r, "function", function);
    r
}

fn message_value(m: &ChatMessage) -> (r: Value)
    ensures
        json::json_of(r) == message_json(m@),
{
    let mut r: Value = object();
    insert(&mut r, "role", string(m.role.as_str()));
    if m.content.as_str().is_empty() && m.tool_calls.len() > 0 {
    } else {
        insert(&mut r, "content", string(m.content.as_str()));
    }
    if m.tool_calls.len() > 0 {
        let mut calls: Vec<Value> = Vec::new();
        let n: usize = m.tool_calls.len();
        let mut i: usize = 0;
        while i < n
            invariant
                i <= n,
                n == m.tool_calls.len(),
                calls.len() == i,
                forall|j: int|
                    0 <= j < i ==> json::json_of(#[trigger] calls@[j]) == call_json(
                        m.tool_calls@[j]@,
                    ),
            decreases n - i,
        {
            calls.push(call_value(&m.tool_calls[i]));
            i = i + 1;
        }
        assert(calls@.map_values(|x: Value| json::json_of(x)) =~= m@.tool_calls.map_values(
            |c: CallView| call_json(c),
        ));
        insert(&mut r, "tool_calls", array(calls));
    }
    if let Some(id) = &m.tool_call_id {
        insert(&mut r, "tool_call_id", string(id.as_str()));
    }
    r
}

/// Converts messages into the JSON array that the service wants.
pub fn messages_json(messages: &Vec<ChatMessage>) -> (r: Value)
    ensures
        json::json_of(r) == conversation_json(message_views(messages@)),
{
    let mut items: Vec<Value> = Vec::new();
    let n: usize = messages.len();
    let mut i: usize = 0;
    while i < n
        invariant
            i <= n,
            n == messages.len(),
            items.len() == i,
            forall|j: int|
                0 <= j < i ==> json::json_of(#[trigger] items@[j]) == message_json(messages@[j]@),
        decreases n - i,
    {
        items.push(message_value(&messages[i]));
        i = i + 1;
    }
    assert(items@.map_values(|x: Value| json::json_of(x)) =~= message_views(
        messages@,
    ).map_values(|m: MessageView| message_json(m)));
    array(items)
}

/// How many tokens the model may answer with.
pub const MAX_COMPLETION_TOKENS: u64 = 4096;

/// The body of a request to the service.
pub open spec fn request_json(messages: Seq<MessageView>, tools: Json) -> Json {
    Json::Object(
        Map::<Seq<char>, Json>::empty().insert("messages"@, conversation_json(messages)).insert(
            "tools"@,
            tools,
        ).insert("stream"@, Json::Bool(true)).insert(
            "max_completion_tokens"@,
            Json::Number(JsonNumber::Natural(MAX_COMPLETION_TOKENS)),
        ),
    )
}

/// The body of a request for the next turn of a conversation.
pub fn request_body(messages: &Vec<ChatMessage>, tools: &Value) -> (r: Value)
    ensures
        json::json_of(r) == request_json(message_views(messages@), json::json_of(*tools)),
{
    let mut r: Value = object();
    insert(&mut r, "messages", messages_json(messages));
    insert(&mut r, "tools", copy(tools));
    insert(&mut r, "stream", boolean(true));
    insert(&mut r, "max_completion_tokens", natural(MAX_COMPLETION_TOKENS));
    r
}

/// What to do with a line of the answer.
#[derive(Debug)]
pub enum LineStep {
    /// The answer ends here.
    Stop,
    /// The line says nothing.
    Skip,
    /// A piece of the answer, as JSON text.
    Data(String),
}

/// What a [`LineStep`] holds.
pub ghost enum LineView {
    Stop,
    Skip,
    Data(Seq<char>),
}

impl View for LineStep {
    type V = LineView;

    open spec fn view(&self) -> LineView {
        match *self {
            LineStep::Stop => LineView::Stop,
            LineStep::Skip => LineView::Skip,
            LineStep::Data(s) => LineView::Data(s@),
        }
    }
}

/// What a line of the answer means; `None` is a line that could not be read.
/// The answer ends where it is no longer wanted, where reading fails, and at
/// the mark of its end; pieces are marked as data, and other lines say nothing.
pub open spec fn line_step(cancelled: bool, line: Option<Seq<char>>) -> LineView {
    if cancelled {
        LineView::Stop
    } else {
        match line {
            None => LineView::Stop,
            Some(l) => if !text::begins_with(l, "data: "@) {
                LineView::Skip
            } else if text::trim(l.skip("data: "@.len() as int)) == "[DONE]"@ {
                LineView::Stop
            } else {
                LineView::Data(l.skip("data: "@.len() as int))
            },
        }
    }
}

/// Decides what to do with the next line of the answer.
pub fn read_line(cancelled: bool, line: Option<String>) -> (r: LineStep)
    ensures
        r@ == line_step(cancelled, opt_view(line)),
{
    if cancelled {
        return LineStep::Stop;
    }
    match line {
        None => LineStep::Stop,
        Some(l) => {
            let v: Vec<char> = to_chars(l.as_str());
            let mark: Vec<char> = to_chars("data: ");
            if !stands_at(&v, &mark, 0) {
                return LineStep::Skip;
            }
            let data: String = from_chars(&v, mark.len(), v.len());
            assert(data@ =~= l@.skip("data: "@.len() as int));
            if same_text(trimmed(data.as_str()).as_str(), "[DONE]") {
                LineStep::Stop
            } else {
                LineStep::Data(data)
            }
        },
    }
}

/// The function part of a piece of a tool call.
pub struct StreamToolFn {
    pub name: Option<String>,
    pub arguments: Option<String>,
}

/// A piece of a tool call.
pub struct StreamToolCall {
    pub index: u32,
    pub id: Option<String>,
    pub function: Option<StreamToolFn>,
}

/// A piece of the answer.
pub struct StreamDelta {
    pub content: Option<String>,
    pub tool_calls: Option<Vec<StreamToolCall>>,
}

/// What a piece of a tool call holds.
pub ghost struct PieceView {
    pub index: int,
    pub id: Option<Seq<char>>,
    pub name: Option<Seq<char>>,
    pub arguments: Option<Seq<char>>,
}

impl View for StreamToolCall {
    type V = PieceView;

    open spec fn view(&self) -> PieceView {
        PieceView {
            index: self.index as int,
            id: opt_view(self.id),
            name: match self.function {
                Some(f) => opt_view(f.name),
                None => None,
            },
            arguments: match self.function {
                Some(f) => opt_view(f.arguments),
                None => None,
            },
        }
    }
}

/// What pieces of tool calls hold.
pub open spec fn piece_views(pieces: Seq<StreamToolCall>) -> Seq<PieceView> {
    pieces.map_values(|p: StreamToolCall| p@)
}

/// A call of which nothing has come yet.
pub open spec fn blank_call() -> CallView {
    CallView { id: seq![], name: seq![], arguments: seq![] }
}

/// The calls, with blank ones behind them up to the number `n`.
pub open spec fn padded(calls: Seq<CallView>, n: int) -> Seq<CallView> {
    if calls.len() < n {
        calls + Seq::new((n - calls.len()) as nat, |i: int| blank_call())
    } else {
        calls
    }
}

/// A call with a piece added: an id or a name takes the place of the one
/// before, arguments come behind those before.
pub open spec fn with_piece(c: CallView, p: PieceView) -> CallView {
    CallView {
        id: match p.id {
            Some(id) => id,
            None => c.id,
        },
        name: match p.name {
            Some(name) => name,
            None => c.name,
        },
        arguments: match p.arguments {
            Some(arguments) => c.arguments + arguments,
            None => c.arguments,
        },
    }
}

/// The calls with a piece added to the one that it belongs to.
pub open spec fn add_piece(calls: Seq<CallView>, p: PieceView) -> Seq<CallView> {
    let all = padded(calls, p.index + 1);
    all.update(p.index, with_piece(all[p.index], p))
}

/// The calls with pieces added, one after the other.
pub open spec fn add_pieces(calls: Seq<CallView>, pieces: Seq<PieceView>) -> Seq<CallView> {
    pieces.fold_left(calls, |acc: Seq<CallView>, p: PieceView| add_piece(acc, p))
}

/// The answer as far as it has come.
pub struct StreamState {
    pub text: String,
    pub calls: Vec<ToolCall>,
}

/// The text that a piece of the answer brings, if any.
pub open spec fn said(delta: StreamDelta) -> Option<Seq<char>> {
    match delta.content {
        Some(s) => if s@.len() > 0 {
            Some(s@)
        } else {
            None
        },
        None => None,
    }
}

/// The pieces of tool calls that a piece of the answer brings.
pub open spec fn asked(delta: StreamDelta) -> Seq<PieceView> {
    match delta.tool_calls {
        Some(calls) => piece_views(calls@),
        None => seq![],
    }
}

/// Only calls that were named are made.
pub open spec fn named_calls(calls: Seq<CallView>) -> Seq<CallView> {
    calls.filter(|c: CallView| c.name.len() > 0)
}

impl StreamState {
    /// Nothing has come yet.
    pub fn new() -> (r: Self)
        ensures
            r.text@ == Seq::<char>::empty(),
            call_views(r.calls@) == Seq::<CallView>::empty(),
    {
        let r = StreamState { text: String::new(), calls: Vec::new() };
        assert(call_views(r.calls@) =~= Seq::<CallView>::empty());
        r
    }

    fn add_call(&mut self, p: StreamToolCall)
        ensures
            final(self).text == old(self).text,
            call_views(final(self).calls@) == add_piece(call_views(old(self).calls@), p@),
    {
        let idx: usize = p.index as usize;
        while self.calls.len() <= idx
            invariant
                self.text == old(self).text,
                idx == p.index,
                self.calls.len() >= old(self).calls.len(),
                self.calls.len() <= idx + 1 || self.calls.len() == old(self).calls.len(),
                call_views(self.calls@) == padded(
                    call_views(old(self).calls@),
                    self.calls.len() as int,
                ),
            decreases idx + 1 - self.calls.len(),
        {
            let ghost before = call_views(self.calls@);
            let blank = ToolCall {
                id: String::new(),
                name: String::new(),
                arguments: String::new(),
            };
            assert(blank@ == blank_call());
            self.calls.push(blank);
            assert(call_views(self.calls@) =~= before.push(blank_call()));
            assert(call_views(self.calls@) =~= padded(
                call_views(old(self).calls@),
                self.calls.len() as int,
            ));
        }
        let ghost all = call_views(self.calls@);
        assert(all =~= padded(call_views(old(self).calls@), idx + 1));
        let mut call = self.calls[idx].clone();
        let ghost c0 = call@;
        if let Some(id) = p.id {
            call.id = id;
        }
        if let Some(f) = p.function {
            if let Some(name) = f.name {
                call.name = name;
            }
            if let Some(arguments) = f.arguments {
                call.arguments.append(arguments.as_str());
            }
        }
        assert(call@ == with_piece(c0, p@));
        self.calls.set(idx, call);
        assert(call_views(self.calls@) =~= all.update(idx as int, with_piece(c0, p@)));
    }

    /// Adds the next piece of the answer, of which the service may offer
    /// several choices; only the first counts. Returns the text to show.
    pub fn apply(&mut self, choices: Vec<StreamDelta>) -> (r: Option<String>)
        ensures
            choices.len() == 0 ==> r is None && final(self).text@ == old(self).text@ && call_views(
                final(self).calls@,
            ) == call_views(old(self).calls@),
            choices.len() > 0 ==> opt_view(r) == said(choices@[0]) && final(self).text@ == (
            match said(choices@[0]) {
                Some(s) => old(self).text@ + s,
                None => old(self).text@,
            }) && call_views(final(self).calls@) == add_pieces(
                call_views(old(self).calls@),
                asked(choices@[0]),
            ),
            choices.len() > 0 ==> final(self).text@ == old(self).text@ + (
            match choices@[0].content {
                Some(s) => s@,
                None => Seq::<char>::empty(),
            }),
            r matches Some(s) ==> s@.len() > 0 && final(self).text@ == old(self).text@ + s@,
            r is None ==> final(self).text@ == old(self).text@,
    {
        if choices.len() == 0 {
            return None;
        }
        let ghost delta0 = choices@[0];
        let mut choices = choices;
        let delta = choices.remove(0);
        let mut shown: Option<String> = None;
        if let Some(content) = delta.content {
            if !content.as_str().is_empty() {
                self.text.append(content.as_str());
                shown = Some(content);
            }
        }
        let ghost calls0 = call_views(self.calls@);
        if let Some(pieces) = delta.tool_calls {
            let mut pieces = pieces;
            let ghost all = piece_views(pieces@);
            let ghost text0 = self.text;
            let ghost mut done: int = 0;
            proof {
                assert(all.take(0) =~= seq![]);
            }
            while pieces.len() > 0
                invariant
                    self.text == text0,
                    0 <= done <= all.len(),
                    piece_views(pieces@) == all.skip(done),
                    call_views(self.calls@) == add_pieces(calls0, all.take(done)),
                decreases pieces.len(),
            {
                let ghost pieces0 = pieces@;
                let ghost rest = piece_views(pieces@);
                let p = pieces.remove(0);
                proof {
                    assert(pieces.len() + 1 == rest.len());
                    assert(p@ == rest[0] && rest[0] == all[done]);
                    assert forall|i: int| 0 <= i < pieces.len() implies (
                    #[trigger] piece_views(pieces@)[i]) == all[done + 1 + i] by {
                        assert(pieces@[i] == pieces0[i + 1]);
                        assert(rest[i + 1] == all[done + i + 1]);
                    }
                    assert(piece_views(pieces@) =~= all.skip(done + 1));
                    lemma_add_last(calls0, all.take(done), p@);
                    assert(all.take(done).push(p@) =~= all.take(done + 1));
                    done = done + 1;
                }
                self.add_call(p);
            }
            proof {
                assert(pieces.len() == piece_views(pieces@).len());
                assert(all.take(done) =~= all);
            }
        }
        shown
    }

    /// The tool calls of the whole answer: those that were named.
    pub fn finish(self) -> (r: (String, Vec<ToolCall>))
        ensures
            r.0@ == self.text@,
            call_views(r.1@) == named_calls(call_views(self.calls@)),
    {
        let mut out: Vec<ToolCall> = Vec::new();
        let n: usize = self.calls.len();
        let mut i: usize = 0;
        let ghost all = call_views(self.calls@);
        let ghost named = |c: CallView| c.name.len() > 0;
        proof {
            assert(all.take(0) =~= seq![]);
            reveal(Seq::filter);
            assert(call_views(out@) =~= all.take(0).filter(named));
        }
        while i < n
            invariant
                i <= n,
                n == self.calls.len(),
                all == call_views(self.calls@),
                named == (|c: CallView| c.name.len() > 0),
                call_views(out@) == all.take(i as int).filter(named),
            decreases n - i,
        {
            let ghost out0 = call_views(out@);
            proof {
                assert(all.take(i + 1).drop_last() =~= all.take(i as int));
                assert(all.take(i + 1).last() == all[i as int]);
                reveal(Seq::filter);
            }
            if !self.calls[i].name.as_str().is_empty() {
                out.push(self.calls[i].clone());
                assert(call_views(out@) =~= out0.push(all[i as int]));
            }
            i = i + 1;
        }
        assert(all.take(n as int) =~= all);
        (self.text, out)
    }
}

/// Pieces that come later are added later.
proof fn lemma_add_last(calls: Seq<CallView>, pieces: Seq<PieceView>, p: PieceView)
    ensures
        add_pieces(calls, pieces.push(p)) == add_piece(add_pieces(calls, pieces), p),
{
    assert(pieces.push(p).drop_last() =~= pieces);
}

/// The arguments of a call may come in pieces: they are those that would have
/// come in one.
pub proof fn law_argument_pieces_join(calls: Seq<CallView>, index: int, a: Seq<char>, b: Seq<char>)
    requires
        0 <= index,
    ensures
        ({
            let piece = |s: Seq<char>| PieceView { index, id: None, name: None, arguments: Some(s) };
            add_piece(add_piece(calls, piece(a)), piece(b)) == add_piece(calls, piece(a + b))
        }),
{
    let all = padded(calls, index + 1);
    let pa = PieceView { index, id: None, name: None, arguments: Some(a) };
    let pb = PieceView { index, id: None, name: None, arguments: Some(b) };
    let pc = PieceView { index, id: None, name: None, arguments: Some(a + b) };
    let once = add_piece(calls, pa);
    assert(padded(once, index + 1) == once);
    assert(all[index].arguments + a + b =~= all[index].arguments + (a + b));
    assert(add_piece(once, pb) =~= add_piece(calls, pc));
}

/// A piece changes no call but its own.
pub proof fn law_pieces_keep_other_calls(calls: Seq<CallView>, p: PieceView, i: int)
    requires
        0 <= p.index,
        0 <= i < calls.len(),
        i != p.index,
    ensures
        add_piece(calls, p)[i] == calls[i],
{
}

/// What a piece of the answer has as its content.
pub open spec fn content_of(delta: StreamDelta) -> Seq<char> {
    match delta.content {
        Some(s) => s@,
        None => seq![],
    }
}

/// The text of an answer that came in pieces.
pub open spec fn answer_text(deltas: Seq<StreamDelta>) -> Seq<char> {
    deltas.map_values(|d: StreamDelta| content_of(d)).flatten()
}

/// No text of the answer is lost: what a piece brings is its content, however
/// short, and only an empty one brings nothing; and a piece that comes behind
/// others adds its content behind theirs.
pub proof fn law_no_text_is_lost(deltas: Seq<StreamDelta>, d: StreamDelta)
    ensures
        d.content matches Some(s) ==> (s@.len() > 0 ==> said(d) == Some(s@)) && (s@.len() == 0
            ==> said(d) is None),
        d.content is None ==> said(d) is None,
        answer_text(deltas.push(d)) == answer_text(deltas) + (match said(d) {
            Some(s) => s,
            None => seq![],
        }),
        answer_text(seq![]) == Seq::<char>::empty(),
{
    let f = |d: StreamDelta| content_of(d);
    let parts = deltas.map_values(f);
    assert(deltas.push(d).map_values(f) =~= parts.push(content_of(d)));
    parts.lemma_flatten_push(content_of(d));
    assert(Seq::<StreamDelta>::empty().map_values(f) =~= Seq::<Seq<char>>::empty());
}

/// A piece of a call sets the id and the name that it has, adds its arguments
/// behind those before, and leaves what it does not have. Calls that nothing is
/// known of yet are blank, and there are as many as the greatest number asks for.
pub proof fn law_a_piece_is_added(calls: Seq<CallView>, p: PieceView, i: int)
    requires
        0 <= p.index,
    ensures
        ({
            let after = add_piece(calls, p);
            let before = if p.index < calls.len() {
                calls[p.index]
            } else {
                CallView { id: seq![], name: seq![], arguments: seq![] }
            };
            &&& after.len() == if p.index < calls.len() {
                calls.len() as int
            } else {
                p.index + 1
            }
            &&& after[p.index].id == (match p.id {
                Some(id) => id,
                None => before.id,
            })
            &&& after[p.index].name == (match p.name {
                Some(name) => name,
                None => before.name,
            })
            &&& after[p.index].arguments == before.arguments + (match p.arguments {
                Some(a) => a,
                None => seq![],
            })
            &&& 0 <= i < after.len() && i != p.index ==> after[i] == (if i < calls.len() {
                calls[i]
            } else {
                CallView { id: seq![], name: seq![], arguments: seq![] }
            })
        }),
{
    let all = padded(calls, p.index + 1);
    let before = if p.index < calls.len() {
        calls[p.index]
    } else {
        blank_call()
    };
    assert(all[p.index] == before);
    assert(before.arguments + Seq::<char>::empty() =~= before.arguments);
}

/// Pieces are added one after the other: none at all changes nothing, and one
/// behind others is added to what they made.
pub proof fn law_pieces_are_added_in_order(
    calls: Seq<CallView>,
    pieces: Seq<PieceView>,
    p: PieceView,
)
    ensures
        add_pieces(calls, seq![]) == calls,
        add_pieces(calls, pieces.push(p)) == add_piece(add_pieces(calls, pieces), p),
{
    lemma_add_last(calls, pieces, p);
}

/// The pieces that come with a piece of the answer are all of them, in order.
pub proof fn law_all_pieces_are_taken(d: StreamDelta, i: int)
    ensures
        d.tool_calls is None ==> asked(d).len() == 0,
        d.tool_calls matches Some(calls) ==> {
            &&& asked(d).len() == calls@.len()
            &&& 0 <= i < calls@.len() ==> {
                &&& asked(d)[i].index == calls@[i].index
                &&& asked(d)[i].id == opt_view(calls@[i].id)
                &&& calls@[i].function is None ==> asked(d)[i].name is None
                    && asked(d)[i].arguments is None
                &&& calls@[i].function matches Some(f) ==> asked(d)[i].name == opt_view(f.name)
                    && asked(d)[i].arguments == opt_view(f.arguments)
            }
        },
{
}

/// Of the calls that came, exactly those with a name are made, in their order:
/// a call behind others is made behind theirs if it has a name, and not
/// otherwise.
pub proof fn law_named_calls_are_made(calls: Seq<CallView>, c: CallView, i: int)
    ensures
        named_calls(seq![]) == Seq::<CallView>::empty(),
        c.name.len() > 0 ==> named_calls(calls.push(c)) == named_calls(calls).push(c),
        c.name.len() == 0 ==> named_calls(calls.push(c)) == named_calls(calls),
        0 <= i < calls.len() && calls[i].name.len() > 0 ==> named_calls(calls).contains(calls[i]),
        0 <= i < named_calls(calls).len() ==> named_calls(calls)[i].name.len() > 0
            && calls.contains(named_calls(calls)[i]),
{
    let named = |c: CallView| c.name.len() > 0;
    reveal(Seq::filter);
    assert(calls.push(c).drop_last() =~= calls);
    if 0 <= i < calls.len() && calls[i].name.len() > 0 {
        calls.lemma_filter_contains(named, i);
    }
    if 0 <= i < named_calls(calls).len() {
        calls.lemma_filter_pred(named, i);
        assert(named_calls(calls).contains(named_calls(calls)[i]));
        calls.lemma_filter_contains_rev(named, named_calls(calls)[i]);
    }
}

/// Every line of data is taken as it is, whatever it holds, but for the mark of
/// the end; other lines are passed over; and an answer that is no longer wanted,
/// or can no longer be read, ends.
pub proof fn law_lines_of_data_are_taken(data: Seq<char>, line: Seq<char>)
    ensures
        text::trim(data) != "[DONE]"@ ==> line_step(false, Some("data: "@ + data))
            == LineView::Data(data),
        text::trim(data) == "[DONE]"@ ==> line_step(false, Some("data: "@ + data))
            == LineView::Stop,
        line_step(false, Some(line)) matches LineView::Data(d) ==> line == "data: "@ + d,
        !"data: "@.is_prefix_of(line) ==> line_step(false, Some(line)) == LineView::Skip,
        line_step(false, None) == LineView::Stop,
        line_step(true, Some(line)) == LineView::Stop,
{
    let l = "data: "@ + data;
    let n = "data: "@.len() as int;
    assert(l.subrange(0, n) =~= "data: "@);
    assert(l.skip(n) =~= data);
    if text::begins_with(line, "data: "@) {
        assert(line.subrange(0, n) =~= line.take(n));
        assert(line =~= line.take(n) + line.skip(n));
        assert("data: "@.is_prefix_of(line));
    }
}

/// A request holds the whole conversation, message by message in order, and the
/// tools as they are.
pub proof fn law_requests_hold_the_conversation(messages: Seq<MessageView>, tools: Json, i: int)
    ensures
        json::member(request_json(messages, tools), "tools"@) == Some(tools),
        json::member(request_json(messages, tools), "stream"@) == Some(Json::Bool(true)),
        json::member(request_json(messages, tools), "messages"@) matches Some(Json::Array(items))
            && items.len() == messages.len() && (0 <= i < messages.len() ==> items[i]
            == message_json(messages[i])),
{
    lemma_request_keys();
}

proof fn lemma_request_keys()
    ensures
        "messages"@ != "tools"@,
        "messages"@ != "stream"@,
        "messages"@ != "max_completion_tokens"@,
        "tools"@ != "stream"@,
        "tools"@ != "max_completion_tokens"@,
        "stream"@ != "max_completion_tokens"@,
{
    reveal_strlit("messages");
    reveal_strlit("tools");
    reveal_strlit("stream");
    reveal_strlit("max_completion_tokens");
    assert("messages"@.len() == 8 && "tools"@.len() == 5 && "stream"@.len() == 6
        && "max_completion_tokens"@.len() == 21);
}

proof fn lemma_message_keys()
    ensures
        "role"@ != "content"@,
        "role"@ != "tool_calls"@,
        "role"@ != "tool_call_id"@,
        "content"@ != "tool_calls"@,
        "content"@ != "tool_call_id"@,
        "tool_calls"@ != "tool_call_id"@,
        "id"@ != "type"@,
        "id"@ != "function"@,
        "type"@ != "function"@,
        "name"@ != "arguments"@,
{
    reveal_strlit("role");
    reveal_strlit("content");
    reveal_strlit("tool_calls");
    reveal_strlit("tool_call_id");
    reveal_strlit("id");
    reveal_strlit("type");
    reveal_strlit("function");
    reveal_strlit("name");
    reveal_strlit("arguments");
    assert("role"@.len() == 4 && "content"@.len() == 7 && "tool_calls"@.len() == 10
        && "tool_call_id"@.len() == 12);
    assert("id"@.len() == 2 && "type"@.len() == 4 && "function"@.len() == 8);
    assert("name"@.len() == 4 && "arguments"@.len() == 9);
}

/// A message is sent with its role; with its content, unless that is empty and
/// it makes calls; with every call that it makes, in order; and with the call
/// that it answers, if it answers one.
pub proof fn law_messages_are_sent_whole(m: MessageView, i: int)
    ensures
        json::member(message_json(m), "role"@) == Some(Json::Text(m.role)),
        m.content.len() > 0 || m.tool_calls.len() == 0 ==> json::member(message_json(m), "content"@)
            == Some(Json::Text(m.content)),
        m.content.len() == 0 && m.tool_calls.len() > 0 ==> json::member(
            message_json(m),
            "content"@,
        ) is None,
        m.tool_calls.len() == 0 ==> json::member(message_json(m), "tool_calls"@) is None,
        m.tool_calls.len() > 0 ==> (json::member(message_json(m), "tool_calls"@) matches Some(
            Json::Array(items),
        ) && items.len() == m.tool_calls.len() && (0 <= i < items.len() ==> {
            let function = json::member(items[i], "function"@);
            &&& json::member(items[i], "id"@) == Some(Json::Text(m.tool_calls[i].id))
            &&& json::member(items[i], "type"@) == Some(Json::Text("function"@))
            &&& json::member_of(function, "name"@) == Some(Json::Text(m.tool_calls[i].name))
            &&& json::member_of(function, "arguments"@) == Some(
                Json::Text(m.tool_calls[i].arguments),
            )
        })),
        json::member(message_json(m), "tool_call_id"@) == (match m.tool_call_id {
            Some(id) => Some(Json::Text(id)),
            None => None,
        }),
{
    lemma_message_keys();
}

/// Each kind of message has its role and what it was made of.
pub proof fn law_messages_have_their_roles(
    content: Seq<char>,
    id: Seq<char>,
    calls: Seq<CallView>,
)
    ensures
        user_message(content).role == "user"@ && user_message(content).content == content,
        system_message(content).role == "system"@ && system_message(content).content == content,
        tool_message(id, content).role == "tool"@ && tool_message(id, content).content == content
            && tool_message(id, content).tool_call_id == Some(id),
        assistant_message(content, calls).role == "assistant"@ && assistant_message(
            content,
            calls,
        ).content == content && assistant_message(content, calls).tool_calls == calls,
        user_message(content).tool_call_id is None && user_message(content).tool_calls.len() == 0,
        system_message(content).tool_call_id is None && system_message(content).tool_calls.len()
            == 0,
        tool_message(id, content).tool_calls.len() == 0,
        assistant_message(content, calls).tool_call_id is None,
{
}

/// A request bounds the answer, and says nothing beside that, the conversation
/// and the tools, and that the answer is wanted as a stream.
pub proof fn law_requests_bound_the_answer(messages: Seq<MessageView>, tools: Json, key: Seq<char>)
    ensures
        json::member(request_json(messages, tools), "max_completion_tokens"@) == Some(
            Json::Number(JsonNumber::Natural(4096)),
        ),
        json::member(request_json(messages, tools), key) is Some <==> key == "messages"@ || key
            == "tools"@ || key == "stream"@ || key == "max_completion_tokens"@,
{
    lemma_request_keys();
}

} // verus!
