//! The agent: it asks the model turn by turn, has the tools run that the model
//! asks for, and stops when the model asks for none. The loop around it does
//! the waiting and the talking; [`Agent::step`] decides.

use vstd::prelude::*;

use crate::ai::client;
use crate::ai::client::{copy_calls, AgentInput, AiEvent, ChatMessage, ToolCall};
use crate::text::same_text;

verus! {

/// Whether the agent runs a tool itself: one that needs only its private shell
/// or the browser, never the user's panes.
pub open spec fn local_tool(name: Seq<char>) -> bool {
    ||| name == "shell"@
    ||| name == "shell_bg"@
    ||| name == "read_shell"@
    ||| name == "wait"@
    ||| name == "browser_open"@
    ||| name == "browser_read"@
    ||| name == "browser_request_login"@
    ||| name == "browser_save_login"@
    ||| name == "browser_setup"@
}

/// Tools the agent executes itself on its background thread (they only need the
/// private shell, never the user's panes), so blocking work (sleep, polling a
/// command) never freezes the UI.
pub fn is_local_tool(name: &str) -> (r: bool)
    ensures
        r == local_tool(name@),
{
    same_text(name, "shell") || same_text(name, "shell_bg") || same_text(name, "read_shell")
        || same_text(name, "wait") || same_text(name, "browser_open") || same_text(
        name,
        "browser_read",
    ) || same_text(name, "browser_request_login") || same_text(name, "browser_save_login")
        || same_text(name, "browser_setup")
}

/// What the agent is doing.
pub enum Phase {
    /// It waits for the user.
    Idle,
    /// A turn of the model is about to begin.
    Ready,
    /// The model answers.
    Streaming,
    /// Tools run; the first `done` of the calls have been answered.
    Tools { calls: Vec<ToolCall>, done: usize },
}

/// What a [`Phase`] holds.
pub ghost enum PhaseView {
    Idle,
    Ready,
    Streaming,
    Tools { calls: Seq<client::CallView>, done: int },
}

impl View for Phase {
    type V = PhaseView;

    open spec fn view(&self) -> PhaseView {
        match *self {
            Phase::Idle => PhaseView::Idle,
            Phase::Ready => PhaseView::Ready,
            Phase::Streaming => PhaseView::Streaming,
            Phase::Tools { calls, done } => PhaseView::Tools {
                calls: client::call_views(calls@),
                done: done as int,
            },
        }
    }
}

/// What happens to the agent.
pub enum AgentEvent {
    /// Something came from the UI.
    Input(AgentInput),
    /// The UI is gone.
    Closed,
    /// The turn may begin, unless the user asked to stop.
    Proceed { cancelled: bool },
    /// The model has answered, with a text and the tools that it asks for; the
    /// user may have asked to stop meanwhile.
    Answered { text: String, calls: Vec<ToolCall>, cancelled: bool },
    /// The model could not be asked.
    Failed(String),
    /// A tool that the agent runs itself has run.
    Ran(String),
}

/// What an [`AgentEvent`] holds.
pub ghost enum AgentEventView {
    Input(client::InputView),
    Closed,
    Proceed { cancelled: bool },
    Answered { text: Seq<char>, calls: Seq<client::CallView>, cancelled: bool },
    Failed(Seq<char>),
    Ran(Seq<char>),
}

impl View for AgentEvent {
    type V = AgentEventView;

    open spec fn view(&self) -> AgentEventView {
        match *self {
            AgentEvent::Input(i) => AgentEventView::Input(i@),
            AgentEvent::Closed => AgentEventView::Closed,
            AgentEvent::Proceed { cancelled } => AgentEventView::Proceed { cancelled },
            AgentEvent::Answered { text, calls, cancelled } => AgentEventView::Answered {
                text: text@,
                calls: client::call_views(calls@),
                cancelled,
            },
            AgentEvent::Failed(e) => AgentEventView::Failed(e@),
            AgentEvent::Ran(s) => AgentEventView::Ran(s@),
        }
    }
}

/// What is to be done for the agent.
pub enum AgentAction {
    /// Wait for the UI; then `Input` or `Closed`.
    Receive,
    /// Forget that the user asked to stop; then `Proceed`.
    Begin,
    /// See whether the user asked to stop; then `Proceed`.
    Check,
    /// Ask the model; then `Answered` or `Failed`.
    Stream,
    /// Tell the UI that the agent has come to rest; then `Receive`.
    Settle(AiEvent),
    /// Show the call and run it; then `Ran`.
    RunLocal(ToolCall),
    /// Show the call and have the UI run it; then `Receive`.
    AskPane(ToolCall),
    /// Nothing more is to be done.
    Quit,
}

/// What an [`AgentAction`] holds.
pub ghost enum ActionView {
    Receive,
    Begin,
    Check,
    Stream,
    Settle(client::EventView),
    RunLocal(client::CallView),
    AskPane(client::CallView),
    Quit,
}

impl View for AgentAction {
    type V = ActionView;

    open spec fn view(&self) -> ActionView {
        match *self {
            AgentAction::Receive => ActionView::Receive,
            AgentAction::Begin => ActionView::Begin,
            AgentAction::Check => ActionView::Check,
            AgentAction::Stream => ActionView::Stream,
            AgentAction::Settle(e) => ActionView::Settle(e@),
            AgentAction::RunLocal(c) => ActionView::RunLocal(c@),
            AgentAction::AskPane(c) => ActionView::AskPane(c@),
            AgentAction::Quit => ActionView::Quit,
        }
    }
}

/// What the model is told of what the user says, with the content of the
/// panes before it where there is any.
pub open spec fn user_text(said: Seq<char>, context: Seq<char>) -> Seq<char> {
    if context.len() > 0 {
        "[terminal context]\n"@ + context + "\n[/terminal context]\n\n"@ + said
    } else {
        said
    }
}

/// The agent: the conversation so far and what it is doing.
pub struct Agent {
    pub messages: Vec<ChatMessage>,
    pub phase: Phase,
}

/// What an [`Agent`] holds.
pub ghost struct AgentView {
    pub messages: Seq<client::MessageView>,
    pub phase: PhaseView,
}

impl View for Agent {
    type V = AgentView;

    open spec fn view(&self) -> AgentView {
        AgentView { messages: client::message_views(self.messages@), phase: self.phase@ }
    }
}

/// The answer to a call in a conversation.
pub open spec fn answers(m: client::MessageView, c: client::CallView) -> bool {
    m == client::tool_message(c.id, m.content)
}

/// Whether the conversation has, from position `at` on, a message of the model
/// that asks for `calls`, and behind it answers to the first `done` of them, in
/// their order and nothing else.
pub open spec fn answered(
    messages: Seq<client::MessageView>,
    at: int,
    calls: Seq<client::CallView>,
    done: int,
) -> bool {
    &&& 0 <= at < messages.len()
    &&& messages[at] == client::assistant_message(messages[at].content, calls)
    &&& messages.len() >= at + 1 + done
    &&& forall|i: int| 0 <= i < done ==> answers(#[trigger] messages[at + 1 + i], calls[i])
}

impl AgentView {
    /// While tools run, the conversation ends with the message that asks for
    /// them and the answers that there are.
    pub open spec fn wf(self) -> bool {
        match self.phase {
            PhaseView::Tools { calls, done } => {
                &&& 0 <= done < calls.len()
                &&& answered(self.messages, self.messages.len() - 1 - done, calls, done)
            },
            _ => true,
        }
    }

    /// What is to be done for the next call.
    pub open spec fn next_call(calls: Seq<client::CallView>, done: int) -> ActionView {
        if local_tool(calls[done].name) {
            ActionView::RunLocal(calls[done])
        } else {
            ActionView::AskPane(calls[done])
        }
    }

    /// The next call has the result `content`.
    pub open spec fn after_tool(
        self,
        calls: Seq<client::CallView>,
        done: int,
        content: Seq<char>,
    ) -> (AgentView, ActionView) {
        let messages = self.messages.push(client::tool_message(calls[done].id, content));
        if done + 1 < calls.len() {
            (
                AgentView { messages, phase: PhaseView::Tools { calls, done: done + 1 } },
                AgentView::next_call(calls, done + 1),
            )
        } else {
            (AgentView { messages, phase: PhaseView::Ready }, ActionView::Check)
        }
    }

    /// What the agent does when something happens. Something that cannot
    /// happen in its phase changes nothing.
    pub open spec fn step(self, event: AgentEventView) -> (AgentView, ActionView) {
        match (self.phase, event) {
            (
                PhaseView::Idle,
                AgentEventView::Input(client::InputView::User { text, context }),
            ) => (
                AgentView {
                    messages: self.messages.push(client::user_message(user_text(text, context))),
                    phase: PhaseView::Ready,
                },
                ActionView::Begin,
            ),
            (PhaseView::Idle, AgentEventView::Closed) => (self, ActionView::Quit),
            (PhaseView::Ready, AgentEventView::Proceed { cancelled: true }) => (
                AgentView { messages: self.messages, phase: PhaseView::Idle },
                ActionView::Settle(client::EventView::Done),
            ),
            (PhaseView::Ready, AgentEventView::Proceed { cancelled: false }) => (
                AgentView { messages: self.messages, phase: PhaseView::Streaming },
                ActionView::Stream,
            ),
            (PhaseView::Streaming, AgentEventView::Failed(e)) => (
                AgentView { messages: self.messages, phase: PhaseView::Idle },
                ActionView::Settle(client::EventView::Error(e)),
            ),
            (PhaseView::Streaming, AgentEventView::Answered { text, calls, cancelled }) => {
                let messages = self.messages.push(client::assistant_message(text, calls));
                if calls.len() == 0 || cancelled {
                    (
                        AgentView { messages, phase: PhaseView::Idle },
                        ActionView::Settle(client::EventView::Done),
                    )
                } else {
                    (
                        AgentView { messages, phase: PhaseView::Tools { calls, done: 0 } },
                        AgentView::next_call(calls, 0),
                    )
                }
            },
            (PhaseView::Tools { calls, done }, AgentEventView::Ran(result)) => if local_tool(
                calls[done].name,
            ) {
                self.after_tool(calls, done, result)
            } else {
                (self, ActionView::Receive)
            },
            (
                PhaseView::Tools { calls, done },
                AgentEventView::Input(client::InputView::ToolResult { id, content }),
            ) => if !local_tool(calls[done].name) && id == calls[done].id {
                self.after_tool(calls, done, content)
            } else {
                (self, ActionView::Receive)
            },
            (PhaseView::Tools { calls, done }, AgentEventView::Closed) => if local_tool(
                calls[done].name,
            ) {
                (self, ActionView::Receive)
            } else {
                self.after_tool(calls, done, "(no result)"@)
            },
            _ => (self, ActionView::Receive),
        }
    }
}

impl Agent {
    /// Well-formedness; see [`AgentView::wf`].
    pub open spec fn wf(self) -> bool {
        self@.wf()
    }

    /// An agent that knows its instructions and waits for the user.
    pub fn new(system_prompt: String) -> (r: Self)
        ensures
            r.wf(),
            r@ == (AgentView {
                messages: seq![client::system_message(system_prompt@)],
                phase: PhaseView::Idle,
            }),
    {
        let messages: Vec<ChatMessage> = vec![ChatMessage::system(system_prompt)];
        assert(client::message_views(messages@) =~= seq![client::system_message(system_prompt@)]);
        Agent { messages, phase: Phase::Idle }
    }

    fn say(&mut self, m: ChatMessage)
        ensures
            final(self).phase == old(self).phase,
            final(self)@.messages == old(self)@.messages.push(m@),
    {
        self.messages.push(m);
        assert(self@.messages =~= old(self)@.messages.push(m@));
    }

    fn run_call(c: &ToolCall) -> (r: AgentAction)
        ensures
            r@ == (if local_tool(c@.name) {
                ActionView::RunLocal(c@)
            } else {
                ActionView::AskPane(c@)
            }),
    {
        if is_local_tool(c.name.as_str()) {
            AgentAction::RunLocal(c.clone())
        } else {
            AgentAction::AskPane(c.clone())
        }
    }

    fn answer(&mut self, calls: Vec<ToolCall>, done: usize, content: String) -> (r: AgentAction)
        requires
            done < calls.len(),
            answered(
                old(self)@.messages,
                old(self)@.messages.len() - 1 - done,
                client::call_views(calls@),
                done as int,
            ),
        ensures
            (final(self)@, r@) == old(self)@.after_tool(
                client::call_views(calls@),
                done as int,
                content@,
            ),
            final(self).wf(),
    {
        let ghost old_messages = self@.messages;
        let ghost views = client::call_views(calls@);
        let id: String = calls[done].id.clone();
        self.say(ChatMessage::tool_result(id, content));
        proof {
            lemma_answered(old_messages, views, done as int, content@);
        }
        if done + 1 < calls.len() {
            let action = Self::run_call(&calls[done + 1]);
            self.phase = Phase::Tools { calls, done: done + 1 };
            action
        } else {
            self.phase = Phase::Ready;
            AgentAction::Check
        }
    }

    /// Takes note of what happened and decides what is to be done next.
    pub fn step(&mut self, event: AgentEvent) -> (r: AgentAction)
        requires
            old(self).wf(),
        ensures
            (final(self)@, r@) == old(self)@.step(event@),
            final(self).wf(),
    {
        let mut phase = Phase::Idle;
        std::mem::swap(&mut self.phase, &mut phase);
        match phase {
            Phase::Idle => match event {
                AgentEvent::Input(AgentInput::User { text, context }) => {
                    let content: String = if context.as_str().is_empty() {
                        text
                    } else {
                        let mut s: String = "[terminal context]\n".to_owned();
                        s.append(context.as_str());
                        s.append("\n[/terminal context]\n\n");
                        s.append(text.as_str());
                        s
                    };
                    assert(content@ =~= user_text(text@, context@));
                    self.say(ChatMessage::user(content));
                    self.phase = Phase::Ready;
                    AgentAction::Begin
                },
                AgentEvent::Closed => AgentAction::Quit,
                _ => AgentAction::Receive,
            },
            Phase::Ready => match event {
                AgentEvent::Proceed { cancelled } => if cancelled {
                    AgentAction::Settle(AiEvent::Done)
                } else {
                    self.phase = Phase::Streaming;
                    AgentAction::Stream
                },
                _ => {
                    self.phase = Phase::Ready;
                    AgentAction::Receive
                },
            },
            Phase::Streaming => match event {
                AgentEvent::Failed(e) => AgentAction::Settle(AiEvent::Error(e)),
                AgentEvent::Answered { text, calls, cancelled } => {
                    let pending: Vec<ToolCall> = copy_calls(&calls);
                    let none: bool = pending.len() == 0;
                    assert(pending.len() == client::call_views(pending@).len());
                    assert(calls.len() == client::call_views(calls@).len());
                    self.say(
                        ChatMessage {
                            role: "assistant".to_owned(),
                            content: text,
                            tool_calls: calls,
                            tool_call_id: None,
                        },
                    );
                    if none || cancelled {
                        AgentAction::Settle(AiEvent::Done)
                    } else {
                        let action = Self::run_call(&pending[0]);
                        self.phase = Phase::Tools { calls: pending, done: 0 };
                        action
                    }
                },
                _ => {
                    self.phase = Phase::Streaming;
                    AgentAction::Receive
                },
            },
            Phase::Tools { calls, done } => {
                let local: bool = is_local_tool(calls[done].name.as_str());
                match event {
                    AgentEvent::Ran(result) if local => self.answer(calls, done, result),
                    AgentEvent::Input(AgentInput::ToolResult { id, content }) if !local
                        && same_text(id.as_str(), calls[done].id.as_str()) => self.answer(
                        calls,
                        done,
                        content,
                    ),
                    AgentEvent::Closed if !local => self.answer(
                        calls,
                        done,
                        "(no result)".to_owned(),
                    ),
                    _ => {
                        self.phase = Phase::Tools { calls, done };
                        AgentAction::Receive
                    },
                }
            },
        }
    }
}

proof fn lemma_answered(
    messages: Seq<client::MessageView>,
    calls: Seq<client::CallView>,
    done: int,
    content: Seq<char>,
)
    requires
        0 <= done < calls.len(),
        answered(messages, messages.len() - 1 - done, calls, done),
    ensures
        answered(
            messages.push(client::tool_message(calls[done].id, content)),
            messages.len() - 1 - done,
            calls,
            done + 1,
        ),
{
    let next = messages.push(client::tool_message(calls[done].id, content));
    let at = messages.len() - 1 - done;
    assert forall|i: int| 0 <= i < done + 1 implies answers(#[trigger] next[at + 1 + i], calls[i]) by {
        if i < done {
            assert(answers(messages[at + 1 + i], calls[i]));
        }
    }
}

/// The event that brings the result of a call: the agent ran the tool itself,
/// or the UI did and replied.
pub open spec fn result_event(c: client::CallView, result: Seq<char>) -> AgentEventView {
    if local_tool(c.name) {
        AgentEventView::Ran(result)
    } else {
        AgentEventView::Input(client::InputView::ToolResult { id: c.id, content: result })
    }
}

/// The agent after the results of its calls from number `done` on have come, up
/// to number `upto`.
pub open spec fn after_results(
    agent: AgentView,
    calls: Seq<client::CallView>,
    results: Seq<Seq<char>>,
    done: int,
    upto: int,
) -> AgentView
    decreases upto - done,
{
    if done >= upto {
        agent
    } else {
        after_results(
            agent.step(result_event(calls[done], results[done])).0,
            calls,
            results,
            done + 1,
            upto,
        )
    }
}

/// The answers to calls, in their order.
pub open spec fn answer_messages(
    calls: Seq<client::CallView>,
    results: Seq<Seq<char>>,
    from: int,
) -> Seq<client::MessageView> {
    Seq::new(
        (calls.len() - from) as nat,
        |i: int| client::tool_message(calls[from + i].id, results[from + i]),
    )
}

proof fn lemma_after_results(
    agent: AgentView,
    calls: Seq<client::CallView>,
    results: Seq<Seq<char>>,
    done: int,
)
    requires
        0 <= done < calls.len(),
        results.len() == calls.len(),
        agent.phase == (PhaseView::Tools { calls, done }),
    ensures
        after_results(agent, calls, results, done, calls.len() as int) == (AgentView {
            messages: agent.messages + answer_messages(calls, results, done),
            phase: PhaseView::Ready,
        }),
    decreases calls.len() - done,
{
    let n = calls.len() as int;
    let next = agent.step(result_event(calls[done], results[done])).0;
    let told = client::tool_message(calls[done].id, results[done]);
    assert(next.messages == agent.messages.push(told));
    if done + 1 < n {
        lemma_after_results(next, calls, results, done + 1);
        assert(agent.messages.push(told) + answer_messages(calls, results, done + 1)
            =~= agent.messages + answer_messages(calls, results, done));
    } else {
        assert(after_results(next, calls, results, done + 1, n) == next);
        assert(agent.messages.push(told) =~= agent.messages + answer_messages(
            calls,
            results,
            done,
        ));
    }
}

/// When the model asks for tools and the user does not stop it, then each call
/// is answered with its own result, in the order in which the model asked, and
/// the model has its next turn with all of them in the conversation.
pub proof fn law_every_call_is_answered(
    agent: AgentView,
    said: Seq<char>,
    calls: Seq<client::CallView>,
    results: Seq<Seq<char>>,
)
    requires
        agent.phase is Streaming,
        calls.len() > 0,
        results.len() == calls.len(),
    ensures
        after_results(
            agent.step(AgentEventView::Answered { text: said, calls, cancelled: false }).0,
            calls,
            results,
            0,
            calls.len() as int,
        ) == (AgentView {
            messages: agent.messages.push(client::assistant_message(said, calls))
                + answer_messages(calls, results, 0),
            phase: PhaseView::Ready,
        }),
{
    let asked = agent.step(AgentEventView::Answered { text: said, calls, cancelled: false }).0;
    lemma_after_results(asked, calls, results, 0);
}

/// Whatever happens, nothing that was said is taken back.
pub proof fn law_conversation_only_grows(agent: AgentView, event: AgentEventView)
    requires
        agent.wf(),
    ensures
        agent.messages.is_prefix_of(agent.step(event).0.messages),
        agent.step(event).0.wf(),
{
    if let PhaseView::Tools { calls, done } = agent.phase {
        lemma_answered(agent.messages, calls, done, "(no result)"@);
        if let AgentEventView::Ran(result) = event {
            lemma_answered(agent.messages, calls, done, result);
        }
        if let AgentEventView::Input(client::InputView::ToolResult { id, content }) = event {
            lemma_answered(agent.messages, calls, done, content);
        }
    }
}

/// Once the user has asked to stop, no further turn begins and no tool runs.
pub proof fn law_stop_ends_the_turn(
    agent: AgentView,
    said: Seq<char>,
    calls: Seq<client::CallView>,
)
    ensures
        agent.phase is Ready ==> agent.step(AgentEventView::Proceed { cancelled: true }) == (
            AgentView { messages: agent.messages, phase: PhaseView::Idle },
            ActionView::Settle(client::EventView::Done),
        ),
        agent.phase is Streaming ==> agent.step(
            AgentEventView::Answered { text: said, calls, cancelled: true },
        ).1 == ActionView::Settle(client::EventView::Done),
{
}

/// An answer of the model that asks for no tool is its last for this request.
pub proof fn law_an_answer_without_tools_is_final(agent: AgentView, said: Seq<char>, cancelled: bool)
    requires
        agent.phase is Streaming,
    ensures
        agent.step(AgentEventView::Answered { text: said, calls: seq![], cancelled }) == (
            AgentView {
                messages: agent.messages.push(client::assistant_message(said, seq![])),
                phase: PhaseView::Idle,
            },
            ActionView::Settle(client::EventView::Done),
        ),
{
}

/// While a tool runs in a pane, only the result of that very call is taken.
pub proof fn law_only_the_awaited_result_counts(
    agent: AgentView,
    calls: Seq<client::CallView>,
    done: int,
    input: client::InputView,
)
    requires
        agent.phase == (PhaseView::Tools { calls, done }),
        !local_tool(calls[done].name),
        !(input is ToolResult) || input->id != calls[done].id,
    ensures
        agent.step(AgentEventView::Input(input)) == (agent, ActionView::Receive),
{
}

/// What the user asks is told to the model in full: the conversation gets one
/// more message, of the user, that ends with exactly the user's words and has
/// the whole of the panes' content before them, where there is any. The rest of
/// the message is the same for every request with some content.
pub proof fn law_the_request_is_told(
    agent: AgentView,
    said: Seq<char>,
    context: Seq<char>,
    said2: Seq<char>,
    context2: Seq<char>,
)
    requires
        agent.phase is Idle,
    ensures
        ({
            let (next, action) = agent.step(
                AgentEventView::Input(client::InputView::User { text: said, context }),
            );
            let told = next.messages.last();
            let told2 = agent.step(
                AgentEventView::Input(client::InputView::User { text: said2, context: context2 }),
            ).0.messages.last();
            let head = told.content.take(told.content.len() - said.len());
            let head2 = told2.content.take(told2.content.len() - said2.len());
            &&& next.messages.len() == agent.messages.len() + 1
            &&& agent.messages.is_prefix_of(next.messages)
            &&& next.phase is Ready
            &&& action is Begin
            &&& told.role == "user"@
            &&& told.tool_calls.len() == 0
            &&& told.tool_call_id is None
            &&& told.content.len() >= said.len()
            &&& said.is_suffix_of(told.content)
            &&& context.len() == 0 ==> told.content == said
            &&& context.len() > 0 ==> head == "[terminal context]\n"@ + context
                + "\n[/terminal context]\n\n"@
            &&& context == context2 ==> head == head2
            &&& context == context2 && said != said2 ==> told != told2
            &&& context.len() > 0 && context2.len() > 0 ==> head.len() - context.len()
                == head2.len() - context2.len()
        }),
{
    let told = user_text(said, context);
    let told2 = user_text(said2, context2);
    assert(told.skip(told.len() - said.len()) =~= said);
    assert(told2.skip(told2.len() - said2.len()) =~= said2);
    if context.len() > 0 {
        assert(told.take(told.len() - said.len()) =~= "[terminal context]\n"@ + context
            + "\n[/terminal context]\n\n"@);
    } else {
        assert(told.take(told.len() - said.len()) =~= Seq::<char>::empty());
    }
    if context2.len() > 0 {
        assert(told2.take(told2.len() - said2.len()) =~= "[terminal context]\n"@ + context2
            + "\n[/terminal context]\n\n"@);
    } else {
        assert(told2.take(told2.len() - said2.len()) =~= Seq::<char>::empty());
    }
    assert(said.is_suffix_of(told)) by {
        assert(told.subrange(told.len() - said.len(), told.len() as int) =~= said);
    }
    let next = agent.step(
        AgentEventView::Input(client::InputView::User { text: said, context }),
    ).0.messages;
    assert(agent.messages =~= next.take(agent.messages.len() as int));
}

/// What the model says and the calls that it makes come into the conversation as
/// they are; so does each result, under the number of its own call.
pub proof fn law_answers_are_kept_as_they_are(
    agent: AgentView,
    said: Seq<char>,
    calls: Seq<client::CallView>,
    results: Seq<Seq<char>>,
    i: int,
)
    requires
        agent.phase is Streaming,
        calls.len() > 0,
        results.len() == calls.len(),
        0 <= i < calls.len(),
    ensures
        ({
            let n = agent.messages.len();
            let asked = agent.step(
                AgentEventView::Answered { text: said, calls, cancelled: false },
            ).0;
            let all = after_results(asked, calls, results, 0, calls.len() as int).messages;
            &&& asked.messages.len() == n + 1
            &&& all.len() == n + 1 + calls.len()
            &&& agent.messages.is_prefix_of(all)
            &&& all[n as int].role == "assistant"@
            &&& all[n as int].content == said
            &&& all[n as int].tool_calls == calls
            &&& all[n as int].tool_call_id is None
            &&& all[n + 1 + i].role == "tool"@
            &&& all[n + 1 + i].content == results[i]
            &&& all[n + 1 + i].tool_call_id == Some(calls[i].id)
            &&& all[n + 1 + i].tool_calls.len() == 0
        }),
{
    law_every_call_is_answered(agent, said, calls, results);
    let asked = agent.step(AgentEventView::Answered { text: said, calls, cancelled: false }).0;
    let all = after_results(asked, calls, results, 0, calls.len() as int).messages;
    assert(agent.messages =~= all.take(agent.messages.len() as int));
}

/// Calls are made one at a time, in the order of the model: the first as soon as
/// the model has asked, each other one as soon as the one before it has its
/// result, and the model is asked again only behind the last.
pub proof fn law_calls_are_made_in_order(
    agent: AgentView,
    said: Seq<char>,
    calls: Seq<client::CallView>,
    done: int,
    result: Seq<char>,
)
    requires
        0 <= done < calls.len(),
    ensures
        agent.phase is Streaming ==> ({
            let (next, action) = agent.step(
                AgentEventView::Answered { text: said, calls, cancelled: false },
            );
            &&& next.phase == (PhaseView::Tools { calls, done: 0 })
            &&& action == ActionView::RunLocal(calls[0]) || action == ActionView::AskPane(calls[0])
        }),
        agent.phase == (PhaseView::Tools { calls, done }) ==> ({
            let (next, action) = agent.step(result_event(calls[done], result));
            &&& next.messages.len() == agent.messages.len() + 1
            &&& next.messages.last().content == result
            &&& next.messages.last().tool_call_id == Some(calls[done].id)
            &&& if done + 1 < calls.len() {
                &&& next.phase == (PhaseView::Tools { calls, done: done + 1 })
                &&& action == ActionView::RunLocal(calls[done + 1]) || action
                    == ActionView::AskPane(calls[done + 1])
            } else {
                next.phase is Ready && action is Check
            }
        }),
{
}

/// A call that the agent makes itself is answered by what that gave, one for the
/// panes by the reply of the UI, or by a note where the UI is gone.
pub proof fn law_each_call_has_one_place(
    agent: AgentView,
    calls: Seq<client::CallView>,
    done: int,
    result: Seq<char>,
)
    requires
        0 <= done < calls.len(),
        agent.phase == (PhaseView::Tools { calls, done }),
    ensures
        ({
            let ran = agent.step(AgentEventView::Ran(result)).0;
            let replied = agent.step(
                AgentEventView::Input(
                    client::InputView::ToolResult { id: calls[done].id, content: result },
                ),
            ).0;
            let gone = agent.step(AgentEventView::Closed).0;
            let answer = agent.messages.push(client::tool_message(calls[done].id, result));
            if local_tool(calls[done].name) {
                ran.messages == answer && replied == agent && gone == agent
            } else {
                ran == agent && replied.messages == answer && gone.messages.len()
                    == agent.messages.len() + 1 && gone.messages.last().tool_call_id == Some(
                    calls[done].id,
                ) && gone.messages.last().content == "(no result)"@
            }
        }),
{
}

/// A turn of the model begins unless the user has stopped it, and one that fails
/// is reported with what went wrong; the conversation stays as it is.
pub proof fn law_turns_begin_and_fail(agent: AgentView, error: Seq<char>)
    ensures
        agent.phase is Ready ==> agent.step(AgentEventView::Proceed { cancelled: false }) == (
            AgentView { messages: agent.messages, phase: PhaseView::Streaming },
            ActionView::Stream,
        ),
        agent.phase is Streaming ==> agent.step(AgentEventView::Failed(error)) == (
            AgentView { messages: agent.messages, phase: PhaseView::Idle },
            ActionView::Settle(client::EventView::Error(error)),
        ),
        agent.phase is Idle ==> agent.step(AgentEventView::Closed) == (agent, ActionView::Quit),
{
}

/// Which tools the agent runs itself; every other is for the panes.
pub proof fn law_tools_of_the_agent(name: Seq<char>)
    ensures
        local_tool(name) <==> seq![
            "shell"@,
            "shell_bg"@,
            "read_shell"@,
            "wait"@,
            "browser_open"@,
            "browser_read"@,
            "browser_request_login"@,
            "browser_save_login"@,
            "browser_setup"@,
        ].contains(name),
{
    let own = seq![
        "shell"@,
        "shell_bg"@,
        "read_shell"@,
        "wait"@,
        "browser_open"@,
        "browser_read"@,
        "browser_request_login"@,
        "browser_save_login"@,
        "browser_setup"@,
    ];
    assert(own[0] == "shell"@ && own[1] == "shell_bg"@ && own[2] == "read_shell"@ && own[3]
        == "wait"@ && own[4] == "browser_open"@ && own[5] == "browser_read"@ && own[6]
        == "browser_request_login"@ && own[7] == "browser_save_login"@ && own[8]
        == "browser_setup"@);
}

/// A call is run where its tool is: by the agent, or by the window that has the
/// panes; the first one of an answer and each one that follows.
pub proof fn law_calls_are_run_where_their_tool_is(
    agent: AgentView,
    said: Seq<char>,
    calls: Seq<client::CallView>,
    done: int,
    result: Seq<char>,
)
    requires
        0 <= done < calls.len(),
    ensures
        agent.phase is Streaming ==> agent.step(
            AgentEventView::Answered { text: said, calls, cancelled: false },
        ).1 == (if local_tool(calls[0].name) {
            ActionView::RunLocal(calls[0])
        } else {
            ActionView::AskPane(calls[0])
        }),
        agent.phase == (PhaseView::Tools { calls, done }) && done + 1 < calls.len() ==> agent.step(
            result_event(calls[done], result),
        ).1 == (if local_tool(calls[done + 1].name) {
            ActionView::RunLocal(calls[done + 1])
        } else {
            ActionView::AskPane(calls[done + 1])
        }),
{
}

/// An answer that was stopped is kept as far as it came, and the turn is over.
/// What does not belong to the phase that the agent is in changes nothing.
pub proof fn law_stopped_answers_are_kept(
    agent: AgentView,
    said: Seq<char>,
    calls: Seq<client::CallView>,
    event: AgentEventView,
)
    ensures
        agent.phase is Streaming ==> {
            let next = agent.step(AgentEventView::Answered { text: said, calls, cancelled: true }).0;
            &&& next.phase is Idle
            &&& next.messages.len() == agent.messages.len() + 1
            &&& agent.messages.is_prefix_of(next.messages)
            &&& next.messages.last().role == "assistant"@
            &&& next.messages.last().content == said
            &&& next.messages.last().tool_calls == calls
        },
        agent.phase is Idle && !(event is Input) && !(event is Closed) ==> agent.step(event) == (
            agent,
            ActionView::Receive,
        ),
        agent.phase is Ready && !(event is Proceed) ==> agent.step(event) == (
            agent,
            ActionView::Receive,
        ),
        agent.phase is Streaming && !(event is Answered) && !(event is Failed) ==> agent.step(event)
            == (agent, ActionView::Receive),
{
}

} // verus!
