//! The agent's tool loop as a state machine: a reply's tool calls are taken
//! one by one through the hook, the lookup, the preview, the permission
//! prompt and the execution, and their results go back to the provider. Calls
//! of tools that cannot interfere with each other are executed together.
//!
//! Nothing here performs I/O. Each method takes what came back from outside
//! and answers with the next thing to do.

use vstd::prelude::*;
use crate::context::{self, assemble, copy_specs, AssembledContext, ContextInputs, ToolSpec};
use crate::message::{self, copy_messages, Block, ContentBlock, Message, Msg, Role, Usage};
use crate::text::{self, listed, text_eq};

verus! {

/// What a gated tool call would do, shown before it is allowed.
#[derive(Debug, PartialEq, Eq)]
pub enum PermissionPayload {
    Command(String),
    Diff { path: String, old: String, new: String },
    ToolCall { server: String, tool: String, input_pretty: String },
}

impl Clone for PermissionPayload {
    fn clone(&self) -> (r: Self)
        ensures
            r == *self,
    {
        match self {
            PermissionPayload::Command(command) => PermissionPayload::Command(command.clone()),
            PermissionPayload::Diff { path, old, new } => PermissionPayload::Diff {
                path: path.clone(),
                old: old.clone(),
                new: new.clone(),
            },
            PermissionPayload::ToolCall { server, tool, input_pretty } =>
            PermissionPayload::ToolCall {
                server: server.clone(),
                tool: tool.clone(),
                input_pretty: input_pretty.clone(),
            },
        }
    }
}

impl PermissionPayload {
    /// The text of a command, where the call is one.
    pub open spec fn command_spec(self) -> Option<Seq<char>> {
        match self {
            PermissionPayload::Command(command) => Some(command@),
            _ => None,
        }
    }

    /// The text of a command, where the call is one.
    pub fn command(&self) -> (r: Option<&str>)
        ensures
            text::opt_str(r) == self.command_spec(),
    {
        match self {
            PermissionPayload::Command(command) => Some(command.as_str()),
            _ => None,
        }
    }
}

/// A gated tool call that awaits the user's permission.
#[derive(Debug, PartialEq, Eq)]
pub struct PermissionRequest {
    pub tool_name: String,
    pub payload: PermissionPayload,
}

impl Clone for PermissionRequest {
    fn clone(&self) -> (r: Self)
        ensures
            r == *self,
    {
        PermissionRequest { tool_name: self.tool_name.clone(), payload: self.payload.clone() }
    }
}

/// A tool call as it is shown to a hook before anything else sees it.
/// `tool_input` is JSON, held as its compact text.
#[derive(Debug, PartialEq, Eq)]
pub struct PreToolHookRequest {
    pub tool_name: String,
    pub tool_input: String,
}

/// What the hooks decided about a tool call.
#[derive(Debug, PartialEq, Eq)]
pub enum PreToolHookOutcome {
    Allow,
    Deny(String),
}

/// A tool call out of a reply. `input` is JSON, held as its compact text.
#[derive(Debug, PartialEq, Eq)]
pub struct ToolCall {
    pub id: String,
    pub name: String,
    pub input: String,
}

/// A tool call, as mathematical values.
pub struct Call {
    pub id: Seq<char>,
    pub name: Seq<char>,
    pub input: Seq<char>,
}

impl View for ToolCall {
    type V = Call;

    open spec fn view(&self) -> Call {
        Call { id: self.id@, name: self.name@, input: self.input@ }
    }
}

/// A list of tool calls, as mathematical values.
pub open spec fn calls_view(v: Seq<ToolCall>) -> Seq<Call> {
    v.map_values(|c: ToolCall| c@)
}

/// Where the loop stands. The tool under way is named by its place in the
/// tool list.
#[derive(Debug, Clone, Copy, PartialEq, Eq, Structural)]
pub enum Phase {
    /// Waiting for the provider's reply.
    Sending,
    /// Between two tool calls.
    Ready,
    /// Waiting for the hooks' verdict on the current call.
    Hooking,
    /// Waiting for the current tool's preview.
    Previewing(usize),
    /// Waiting for the user's permission.
    Asking(usize),
    /// Waiting for the current tool's result.
    Executing(usize),
    /// Waiting for the results of the calls that were set aside.
    Together,
    /// The final reply has been recorded.
    Done,
}

/// What to do next.
pub enum LoopAction {
    /// Send this request and hand the reply to `on_reply`.
    Send(AssembledContext),
    /// Run the hooks and hand their verdict to `on_hook`.
    RunHook(PreToolHookRequest),
    /// Ask this tool for a preview and hand it to `on_preview`.
    Preview { tool: usize, input: String },
    /// Ask the user and hand the answer to `on_permission`.
    AskPermission(PermissionRequest),
    /// Execute this tool and hand the result to `on_execution`.
    Execute { tool: usize, input: String },
    /// Execute these tools at the same time and hand all results to
    /// `on_together`, in this order.
    ExecuteTogether(Vec<Errand>),
    /// Nothing to do outside: call `proceed`.
    Continue,
    /// The reply without tool calls, and what it cost.
    Finished(Message, Usage),
}

/// A call that is executed together with others.
#[derive(Debug, PartialEq, Eq)]
pub struct Errand {
    pub tool: usize,
    pub name: String,
    pub input: String,
}

/// A call that is executed together with others, as mathematical values.
pub struct Job {
    pub tool: usize,
    pub name: Seq<char>,
    pub input: Seq<char>,
}

impl View for Errand {
    type V = Job;

    open spec fn view(&self) -> Job {
        Job { tool: self.tool, name: self.name@, input: self.input@ }
    }
}

/// A list of calls that are executed together, as mathematical values.
pub open spec fn jobs(v: Seq<Errand>) -> Seq<Job> {
    v.map_values(|e: Errand| e@)
}

/// What has become of a call behind the first one that was set aside.
#[derive(Debug)]
pub enum Slot {
    /// It is set aside, to be executed by this tool.
    Waiting(usize),
    /// It has its result already.
    Settled { content: String, is_error: bool },
}

/// What has become of a call, as mathematical values.
pub enum Place {
    Waiting(usize),
    Settled(Seq<char>, bool),
}

impl View for Slot {
    type V = Place;

    open spec fn view(&self) -> Place {
        match self {
            Slot::Waiting(tool) => Place::Waiting(*tool),
            Slot::Settled { content, is_error } => Place::Settled(content@, *is_error),
        }
    }
}

/// A list of places, as mathematical values.
pub open spec fn places(v: Seq<Slot>) -> Seq<Place> {
    v.map_values(|s: Slot| s@)
}

/// What a tool gave back: its text, and whether it failed.
pub open spec fn outcome(r: Result<String, String>) -> (Seq<char>, bool) {
    match r {
        Ok(output) => (output@, false),
        Err(error) => (error@, true),
    }
}

/// What some tools gave back.
pub open spec fn outcomes(v: Seq<Result<String, String>>) -> Seq<(Seq<char>, bool)> {
    v.map_values(|r: Result<String, String>| outcome(r))
}

/// The calls among `calls` that are set aside, in order. `ahead` says what has
/// become of each.
pub open spec fn set_aside_among(calls: Seq<Call>, ahead: Seq<Place>) -> Seq<Job>
    decreases ahead.len(),
{
    if ahead.len() == 0 {
        Seq::empty()
    } else {
        let before = set_aside_among(calls, ahead.drop_last());
        let call = calls[ahead.len() - 1];
        match ahead.last() {
            Place::Waiting(tool) => before.push(Job { tool, name: call.name, input: call.input }),
            Place::Settled(..) => before,
        }
    }
}

/// The results of `calls`: those that were set aside take theirs from
/// `outcomes`, in order.
pub open spec fn merged(
    calls: Seq<Call>,
    ahead: Seq<Place>,
    outcomes: Seq<(Seq<char>, bool)>,
) -> Seq<Block>
    decreases ahead.len(),
{
    if ahead.len() == 0 {
        Seq::empty()
    } else {
        let before = merged(calls, ahead.drop_last(), outcomes);
        let id = calls[ahead.len() - 1].id;
        match ahead.last() {
            Place::Waiting(_) => {
                let o = outcomes[set_aside_among(calls, ahead.drop_last()).len() as int];
                before.push(result_block(id, o.0, o.1))
            },
            Place::Settled(content, is_error) => before.push(result_block(id, content, is_error)),
        }
    }
}

/// The state that moves, as mathematical values.
pub struct LoopState {
    pub transcript: Seq<Msg>,
    pub calls: Seq<Call>,
    pub results: Seq<Block>,
    pub ahead: Seq<Place>,
    pub phase: Phase,
}

/// One conversation turn under way. The calls of a reply are looked at one
/// after the other, in the order of the reply, and each is executed before the
/// next one is looked at. The exception are calls of the tools in `concurrent`
/// that need no permission: those that follow each other are set aside and then
/// executed together.
pub struct ToolLoop {
    pub system_prompt: String,
    pub repo_map: Option<String>,
    pub tools: Vec<ToolSpec>,
    /// The names of the tools whose calls may overlap.
    pub concurrent: Vec<String>,
    pub pre_tool_hook: bool,
    pub transcript: Vec<Message>,
    pub calls: Vec<ToolCall>,
    pub results: Vec<ContentBlock>,
    /// What has become of the calls behind those with results, from the first
    /// one that was set aside.
    pub ahead: Vec<Slot>,
    pub phase: Phase,
}

impl View for ToolLoop {
    type V = LoopState;

    open spec fn view(&self) -> LoopState {
        LoopState {
            transcript: message::msgs(self.transcript@),
            calls: calls_view(self.calls@),
            results: message::blocks(self.results@),
            ahead: places(self.ahead@),
            phase: self.phase,
        }
    }
}

/// The tool calls among some blocks, in order.
pub open spec fn tool_uses(content: Seq<Block>) -> Seq<Call>
    decreases content.len(),
{
    if content.len() == 0 {
        Seq::empty()
    } else {
        let before = tool_uses(content.drop_last());
        match content.last() {
            Block::ToolUse { id, name, input, .. } => before.push(Call { id, name, input }),
            _ => before,
        }
    }
}

/// The first tool of that name.
pub open spec fn tool_index(tools: Seq<ToolSpec>, name: Seq<char>) -> Option<int>
    decreases tools.len(),
{
    if tools.len() == 0 {
        None
    } else if tools[0].name@ == name {
        Some(0)
    } else {
        match tool_index(tools.skip(1), name) {
            Some(i) => Some(i + 1),
            None => None,
        }
    }
}

/// A tool's answer to the call of that identifier.
pub open spec fn result_block(id: Seq<char>, content: Seq<char>, is_error: bool) -> Block {
    Block::ToolResult { tool_use_id: id, content, is_error, cache_control: None }
}

/// Whether `b` answers `c`.
pub open spec fn answers(b: Block, c: Call) -> bool {
    b matches Block::ToolResult { tool_use_id, .. } && tool_use_id == c.id
}

impl LoopState {
    /// How many calls have been dealt with.
    pub open spec fn at(self) -> nat {
        self.results.len() + self.ahead.len()
    }

    /// The call that is under way.
    pub open spec fn current(self) -> Call {
        self.calls[self.at() as int]
    }

    /// The calls that are set aside.
    pub open spec fn aside(self) -> Seq<Job> {
        set_aside_among(self.calls.skip(self.results.len() as int), self.ahead)
    }

    /// Whether the calls that are set aside are to be executed now: some are,
    /// and the next call cannot join them.
    pub open spec fn closes(self, concurrent: Seq<Seq<char>>) -> bool {
        self.ahead.len() > 0 && (self.at() == self.calls.len() || !concurrent.contains(
            self.current().name,
        ))
    }

    /// Whether every call of the reply has its result.
    pub open spec fn answered(self) -> bool {
        self.results.len() == self.calls.len()
    }

    /// The state after the current call has got its result. Behind a call that
    /// is set aside it keeps its place until that one has its result.
    pub open spec fn record(self, content: Seq<char>, is_error: bool) -> LoopState {
        if self.ahead.len() == 0 {
            LoopState {
                results: self.results.push(result_block(self.current().id, content, is_error)),
                phase: Phase::Ready,
                ..self
            }
        } else {
            LoopState {
                ahead: self.ahead.push(Place::Settled(content, is_error)),
                phase: Phase::Ready,
                ..self
            }
        }
    }

    /// The state after the current call has been set aside.
    pub open spec fn set_aside(self, tool: usize) -> LoopState {
        LoopState { ahead: self.ahead.push(Place::Waiting(tool)), phase: Phase::Ready, ..self }
    }

    /// The state after a call that needs no permission has come to its
    /// execution.
    pub open spec fn run_unasked(self, tool: usize, concurrent: Seq<Seq<char>>) -> LoopState {
        if concurrent.contains(self.current().name) {
            self.set_aside(tool)
        } else {
            self.enter(Phase::Executing(tool))
        }
    }

    /// The state after the calls that were set aside have got their results.
    pub open spec fn after_together(self, outcomes: Seq<(Seq<char>, bool)>) -> LoopState {
        LoopState {
            results: self.results + merged(
                self.calls.skip(self.results.len() as int),
                self.ahead,
                outcomes,
            ),
            ahead: Seq::empty(),
            phase: Phase::Ready,
            ..self
        }
    }

    /// The state with another phase.
    pub open spec fn enter(self, phase: Phase) -> LoopState {
        LoopState { phase, ..self }
    }

    /// After a reply: one without tool calls ends the loop, any other brings
    /// its calls; either way it joins the transcript.
    pub open spec fn after_reply(self, reply: Msg) -> LoopState {
        LoopState {
            transcript: self.transcript.push(reply),
            calls: tool_uses(reply.content),
            results: Seq::empty(),
            ahead: Seq::empty(),
            phase: if tool_uses(reply.content).len() == 0 {
                Phase::Done
            } else {
                Phase::Ready
            },
        }
    }

    /// After the last call of a reply: the results go back as one user
    /// message.
    pub open spec fn after_results(self) -> LoopState {
        LoopState {
            transcript: self.transcript.push(Msg { role: Role::User, content: self.results }),
            calls: Seq::empty(),
            results: Seq::empty(),
            ahead: Seq::empty(),
            phase: Phase::Sending,
        }
    }

    /// The current call looked up among the tools.
    pub open spec fn dispatch(self, tools: Seq<ToolSpec>) -> LoopState {
        match tool_index(tools, self.current().name) {
            Some(i) => self.enter(Phase::Previewing(i as usize)),
            None => self.record("unknown tool: "@ + self.current().name, true),
        }
    }

    /// What every method keeps: each result answers the call of the same
    /// place, only calls that may overlap are set aside, and a call is under
    /// way exactly where the phase says so.
    pub open spec fn wf(self, tools: Seq<ToolSpec>, concurrent: Seq<Seq<char>>) -> bool {
        &&& self.at() <= self.calls.len()
        &&& self.ahead.len() > 0 ==> self.ahead[0] is Waiting
        &&& forall|i: int|
            0 <= i < self.ahead.len() && (#[trigger] self.ahead[i] is Waiting) ==> {
                let call = self.calls[self.results.len() + i];
                &&& self.ahead[i]->Waiting_0 < tools.len()
                &&& tools[self.ahead[i]->Waiting_0 as int].name@ == call.name
                &&& concurrent.contains(call.name)
            }
        &&& forall|i: int|
            0 <= i < self.results.len() ==> answers(#[trigger] self.results[i], self.calls[i])
        &&& match self.phase {
            Phase::Sending | Phase::Done => self.calls.len() == 0,
            Phase::Ready => self.calls.len() > 0,
            Phase::Hooking => self.at() < self.calls.len(),
            Phase::Together => self.ahead.len() > 0,
            Phase::Previewing(t) | Phase::Asking(t) | Phase::Executing(t) => {
                &&& self.at() < self.calls.len()
                &&& t < tools.len()
                &&& tools[t as int].name@ == self.current().name
            },
        }
    }
}

/// `tool_index` finds the first tool of that name, where there is one.
pub proof fn lemma_tool_index(tools: Seq<ToolSpec>, name: Seq<char>)
    ensures
        match tool_index(tools, name) {
            Some(i) => 0 <= i < tools.len() && tools[i].name@ == name && forall|j: int|
                0 <= j < i ==> (#[trigger] tools[j]).name@ != name,
            None => forall|j: int| 0 <= j < tools.len() ==> (#[trigger] tools[j]).name@ != name,
        },
    decreases tools.len(),
{
    if tools.len() > 0 && tools[0].name@ != name {
        let rest = tools.skip(1);
        lemma_tool_index(rest, name);
        assert forall|j: int| 0 < j < tools.len() implies #[trigger] tools[j] == rest[j - 1] by {}
    }
}

/// The tool calls of a message, in order.
pub fn tool_calls(reply: &Message) -> (r: Vec<ToolCall>)
    ensures
        calls_view(r@) == tool_uses(reply@.content),
{
    let mut r: Vec<ToolCall> = Vec::new();
    let mut i: usize = 0;
    assert(calls_view(r@) =~= tool_uses(reply@.content.take(0)));
    while i < reply.content.len()
        invariant
            i <= reply.content.len(),
            calls_view(r@) == tool_uses(reply@.content.take(i as int)),
        decreases reply.content.len() - i,
    {
        let ghost before = r@;
        match &reply.content[i] {
            ContentBlock::ToolUse { id, name, input, .. } => {
                let call = ToolCall { id: id.clone(), name: name.clone(), input: input.clone() };
                r.push(call);
                assert(calls_view(r@) =~= calls_view(before).push(call@));
            },
            _ => {},
        }
        i += 1;
        proof {
            let t = reply@.content.take(i as int);
            assert(t.drop_last() =~= reply@.content.take(i - 1));
            assert(t.last() == reply.content@[i - 1]@);
        }
    }
    assert(reply@.content.take(reply@.content.len() as int) =~= reply@.content);
    r
}

/// The first tool of that name.
fn find_tool(tools: &Vec<ToolSpec>, name: &str) -> (r: Option<usize>)
    ensures
        match r {
            Some(i) => tool_index(tools@, name@) == Some(i as int) && i < tools.len()
                && tools@[i as int].name@ == name@,
            None => tool_index(tools@, name@) is None,
        },
{
    let mut i: usize = 0;
    while i < tools.len()
        invariant
            i <= tools.len(),
            forall|j: int| 0 <= j < i ==> (#[trigger] tools@[j]).name@ != name@,
        decreases tools.len() - i,
    {
        if text_eq(tools[i].name.as_str(), name) {
            proof {
                lemma_tool_index(tools@, name@);
            }
            return Some(i);
        }
        i += 1;
    }
    proof {
        lemma_tool_index(tools@, name@);
    }
    None
}

impl ToolLoop {
    /// A loop over a transcript whose last message is the new user turn.
    pub fn new(
        system_prompt: String,
        repo_map: Option<String>,
        tools: Vec<ToolSpec>,
        pre_tool_hook: bool,
        transcript: Vec<Message>,
    ) -> (r: ToolLoop)
        ensures
            r.wf(),
            r.system_prompt == system_prompt,
            r.repo_map == repo_map,
            r.tools == tools,
            r.pre_tool_hook == pre_tool_hook,
            r.concurrent@.len() == 0,
            r@ == (LoopState {
                transcript: message::msgs(transcript@),
                calls: Seq::empty(),
                results: Seq::empty(),
                ahead: Seq::empty(),
                phase: Phase::Sending,
            }),
    {
        let r = ToolLoop {
            system_prompt,
            repo_map,
            tools,
            concurrent: Vec::new(),
            pre_tool_hook,
            transcript,
            calls: Vec::new(),
            results: Vec::new(),
            ahead: Vec::new(),
            phase: Phase::Sending,
        };
        assert(r@.calls =~= Seq::empty());
        assert(r@.results =~= Seq::empty());
        assert(r@.ahead =~= Seq::empty());
        r
    }

    /// The loop, with the names of the tools whose calls may overlap.
    pub fn overlapping(self, concurrent: Vec<String>) -> (r: ToolLoop)
        requires
            self.wf(),
            self@.phase == Phase::Sending,
        ensures
            r.wf(),
            r.concurrent == concurrent,
            r.system_prompt == self.system_prompt,
            r.repo_map == self.repo_map,
            r.tools == self.tools,
            r.pre_tool_hook == self.pre_tool_hook,
            r@ == self@,
    {
        let mut r = self;
        r.concurrent = concurrent;
        r
    }

    /// What every method keeps.
    pub open spec fn wf(self) -> bool {
        self@.wf(self.tools@, text::texts(self.concurrent@))
    }

    /// What decides about every event.
    pub open spec fn setup(self) -> Setup {
        Setup {
            tools: self.tools@,
            concurrent: text::texts(self.concurrent@),
            hook: self.pre_tool_hook,
        }
    }

    /// What no method changes.
    pub open spec fn same_setup(self, other: ToolLoop) -> bool {
        &&& self.system_prompt == other.system_prompt
        &&& self.repo_map == other.repo_map
        &&& self.tools == other.tools
        &&& self.concurrent == other.concurrent
        &&& self.pre_tool_hook == other.pre_tool_hook
    }

    /// Whether `c` is the request for the transcript as it stands.
    pub open spec fn is_request(self, c: AssembledContext) -> bool {
        &&& message::msgs(c.messages@) == context::assembled_messages(
            self.system_prompt@,
            text::opt_text(self.repo_map),
            self@.transcript,
        )
        &&& c.tools@ == context::assembled_tools(self.tools@)
    }

    /// The request for the transcript as it stands. The transcript itself
    /// never holds the system segments.
    pub fn request(&self) -> (r: AssembledContext)
        ensures
            self.is_request(r),
    {
        let repo_map: Option<String> = match &self.repo_map {
            Some(map) => Some(map.clone()),
            None => None,
        };
        assert(text::opt_text(repo_map) == text::opt_text(self.repo_map));
        assemble(
            ContextInputs {
                system_prompt: self.system_prompt.clone(),
                tools: copy_specs(&self.tools),
                repo_map,
                transcript: copy_messages(&self.transcript),
            },
        )
    }

    /// Takes the provider's reply. It joins the transcript; without tool
    /// calls it is the final one.
    pub fn on_reply(&mut self, reply: Message, usage: Usage) -> (r: LoopAction)
        requires
            old(self).wf(),
            old(self)@.phase == Phase::Sending,
        ensures
            final(self).wf(),
            final(self).same_setup(*old(self)),
            final(self)@ == old(self)@.after_reply(reply@),
            final(self)@ == step(old(self)@, LoopEvent::Reply(reply@), old(self).setup()),
            tool_uses(reply@.content).len() == 0 ==> (r matches LoopAction::Finished(m, u) && m@
                == reply@ && u == usage),
            tool_uses(reply@.content).len() > 0 ==> r is Continue,
    {
        let calls = tool_calls(&reply);
        let done = calls.len() == 0;
        let last = reply.clone();
        let ghost before = self.transcript@;
        self.transcript.push(reply);
        assert(message::msgs(self.transcript@) =~= message::msgs(before).push(reply@));
        self.calls = calls;
        self.results = Vec::new();
        self.ahead = Vec::new();
        assert(message::blocks(self.results@) =~= Seq::empty());
        assert(places(self.ahead@) =~= Seq::empty());
        if done {
            self.phase = Phase::Done;
            LoopAction::Finished(last, usage)
        } else {
            self.phase = Phase::Ready;
            LoopAction::Continue
        }
    }

    /// How many calls have been dealt with: the place of the current one.
    pub fn at(&self) -> (r: usize)
        requires
            self.wf(),
        ensures
            r == self@.at(),
    {
        assert(self@.results.len() == self.results.len());
        assert(self@.ahead.len() == self.ahead.len());
        assert(self@.calls.len() == self.calls.len());
        self.results.len() + self.ahead.len()
    }

    /// Gives the current call its result.
    fn record(&mut self, content: String, is_error: bool)
        requires
            old(self).wf(),
            old(self)@.at() < old(self)@.calls.len(),
        ensures
            final(self).wf(),
            final(self).same_setup(*old(self)),
            final(self)@ == old(self)@.record(content@, is_error),
    {
        if self.ahead.len() > 0 {
            let ghost before = self@;
            self.ahead.push(Slot::Settled { content, is_error });
            self.phase = Phase::Ready;
            proof {
                assert(self@.ahead =~= before.ahead.push(Place::Settled(content@, is_error)));
                assert(self@.ahead.drop_last() =~= before.ahead);
                lemma_places_kept(
                    before,
                    self@,
                    self.tools@,
                    text::texts(self.concurrent@),
                );
            }
            return;
        }
        let k = self.results.len();
        assert(self@.calls[k as int] == self.calls@[k as int]@);
        let block = ContentBlock::ToolResult {
            tool_use_id: self.calls[k].id.clone(),
            content,
            is_error,
            cache_control: None,
        };
        let ghost before = self.results@;
        self.results.push(block);
        self.phase = Phase::Ready;
        proof {
            assert(message::blocks(self.results@) =~= message::blocks(before).push(block@));
            assert forall|i: int| 0 <= i < self@.results.len() implies answers(
                #[trigger] self@.results[i],
                self@.calls[i],
            ) by {
                if i < k {
                    assert(self@.results[i] == message::blocks(before)[i]);
                }
            }
        }
    }

    /// Runs the current call, which needs no permission, or sets it aside.
    fn run_unasked(&mut self, tool: usize) -> (r: LoopAction)
        requires
            old(self).wf(),
            old(self)@.phase == Phase::Previewing(tool),
        ensures
            final(self).wf(),
            final(self).same_setup(*old(self)),
            final(self)@ == old(self)@.run_unasked(tool, text::texts(old(self).concurrent@)),
            if text::texts(old(self).concurrent@).contains(old(self)@.current().name) {
                r is Continue
            } else {
                r matches LoopAction::Execute { tool: t, input } && t == tool && input@ == old(
                    self,
                )@.current().input
            },
    {
        let k = self.at();
        assert(self@.calls[k as int] == self.calls@[k as int]@);
        if listed(&self.concurrent, self.calls[k].name.as_str()) {
            let ghost before = self@;
            self.ahead.push(Slot::Waiting(tool));
            self.phase = Phase::Ready;
            proof {
                assert(self@.ahead =~= before.ahead.push(Place::Waiting(tool)));
                assert(self@.ahead.drop_last() =~= before.ahead);
                lemma_places_kept(
                    before,
                    self@,
                    self.tools@,
                    text::texts(self.concurrent@),
                );
            }
            LoopAction::Continue
        } else {
            self.phase = Phase::Executing(tool);
            LoopAction::Execute { tool, input: self.calls[k].input.clone() }
        }
    }

    /// Looks the current call up among the tools.
    fn dispatch(&mut self) -> (r: LoopAction)
        requires
            old(self).wf(),
            old(self)@.at() < old(self)@.calls.len(),
        ensures
            final(self).wf(),
            final(self).same_setup(*old(self)),
            final(self)@ == old(self)@.dispatch(old(self).tools@),
            match tool_index(old(self).tools@, old(self)@.current().name) {
                Some(i) => r matches LoopAction::Preview { tool, input } && tool == i && input@
                    == old(self)@.current().input,
                None => r is Continue,
            },
    {
        let k = self.at();
        assert(self@.calls[k as int] == self.calls@[k as int]@);
        let name = self.calls[k].name.clone();
        match find_tool(&self.tools, name.as_str()) {
            Some(i) => {
                self.phase = Phase::Previewing(i);
                LoopAction::Preview { tool: i, input: self.calls[k].input.clone() }
            },
            None => {
                let mut content = "unknown tool: ".to_owned();
                content.append(name.as_str());
                self.record(content, true);
                LoopAction::Continue
            },
        }
    }

    /// Goes on between two calls: to those that were set aside, to the next
    /// call, or back to the provider with all results.
    pub fn proceed(&mut self) -> (r: LoopAction)
        requires
            old(self).wf(),
            old(self)@.phase == Phase::Ready,
        ensures
            final(self).wf(),
            final(self).same_setup(*old(self)),
            final(self)@ == step(old(self)@, LoopEvent::Proceed, old(self).setup()),
            old(self)@.answered() ==> {
                &&& final(self)@ == old(self)@.after_results()
                &&& r matches LoopAction::Send(c) && final(self).is_request(c)
            },
            old(self)@.closes(text::texts(old(self).concurrent@)) ==> {
                &&& final(self)@ == old(self)@.enter(Phase::Together)
                &&& r matches LoopAction::ExecuteTogether(batch) && jobs(batch@) == old(
                    self,
                )@.aside()
            },
            !old(self)@.answered() && !old(self)@.closes(text::texts(old(self).concurrent@))
                && old(self).pre_tool_hook ==> {
                &&& final(self)@ == old(self)@.enter(Phase::Hooking)
                &&& r matches LoopAction::RunHook(q) && q.tool_name@ == old(self)@.current().name
                    && q.tool_input@ == old(self)@.current().input
            },
            !old(self)@.answered() && !old(self)@.closes(text::texts(old(self).concurrent@))
                && !old(self).pre_tool_hook ==> {
                &&& final(self)@ == old(self)@.dispatch(old(self).tools@)
                &&& match tool_index(old(self).tools@, old(self)@.current().name) {
                    Some(i) => r matches LoopAction::Preview { tool, input } && tool == i && input@
                        == old(self)@.current().input,
                    None => r is Continue,
                }
            },
    {
        let k = self.at();
        if self.ahead.len() > 0 && (k == self.calls.len() || !listed(
            &self.concurrent,
            self.calls[k].name.as_str(),
        )) {
            let batch = self.batch();
            self.phase = Phase::Together;
            return LoopAction::ExecuteTogether(batch);
        }
        if k == self.calls.len() {
            let mut content: Vec<ContentBlock> = Vec::new();
            content.append(&mut self.results);
            let ghost before = self.transcript@;
            let answer = Message { role: Role::User, content };
            self.transcript.push(answer);
            self.calls = Vec::new();
            self.results = Vec::new();
            self.phase = Phase::Sending;
            proof {
                assert(content@ =~= old(self).results@);
                assert(message::msgs(self.transcript@) =~= message::msgs(before).push(answer@));
                assert(self@.calls =~= Seq::empty());
                assert(self@.results =~= Seq::empty());
                assert(self@.ahead =~= Seq::empty());
            }
            LoopAction::Send(self.request())
        } else if self.pre_tool_hook {
            assert(self@.calls[k as int] == self.calls@[k as int]@);
            self.phase = Phase::Hooking;
            LoopAction::RunHook(
                PreToolHookRequest {
                    tool_name: self.calls[k].name.clone(),
                    tool_input: self.calls[k].input.clone(),
                },
            )
        } else {
            self.dispatch()
        }
    }

    /// Takes the hooks' verdict. A denial is the call's result, and neither
    /// the preview nor the permission prompt nor the tool is reached.
    pub fn on_hook(&mut self, outcome: PreToolHookOutcome) -> (r: LoopAction)
        requires
            old(self).wf(),
            old(self)@.phase == Phase::Hooking,
        ensures
            final(self).wf(),
            final(self).same_setup(*old(self)),
            final(self)@ == step(old(self)@, LoopEvent::Hook(
                    match outcome {
                        PreToolHookOutcome::Deny(m) => Some(m@),
                        PreToolHookOutcome::Allow => None,
                    },
                ), old(self).setup()),
            match outcome {
                PreToolHookOutcome::Deny(m) => {
                    &&& final(self)@ == old(self)@.record(m@, true)
                    &&& r is Continue
                },
                PreToolHookOutcome::Allow => {
                    &&& final(self)@ == old(self)@.dispatch(old(self).tools@)
                    &&& match tool_index(old(self).tools@, old(self)@.current().name) {
                        Some(i) => r matches LoopAction::Preview { tool, input } && tool == i
                            && input@ == old(self)@.current().input,
                        None => r is Continue,
                    }
                },
            },
    {
        match outcome {
            PreToolHookOutcome::Deny(message) => {
                self.record(message, true);
                LoopAction::Continue
            },
            PreToolHookOutcome::Allow => self.dispatch(),
        }
    }

    /// Takes the tool's preview: none for a tool that runs unasked, or is set
    /// aside where its calls may overlap; an error that becomes the call's
    /// result; or what to ask the user about.
    pub fn on_preview(&mut self, preview: Option<Result<PermissionPayload, String>>) -> (r:
        LoopAction)
        requires
            old(self).wf(),
            old(self)@.phase is Previewing,
        ensures
            final(self).wf(),
            final(self).same_setup(*old(self)),
            final(self)@ == step(old(self)@, LoopEvent::Preview(preview_seen(preview)), old(self).setup()),
            match preview {
                None => {
                    let t = old(self)@.phase->Previewing_0;
                    let concurrent = text::texts(old(self).concurrent@);
                    &&& final(self)@ == old(self)@.run_unasked(t, concurrent)
                    &&& if concurrent.contains(old(self)@.current().name) {
                        r is Continue
                    } else {
                        r matches LoopAction::Execute { tool, input } && tool == t && input@
                            == old(self)@.current().input
                    }
                },
                Some(Err(e)) => {
                    &&& final(self)@ == old(self)@.record(e@, true)
                    &&& r is Continue
                },
                Some(Ok(p)) => {
                    &&& final(self)@ == old(self)@.enter(
                        Phase::Asking(old(self)@.phase->Previewing_0),
                    )
                    &&& r matches LoopAction::AskPermission(q) && q.payload == p && q.tool_name@
                        == old(self)@.current().name
                },
            },
    {
        let k = self.at();
        assert(self@.calls[k as int] == self.calls@[k as int]@);
        let tool: usize = match self.phase {
            Phase::Previewing(t) => t,
            _ => 0,
        };
        match preview {
            None => self.run_unasked(tool),
            Some(Err(message)) => {
                self.record(message, true);
                LoopAction::Continue
            },
            Some(Ok(payload)) => {
                self.phase = Phase::Asking(tool);
                LoopAction::AskPermission(
                    PermissionRequest { tool_name: self.calls[k].name.clone(), payload },
                )
            },
        }
    }

    /// Takes the user's answer. A refusal is the call's result, and the tool
    /// is not reached.
    pub fn on_permission(&mut self, granted: bool) -> (r: LoopAction)
        requires
            old(self).wf(),
            old(self)@.phase is Asking,
        ensures
            final(self).wf(),
            final(self).same_setup(*old(self)),
            final(self)@ == step(old(self)@, LoopEvent::Permission(granted), old(self).setup()),
            granted ==> {
                &&& final(self)@ == old(self)@.enter(Phase::Executing(old(self)@.phase->Asking_0))
                &&& r matches LoopAction::Execute { tool, input } && tool
                    == old(self)@.phase->Asking_0 && input@ == old(self)@.current().input
            },
            !granted ==> {
                &&& final(self)@ == old(self)@.record("permission denied by user"@, true)
                &&& r is Continue
            },
    {
        let k = self.at();
        assert(self@.calls[k as int] == self.calls@[k as int]@);
        let tool: usize = match self.phase {
            Phase::Asking(t) => t,
            _ => 0,
        };
        if granted {
            self.phase = Phase::Executing(tool);
            LoopAction::Execute { tool, input: self.calls[k].input.clone() }
        } else {
            self.record("permission denied by user".to_owned(), true);
            LoopAction::Continue
        }
    }

    /// Takes the tool's result.
    pub fn on_execution(&mut self, result: Result<String, String>) -> (r: LoopAction)
        requires
            old(self).wf(),
            old(self)@.phase is Executing,
        ensures
            final(self).wf(),
            final(self).same_setup(*old(self)),
            final(self)@ == step(old(self)@, LoopEvent::Execution(execution_seen(result)), old(self).setup()),
            match result {
                Ok(output) => final(self)@ == old(self)@.record(output@, false),
                Err(e) => final(self)@ == old(self)@.record(e@, true),
            },
            r is Continue,
    {
        match result {
            Ok(output) => self.record(output, false),
            Err(message) => self.record(message, true),
        }
        LoopAction::Continue
    }

    /// The calls that are set aside.
    pub fn batch(&self) -> (r: Vec<Errand>)
        requires
            self.wf(),
        ensures
            jobs(r@) == self@.aside(),
    {
        let ghost calls = self@.calls.skip(self.results@.len() as int);
        let mut r: Vec<Errand> = Vec::new();
        let mut i: usize = 0;
        assert(jobs(r@) =~= set_aside_among(calls, self@.ahead.take(0)));
        while i < self.ahead.len()
            invariant
                i <= self.ahead.len(),
                self.wf(),
                calls == self@.calls.skip(self.results@.len() as int),
                jobs(r@) == set_aside_among(calls, self@.ahead.take(i as int)),
            decreases self.ahead.len() - i,
        {
            let ghost before = r@;
            let ghost next = self@.ahead.take(i + 1);
            assert(self@.results.len() == self.results.len());
            assert(self@.ahead.len() == self.ahead.len());
            assert(self@.calls.len() == self.calls.len());
            let k = self.results.len() + i;
            assert(next.drop_last() =~= self@.ahead.take(i as int));
            assert(next.last() == self.ahead@[i as int]@);
            assert(calls[i as int] == self.calls@[k as int]@);
            match &self.ahead[i] {
                Slot::Waiting(tool) => {
                    let errand = Errand {
                        tool: *tool,
                        name: self.calls[k].name.clone(),
                        input: self.calls[k].input.clone(),
                    };
                    r.push(errand);
                    assert(jobs(r@) =~= jobs(before).push(errand@));
                },
                Slot::Settled { .. } => {},
            }
            i += 1;
        }
        assert(self@.ahead.take(self@.ahead.len() as int) =~= self@.ahead);
        r
    }

    /// Takes the results of the calls that were executed together, in their
    /// order. Every call up to here then has its result.
    pub fn on_together(&mut self, done: Vec<Result<String, String>>) -> (r: LoopAction)
        requires
            old(self).wf(),
            old(self)@.phase == Phase::Together,
            done@.len() == old(self)@.aside().len(),
        ensures
            final(self).wf(),
            final(self).same_setup(*old(self)),
            final(self)@ == old(self)@.after_together(outcomes(done@)),
            final(self)@ == step(old(self)@, LoopEvent::Together(outcomes(done@)), old(self).setup()),
            r is Continue,
    {
        let ghost state = self@;
        let ghost calls = state.calls.skip(state.results.len() as int);
        let ghost outs = outcomes(done@);
        let from = self.results.len();
        let mut results: Vec<ContentBlock> = Vec::new();
        results.append(&mut self.results);
        let mut i: usize = 0;
        let mut j: usize = 0;
        proof {
            assert(results@ =~= old(self).results@);
            assert(message::blocks(results@) =~= state.results + merged(
                calls,
                state.ahead.take(0),
                outs,
            ));
            assert(set_aside_among(calls, state.ahead.take(0)).len() == 0);
        }
        while i < self.ahead.len()
            invariant
                i <= self.ahead.len(),
                j <= done.len(),
                from + self.ahead.len() <= self.calls.len(),
                from == state.results.len(),
                state.ahead == places(self.ahead@),
                state.calls == calls_view(self.calls@),
                calls == state.calls.skip(from as int),
                outs == outcomes(done@),
                outs.len() == set_aside_among(calls, state.ahead).len(),
                j == set_aside_among(calls, state.ahead.take(i as int)).len(),
                message::blocks(results@) == state.results + merged(
                    calls,
                    state.ahead.take(i as int),
                    outs,
                ),
            decreases self.ahead.len() - i,
        {
            let ghost before = results@;
            let ghost next = state.ahead.take(i + 1);
            proof {
                assert(next.drop_last() =~= state.ahead.take(i as int));
                assert(next.last() == self.ahead@[i as int]@);
                assert(calls[i as int] == self.calls@[from + i]@);
                lemma_fewer_aside(calls, state.ahead, i + 1);
            }
            let id = self.calls[from + i].id.clone();
            let (content, is_error): (String, bool) = match &self.ahead[i] {
                Slot::Waiting(_) => {
                    assert(outs[j as int] == outcome(done@[j as int]));
                    let got: (String, bool) = match &done[j] {
                        Ok(output) => (output.clone(), false),
                        Err(error) => (error.clone(), true),
                    };
                    j += 1;
                    got
                },
                Slot::Settled { content, is_error } => (content.clone(), *is_error),
            };
            let block = ContentBlock::ToolResult {
                tool_use_id: id,
                content,
                is_error,
                cache_control: None,
            };
            results.push(block);
            i += 1;
            assert(message::blocks(results@) =~= state.results + merged(calls, next, outs)) by {
                assert(message::blocks(results@) =~= message::blocks(before).push(block@));
            }
        }
        self.results = results;
        self.ahead = Vec::new();
        self.phase = Phase::Ready;
        proof {
            assert(state.ahead.take(state.ahead.len() as int) =~= state.ahead);
            assert(self@.ahead =~= Seq::empty());
            lemma_together(state, outs, self.tools@, text::texts(self.concurrent@));
        }
        LoopAction::Continue
    }
}

/// One more place behind those that are set aside keeps the state in order.
proof fn lemma_places_kept(
    s: LoopState,
    t: LoopState,
    tools: Seq<ToolSpec>,
    concurrent: Seq<Seq<char>>,
)
    requires
        s.wf(tools, concurrent),
        s.at() < s.calls.len(),
        t.transcript == s.transcript,
        t.calls == s.calls,
        t.results == s.results,
        t.phase == Phase::Ready,
        t.ahead.len() == s.ahead.len() + 1,
        t.ahead.drop_last() == s.ahead,
        s.ahead.len() == 0 ==> t.ahead.last() is Waiting,
        t.ahead.last() matches Place::Waiting(tool) ==> tool < tools.len()
            && tools[tool as int].name@ == s.current().name && concurrent.contains(
            s.current().name,
        ),
    ensures
        t.wf(tools, concurrent),
{
    assert forall|i: int| 0 <= i < t.ahead.len() && (#[trigger] t.ahead[i] is Waiting) implies {
        let call = t.calls[t.results.len() + i];
        &&& t.ahead[i]->Waiting_0 < tools.len()
        &&& tools[t.ahead[i]->Waiting_0 as int].name@ == call.name
        &&& concurrent.contains(call.name)
    } by {
        if i < s.ahead.len() {
            assert(t.ahead[i] == t.ahead.drop_last()[i]);
            assert(s.ahead[i] is Waiting);
        }
    }
    if s.ahead.len() > 0 {
        assert(t.ahead[0] == t.ahead.drop_last()[0]);
    }
}

/// No fewer calls are set aside among more.
proof fn lemma_fewer_aside(calls: Seq<Call>, ahead: Seq<Place>, n: int)
    requires
        0 <= n <= ahead.len(),
    ensures
        set_aside_among(calls, ahead.take(n)).len() <= set_aside_among(calls, ahead).len(),
    decreases ahead.len() - n,
{
    if n < ahead.len() {
        lemma_fewer_aside(calls, ahead, n + 1);
        assert(ahead.take(n + 1).drop_last() =~= ahead.take(n));
    } else {
        assert(ahead.take(n) =~= ahead);
    }
}

/// Merged results answer their calls one for one.
proof fn lemma_merged(calls: Seq<Call>, ahead: Seq<Place>, outcomes: Seq<(Seq<char>, bool)>)
    ensures
        merged(calls, ahead, outcomes).len() == ahead.len(),
        forall|i: int|
            0 <= i < ahead.len() ==> answers(
                #[trigger] merged(calls, ahead, outcomes)[i],
                calls[i],
            ),
    decreases ahead.len(),
{
    if ahead.len() > 0 {
        lemma_merged(calls, ahead.drop_last(), outcomes);
        let before = merged(calls, ahead.drop_last(), outcomes);
        assert forall|i: int| 0 <= i < ahead.len() implies answers(
            #[trigger] merged(calls, ahead, outcomes)[i],
            calls[i],
        ) by {
            if i < ahead.len() - 1 {
                assert(merged(calls, ahead, outcomes)[i] == before[i]);
            }
        }
    }
}

/// The state stays in order when what was set aside has its results.
proof fn lemma_together(
    s: LoopState,
    outcomes: Seq<(Seq<char>, bool)>,
    tools: Seq<ToolSpec>,
    concurrent: Seq<Seq<char>>,
)
    requires
        s.wf(tools, concurrent),
        s.phase == Phase::Together,
    ensures
        s.after_together(outcomes).wf(tools, concurrent),
        s.after_together(outcomes).results.len() == s.at(),
{
    let calls = s.calls.skip(s.results.len() as int);
    let more = merged(calls, s.ahead, outcomes);
    let t = s.after_together(outcomes);
    lemma_merged(calls, s.ahead, outcomes);
    assert forall|i: int| 0 <= i < t.results.len() implies answers(
        #[trigger] t.results[i],
        t.calls[i],
    ) by {
        if i < s.results.len() {
            assert(t.results[i] == s.results[i]);
        } else {
            assert(t.results[i] == more[i - s.results.len()]);
            assert(calls[i - s.results.len()] == s.calls[i]);
        }
    }
}

/// Anything that can come back to the loop, as mathematical values.
pub enum LoopEvent {
    Reply(Msg),
    Proceed,
    Hook(Option<Seq<char>>),
    Preview(Option<Result<PermissionPayload, Seq<char>>>),
    Permission(bool),
    Execution(Result<Seq<char>, Seq<char>>),
    Together(Seq<(Seq<char>, bool)>),
}

/// A tool's preview, as mathematical values.
pub open spec fn preview_seen(preview: Option<Result<PermissionPayload, String>>) -> Option<
    Result<PermissionPayload, Seq<char>>,
> {
    match preview {
        None => None,
        Some(Ok(payload)) => Some(Ok(payload)),
        Some(Err(message)) => Some(Err(message@)),
    }
}

/// A tool's result, as mathematical values.
pub open spec fn execution_seen(result: Result<String, String>) -> Result<Seq<char>, Seq<char>> {
    match result {
        Ok(output) => Ok(output@),
        Err(message) => Err(message@),
    }
}

/// Whether the loop waits for this event.
pub open spec fn expected(s: LoopState, e: LoopEvent) -> bool {
    match e {
        LoopEvent::Reply(_) => s.phase == Phase::Sending,
        LoopEvent::Proceed => s.phase == Phase::Ready,
        LoopEvent::Hook(_) => s.phase == Phase::Hooking,
        LoopEvent::Preview(_) => s.phase is Previewing,
        LoopEvent::Permission(_) => s.phase is Asking,
        LoopEvent::Execution(_) => s.phase is Executing,
        LoopEvent::Together(outcomes) => s.phase == Phase::Together && outcomes.len()
            == s.aside().len(),
    }
}

/// What no event changes: the tools, the names of those whose calls may
/// overlap, and whether there are hooks.
pub struct Setup {
    pub tools: Seq<ToolSpec>,
    pub concurrent: Seq<Seq<char>>,
    pub hook: bool,
}

/// The state after an expected event: what the method of that name ensures.
pub open spec fn step(s: LoopState, e: LoopEvent, setup: Setup) -> LoopState {
    match e {
        LoopEvent::Reply(m) => s.after_reply(m),
        LoopEvent::Proceed => if s.answered() {
            s.after_results()
        } else if s.closes(setup.concurrent) {
            s.enter(Phase::Together)
        } else if setup.hook {
            s.enter(Phase::Hooking)
        } else {
            s.dispatch(setup.tools)
        },
        LoopEvent::Hook(Some(denial)) => s.record(denial, true),
        LoopEvent::Hook(None) => s.dispatch(setup.tools),
        LoopEvent::Preview(None) => s.run_unasked(s.phase->Previewing_0, setup.concurrent),
        LoopEvent::Preview(Some(Err(m))) => s.record(m, true),
        LoopEvent::Preview(Some(Ok(_))) => s.enter(Phase::Asking(s.phase->Previewing_0)),
        LoopEvent::Permission(granted) => if granted {
            s.enter(Phase::Executing(s.phase->Asking_0))
        } else {
            s.record("permission denied by user"@, true)
        },
        LoopEvent::Execution(Ok(output)) => s.record(output, false),
        LoopEvent::Execution(Err(m)) => s.record(m, true),
        LoopEvent::Together(outcomes) => s.after_together(outcomes),
    }
}

/// The states a list of events leads through are reached by expected events
/// only.
pub open spec fn runs(
    s: LoopState,
    events: Seq<LoopEvent>,
    setup: Setup,
) -> bool
    decreases events.len(),
{
    events.len() == 0 || (runs(s, events.drop_last(), setup) && expected(
        after(s, events.drop_last(), setup),
        events.last(),
    ))
}

/// The state a list of events leads to.
pub open spec fn after(
    s: LoopState,
    events: Seq<LoopEvent>,
    setup: Setup,
) -> LoopState
    decreases events.len(),
{
    if events.len() == 0 {
        s
    } else {
        step(after(s, events.drop_last(), setup), events.last(), setup)
    }
}

/// Every state that is reached keeps each result with the call it answers.
pub proof fn law_results_answer_their_calls(
    s: LoopState,
    events: Seq<LoopEvent>,
    setup: Setup,
)
    requires
        s.wf(setup.tools, setup.concurrent),
        setup.tools.len() <= usize::MAX,
        runs(s, events, setup),
    ensures
        after(s, events, setup).wf(setup.tools, setup.concurrent),
    decreases events.len(),
{
    if events.len() > 0 {
        law_results_answer_their_calls(s, events.drop_last(), setup);
        let t = after(s, events.drop_last(), setup);
        if t.at() < t.calls.len() {
            lemma_tool_index(setup.tools, t.current().name);
        }
        let u = step(t, events.last(), setup);
        match events.last() {
            LoopEvent::Together(outcomes) => {
                lemma_together(t, outcomes, setup.tools, setup.concurrent);
            },
            _ => {
                if u.ahead.len() == t.ahead.len() + 1 {
                    assert(u.ahead.drop_last() =~= t.ahead);
                    lemma_places_kept(t, u, setup.tools, setup.concurrent);
                } else {
                    assert forall|i: int| 0 <= i < u.results.len() implies answers(
                        #[trigger] u.results[i],
                        u.calls[i],
                    ) by {
                        if i < t.results.len() {
                            assert(u.results[i] == t.results[i]);
                        }
                    }
                }
            },
        }
    }
}

/// A conversation is never rewritten: whatever happens, the transcript only
/// grows at its end.
pub proof fn law_transcript_only_grows(
    s: LoopState,
    events: Seq<LoopEvent>,
    setup: Setup,
)
    ensures
        s.transcript.is_prefix_of(after(s, events, setup).transcript),
    decreases events.len(),
{
    if events.len() > 0 {
        law_transcript_only_grows(s, events.drop_last(), setup);
        let t = after(s, events.drop_last(), setup);
        let u = after(s, events, setup);
        assert(t.transcript.is_prefix_of(u.transcript));
        assert(s.transcript =~= u.transcript.subrange(0, s.transcript.len() as int)) by {
            assert(s.transcript =~= t.transcript.subrange(0, s.transcript.len() as int));
        }
    } else {
        assert(s.transcript =~= s.transcript.subrange(0, s.transcript.len() as int));
    }
}

/// A tool runs or is set aside only if it needs no permission or the user has
/// just given it: no other event leads to an execution.
pub proof fn law_execution_needs_permission(
    s: LoopState,
    e: LoopEvent,
    setup: Setup,
)
    requires
        expected(s, e),
        step(s, e, setup).phase is Executing || (step(s, e, setup).ahead.len() > s.ahead.len()
            && step(s, e, setup).ahead.last() is Waiting),
    ensures
        e == LoopEvent::Permission(true) || e == LoopEvent::Preview(
            None::<Result<PermissionPayload, Seq<char>>>,
        ),
{
}

/// With hooks configured, no call is looked up, previewed, asked about or run
/// before the hooks have let it through; a denied call goes straight to its
/// error result.
pub proof fn law_hooks_come_first(s: LoopState, denial: Seq<char>, setup: Setup)
    requires
        s.wf(setup.tools, setup.concurrent),
        s.phase == Phase::Ready,
        setup.hook,
        !s.answered(),
        !s.closes(setup.concurrent),
    ensures
        step(s, LoopEvent::Proceed, setup) == s.enter(Phase::Hooking),
        step(s.enter(Phase::Hooking), LoopEvent::Hook(Some(denial)), setup) == s.record(
            denial,
            true,
        ),
{
}

/// When all calls of a reply are settled, what goes back is one user message
/// that answers them one for one, in order.
pub proof fn law_every_call_is_answered_once(s: LoopState, setup: Setup)
    requires
        s.wf(setup.tools, setup.concurrent),
        s.phase == Phase::Ready,
        s.answered(),
    ensures
        ({
            let t = step(s, LoopEvent::Proceed, setup);
            let sent = t.transcript.last();
            &&& t.transcript.len() == s.transcript.len() + 1
            &&& sent.role == Role::User
            &&& sent.content.len() == s.calls.len()
            &&& forall|i: int| 0 <= i < s.calls.len() ==> answers(#[trigger] sent.content[i], s.calls[i])
        }),
{
}

/// The state after the current call has been let through by the hooks, where
/// there are any, and needs no permission.
pub open spec fn let_through(s: LoopState, setup: Setup) -> LoopState {
    let begun = step(s, LoopEvent::Proceed, setup);
    let found = if setup.hook {
        step(begun, LoopEvent::Hook(None), setup)
    } else {
        begun
    };
    step(found, LoopEvent::Preview(None), setup)
}

/// The state after that many calls have been let through.
pub open spec fn let_through_each(s: LoopState, n: nat, setup: Setup) -> LoopState
    decreases n,
{
    if n == 0 {
        s
    } else {
        let_through(let_through_each(s, (n - 1) as nat, setup), setup)
    }
}

/// Whether the next `n` calls are calls of known tools that may overlap.
pub open spec fn overlap(s: LoopState, n: nat, setup: Setup) -> bool {
    &&& s.results.len() + n <= s.calls.len()
    &&& forall|i: int|
        s.results.len() <= i < s.results.len() + n ==> setup.concurrent.contains(
            (#[trigger] s.calls[i]).name,
        ) && tool_index(setup.tools, s.calls[i].name) is Some
}

proof fn lemma_all_aside(s: LoopState, n: nat, setup: Setup)
    requires
        s.wf(setup.tools, setup.concurrent),
        setup.tools.len() <= usize::MAX,
        s.phase == Phase::Ready,
        s.ahead.len() == 0,
        overlap(s, n, setup),
    ensures
        ({
            let t = let_through_each(s, n, setup);
            &&& t == (LoopState { ahead: t.ahead, ..s })
            &&& t.ahead.len() == n
            &&& t.aside().len() == n
            &&& forall|i: int|
                0 <= i < n ==> {
                    let call = s.calls[s.results.len() + i];
                    &&& (#[trigger] t.aside()[i]).name == call.name
                    &&& t.aside()[i].input == call.input
                    &&& Some(t.aside()[i].tool as int) == tool_index(setup.tools, call.name)
                }
        }),
    decreases n,
{
    let t = let_through_each(s, n, setup);
    let calls = s.calls.skip(s.results.len() as int);
    if n == 0 {
        assert(t == LoopState { ahead: t.ahead, ..s });
    } else {
        let m = (n - 1) as nat;
        let u = let_through_each(s, m, setup);
        lemma_all_aside(s, m, setup);
        let call = s.calls[(s.results.len() + m) as int];
        assert(u.current() == call);
        lemma_tool_index(setup.tools, call.name);
        let tool = tool_index(setup.tools, call.name)->0 as usize;
        assert(t == u.set_aside(tool));
        assert(t.ahead.drop_last() =~= u.ahead);
        assert(calls[m as int] == call);
        assert(t.aside() == u.aside().push(Job { tool, name: call.name, input: call.input }));
        assert forall|i: int| 0 <= i < n implies {
            let call = s.calls[s.results.len() + i];
            &&& (#[trigger] t.aside()[i]).name == call.name
            &&& t.aside()[i].input == call.input
            &&& Some(t.aside()[i].tool as int) == tool_index(setup.tools, call.name)
        } by {
            if i < m {
                assert(t.aside()[i] == u.aside()[i]);
            }
        }
    }
}

/// Calls that may overlap and follow each other are executed together: none of
/// them runs before all of them have been let through, and then they are handed
/// out at once, each with its own tool and input.
pub proof fn law_neighbours_run_together(s: LoopState, n: nat, setup: Setup)
    requires
        s.wf(setup.tools, setup.concurrent),
        setup.tools.len() <= usize::MAX,
        s.phase == Phase::Ready,
        s.ahead.len() == 0,
        n > 0,
        overlap(s, n, setup),
        s.results.len() + n == s.calls.len() || !setup.concurrent.contains(
            s.calls[(s.results.len() + n) as int].name,
        ),
    ensures
        ({
            let t = let_through_each(s, n, setup);
            let together = step(t, LoopEvent::Proceed, setup);
            &&& t.phase == Phase::Ready
            &&& t.results == s.results
            &&& together == t.enter(Phase::Together)
            &&& together.aside().len() == n
            &&& forall|i: int|
                0 <= i < n ==> {
                    let call = s.calls[s.results.len() + i];
                    &&& (#[trigger] together.aside()[i]).name == call.name
                    &&& together.aside()[i].input == call.input
                    &&& Some(together.aside()[i].tool as int) == tool_index(setup.tools, call.name)
                }
        }),
{
    lemma_all_aside(s, n, setup);
}

/// What runs together is answered together: every call that was set aside or
/// came behind one then has its result, in the order of the calls.
pub proof fn law_together_answers_all(
    s: LoopState,
    outcomes: Seq<(Seq<char>, bool)>,
    setup: Setup,
)
    requires
        s.wf(setup.tools, setup.concurrent),
        expected(s, LoopEvent::Together(outcomes)),
    ensures
        ({
            let t = step(s, LoopEvent::Together(outcomes), setup);
            &&& t.ahead.len() == 0
            &&& t.results.len() == s.at()
            &&& s.results.is_prefix_of(t.results)
            &&& forall|i: int| 0 <= i < t.results.len() ==> answers(#[trigger] t.results[i], s.calls[i])
        }),
{
    lemma_together(s, outcomes, setup.tools, setup.concurrent);
    let t = step(s, LoopEvent::Together(outcomes), setup);
    assert(s.results =~= t.results.subrange(0, s.results.len() as int));
}

/// Every tool use of a reply is a call, once and in order: there are as many
/// calls as tool uses, and the call of a tool use stands behind as many calls as
/// there are tool uses before it.
pub proof fn law_every_tool_use_is_a_call(content: Seq<Block>)
    ensures
        tool_uses(content).len() == content.filter(|b: Block| b is ToolUse).len(),
        forall|i: int|
            0 <= i < content.len() && (#[trigger] content[i] is ToolUse) ==> {
                let k = content.take(i).filter(|b: Block| b is ToolUse).len() as int;
                &&& 0 <= k < tool_uses(content).len()
                &&& tool_uses(content)[k].id == content[i]->ToolUse_id
                &&& tool_uses(content)[k].name == content[i]->ToolUse_name
                &&& tool_uses(content)[k].input == content[i]->ToolUse_input
            },
    decreases content.len(),
{
    reveal(Seq::filter);
    if content.len() > 0 {
        let rest = content.drop_last();
        law_every_tool_use_is_a_call(rest);
        assert forall|i: int| 0 <= i < content.len() && (#[trigger] content[i] is ToolUse) implies {
            let k = content.take(i).filter(|b: Block| b is ToolUse).len() as int;
            &&& 0 <= k < tool_uses(content).len()
            &&& tool_uses(content)[k].id == content[i]->ToolUse_id
            &&& tool_uses(content)[k].name == content[i]->ToolUse_name
            &&& tool_uses(content)[k].input == content[i]->ToolUse_input
        } by {
            if i < rest.len() {
                assert(rest[i] == content[i]);
                assert(rest.take(i) =~= content.take(i));
            } else {
                assert(content.take(i) =~= rest);
            }
        }
    }
}

/// The calls of a reply stay what they are until all of them are answered:
/// nothing but a new reply or the message that goes back changes them.
pub proof fn law_calls_stay_until_answered(s: LoopState, e: LoopEvent, setup: Setup)
    requires
        expected(s, e),
        !(e is Reply),
        step(s, e, setup).phase != Phase::Sending,
    ensures
        step(s, e, setup).calls == s.calls,
        step(s, e, setup).transcript == s.transcript,
        s.results.is_prefix_of(step(s, e, setup).results),
{
    let t = step(s, e, setup);
    assert(s.results =~= t.results.subrange(0, s.results.len() as int));
}

/// Whether some events lead from a reply to where all its calls are answered,
/// without anything having been sent in between.
pub open spec fn answering(s: LoopState, events: Seq<LoopEvent>, setup: Setup) -> bool
    decreases events.len(),
{
    events.len() == 0 || {
        &&& answering(s, events.drop_last(), setup)
        &&& expected(after(s, events.drop_last(), setup), events.last())
        &&& !(events.last() is Reply)
        &&& after(s, events, setup).phase != Phase::Sending
    }
}

proof fn lemma_answering(s: LoopState, events: Seq<LoopEvent>, setup: Setup)
    requires
        s.wf(setup.tools, setup.concurrent),
        setup.tools.len() <= usize::MAX,
        answering(s, events, setup),
    ensures
        runs(s, events, setup),
        after(s, events, setup).wf(setup.tools, setup.concurrent),
        after(s, events, setup).calls == s.calls,
        after(s, events, setup).transcript == s.transcript,
    decreases events.len(),
{
    if events.len() > 0 {
        lemma_answering(s, events.drop_last(), setup);
        law_calls_stay_until_answered(after(s, events.drop_last(), setup), events.last(), setup);
    }
    law_results_answer_their_calls(s, events, setup);
}

/// A reply is answered in full: whatever the hooks, the user and the tools say,
/// the message that goes back to the provider holds one result for each tool use
/// of the reply, in their order, and nothing else.
pub proof fn law_a_reply_is_answered_in_full(
    s: LoopState,
    reply: Msg,
    events: Seq<LoopEvent>,
    setup: Setup,
)
    requires
        s.wf(setup.tools, setup.concurrent),
        s.phase == Phase::Sending,
        setup.tools.len() <= usize::MAX,
        reply.content.filter(|b: Block| b is ToolUse).len() > 0,
        answering(step(s, LoopEvent::Reply(reply), setup), events, setup),
        after(step(s, LoopEvent::Reply(reply), setup), events, setup).phase == Phase::Ready,
        after(step(s, LoopEvent::Reply(reply), setup), events, setup).answered(),
    ensures
        ({
            let begun = step(s, LoopEvent::Reply(reply), setup);
            let sent = step(after(begun, events, setup), LoopEvent::Proceed, setup);
            let answer = sent.transcript.last();
            &&& sent.phase == Phase::Sending
            &&& sent.transcript.drop_last() == s.transcript.push(reply)
            &&& sent.transcript.len() == s.transcript.len() + 2
            &&& answer.role == Role::User
            &&& answer.content.len() == reply.content.filter(|b: Block| b is ToolUse).len()
            &&& forall|i: int|
                0 <= i < reply.content.len() && (#[trigger] reply.content[i] is ToolUse) ==> {
                    let k = reply.content.take(i).filter(|b: Block| b is ToolUse).len() as int;
                    &&& 0 <= k < answer.content.len()
                    &&& answer.content[k] is ToolResult
                    &&& answer.content[k]->ToolResult_tool_use_id
                        == reply.content[i]->ToolUse_id
                }
        }),
{
    let begun = step(s, LoopEvent::Reply(reply), setup);
    law_every_tool_use_is_a_call(reply.content);
    assert(begun.wf(setup.tools, setup.concurrent));
    lemma_answering(begun, events, setup);
    let t = after(begun, events, setup);
    let sent = step(t, LoopEvent::Proceed, setup);
    assert(sent.transcript.drop_last() =~= s.transcript.push(reply));
    let answer = sent.transcript.last();
    assert forall|i: int| 0 <= i < reply.content.len() && (#[trigger] reply.content[i] is ToolUse) implies {
        let k = reply.content.take(i).filter(|b: Block| b is ToolUse).len() as int;
        &&& 0 <= k < answer.content.len()
        &&& answer.content[k] is ToolResult
        &&& answer.content[k]->ToolResult_tool_use_id == reply.content[i]->ToolUse_id
    } by {
        let k = reply.content.take(i).filter(|b: Block| b is ToolUse).len() as int;
        assert(answers(t.results[k], t.calls[k]));
    }
}

/// A reply without tool uses ends the loop, and one with some does not.
pub proof fn law_only_a_reply_without_tool_uses_is_final(s: LoopState, reply: Msg, setup: Setup)
    ensures
        ({
            let t = step(s, LoopEvent::Reply(reply), setup);
            &&& t.transcript == s.transcript.push(reply)
            &&& t.phase == Phase::Done <==> reply.content.filter(|b: Block| b is ToolUse).len() == 0
            &&& t.phase == Phase::Ready <==> reply.content.filter(|b: Block| b is ToolUse).len() > 0
        }),
{
    law_every_tool_use_is_a_call(reply.content);
}

/// What becomes of a call is what is said about it: a tool's output, or its
/// error, the hook's objection, the preview's error, or that the user refused or
/// that there is no such tool. `s` has no call set aside.
pub proof fn law_results_say_what_happened(s: LoopState, said: Seq<char>, setup: Setup)
    requires
        s.ahead.len() == 0,
        s.results.len() < s.calls.len(),
    ensures
        ({
            let id = s.calls[s.results.len() as int].id;
            let name = s.calls[s.results.len() as int].name;
            let result = |content: Seq<char>, is_error: bool|
                s.results.push(
                    Block::ToolResult { tool_use_id: id, content, is_error, cache_control: None },
                );
            &&& step(s, LoopEvent::Execution(Ok(said)), setup).results == result(said, false)
            &&& step(s, LoopEvent::Execution(Err(said)), setup).results == result(said, true)
            &&& step(s, LoopEvent::Hook(Some(said)), setup).results == result(said, true)
            &&& step(s, LoopEvent::Preview(Some(Err(said))), setup).results == result(said, true)
            &&& step(s, LoopEvent::Permission(false), setup).results == result(
                "permission denied by user"@,
                true,
            )
            &&& (forall|i: int|
                0 <= i < setup.tools.len() ==> (#[trigger] setup.tools[i]).name@ != name) ==> step(
                s,
                LoopEvent::Hook(None),
                setup,
            ).results == result("unknown tool: "@ + name, true)
        }),
{
    lemma_tool_index(setup.tools, s.current().name);
}

/// A call is previewed, asked about and executed by the first tool of its name.
pub proof fn law_calls_go_to_the_first_tool_of_their_name(s: LoopState, i: int, setup: Setup)
    requires
        s.at() < s.calls.len(),
        0 <= i < setup.tools.len() <= usize::MAX,
        setup.tools[i].name@ == s.current().name,
        forall|j: int| 0 <= j < i ==> (#[trigger] setup.tools[j]).name@ != s.current().name,
    ensures
        ({
            let found = step(s, LoopEvent::Hook(None), setup);
            &&& found.phase == Phase::Previewing(i as usize)
            &&& found.results == s.results
            &&& found.calls == s.calls
            &&& forall|p: PermissionPayload|
                (#[trigger] step(found, LoopEvent::Preview(Some(Ok(p))), setup)).phase
                    == Phase::Asking(i as usize)
            &&& step(found.enter(Phase::Asking(i as usize)), LoopEvent::Permission(true), setup).phase
                == Phase::Executing(i as usize)
            &&& !setup.concurrent.contains(s.current().name) ==> step(
                found,
                LoopEvent::Preview(None),
                setup,
            ).phase == Phase::Executing(i as usize)
        }),
{
    lemma_tool_index(setup.tools, s.current().name);
    let k = tool_index(setup.tools, s.current().name)->0;
    if k < i {
        assert(setup.tools[k].name@ != s.current().name);
    }
}

/// The calls that are set aside are all those that are handed out together, in
/// order and each with its own input, and each takes its own outcome; calls
/// between them that were settled before keep what they were told.
pub proof fn law_each_call_gets_its_own_outcome(
    s: LoopState,
    outcomes: Seq<(Seq<char>, bool)>,
    setup: Setup,
)
    requires
        s.wf(setup.tools, setup.concurrent),
        expected(s, LoopEvent::Together(outcomes)),
    ensures
        s.aside().len() == s.ahead.filter(|p: Place| p is Waiting).len(),
        forall|i: int|
            0 <= i < s.ahead.len() ==> {
                let call = s.calls[s.results.len() + i];
                let result = step(s, LoopEvent::Together(outcomes), setup).results[s.results.len()
                    + i];
                match #[trigger] s.ahead[i] {
                    Place::Settled(content, is_error) => result == (Block::ToolResult {
                        tool_use_id: call.id,
                        content,
                        is_error,
                        cache_control: None,
                    }),
                    Place::Waiting(tool) => {
                        let k = s.ahead.take(i).filter(|p: Place| p is Waiting).len() as int;
                        &&& 0 <= k < s.aside().len()
                        &&& s.aside()[k].tool == tool
                        &&& s.aside()[k].name == call.name
                        &&& s.aside()[k].input == call.input
                        &&& result == (Block::ToolResult {
                            tool_use_id: call.id,
                            content: outcomes[k].0,
                            is_error: outcomes[k].1,
                            cache_control: None,
                        })
                    },
                }
            },
{
    let calls = s.calls.skip(s.results.len() as int);
    lemma_each_outcome(calls, s.ahead, outcomes);
    lemma_merged(calls, s.ahead, outcomes);
    let t = step(s, LoopEvent::Together(outcomes), setup);
    assert forall|i: int| 0 <= i < s.ahead.len() implies t.results[s.results.len() + i] == merged(
        calls,
        s.ahead,
        outcomes,
    )[i] && calls[i] == s.calls[s.results.len() + i] && (#[trigger] s.ahead[i] == s.ahead[i]) by {}
}

proof fn lemma_each_outcome(
    calls: Seq<Call>,
    ahead: Seq<Place>,
    outcomes: Seq<(Seq<char>, bool)>,
)
    ensures
        set_aside_among(calls, ahead).len() == ahead.filter(|p: Place| p is Waiting).len(),
        merged(calls, ahead, outcomes).len() == ahead.len(),
        forall|i: int|
            0 <= i < ahead.len() ==> {
                let result = merged(calls, ahead, outcomes)[i];
                match #[trigger] ahead[i] {
                    Place::Settled(content, is_error) => result == (Block::ToolResult {
                        tool_use_id: calls[i].id,
                        content,
                        is_error,
                        cache_control: None,
                    }),
                    Place::Waiting(tool) => {
                        let k = ahead.take(i).filter(|p: Place| p is Waiting).len() as int;
                        let aside = set_aside_among(calls, ahead);
                        &&& 0 <= k < aside.len()
                        &&& aside[k] == (Job { tool, name: calls[i].name, input: calls[i].input })
                        &&& result == (Block::ToolResult {
                            tool_use_id: calls[i].id,
                            content: outcomes[k].0,
                            is_error: outcomes[k].1,
                            cache_control: None,
                        })
                    },
                }
            },
    decreases ahead.len(),
{
    reveal(Seq::filter);
    if ahead.len() > 0 {
        let rest = ahead.drop_last();
        lemma_each_outcome(calls, rest, outcomes);
        assert forall|i: int| 0 <= i < ahead.len() implies {
            let result = merged(calls, ahead, outcomes)[i];
            match #[trigger] ahead[i] {
                Place::Settled(content, is_error) => result == (Block::ToolResult {
                    tool_use_id: calls[i].id,
                    content,
                    is_error,
                    cache_control: None,
                }),
                Place::Waiting(tool) => {
                    let k = ahead.take(i).filter(|p: Place| p is Waiting).len() as int;
                    let aside = set_aside_among(calls, ahead);
                    &&& 0 <= k < aside.len()
                    &&& aside[k] == (Job { tool, name: calls[i].name, input: calls[i].input })
                    &&& result == (Block::ToolResult {
                        tool_use_id: calls[i].id,
                        content: outcomes[k].0,
                        is_error: outcomes[k].1,
                        cache_control: None,
                    })
                },
            }
        } by {
            if i < rest.len() {
                assert(rest[i] == ahead[i]);
                assert(rest.take(i) =~= ahead.take(i));
                assert(merged(calls, ahead, outcomes)[i] == merged(calls, rest, outcomes)[i]);
            } else {
                assert(ahead.take(i) =~= rest);
            }
        }
    }
}

/// Behind a call that is set aside a call keeps what is said about it, in its
/// place, until the results are put together. `s` has a call set aside.
pub proof fn law_later_results_wait_in_their_place(s: LoopState, said: Seq<char>, setup: Setup)
    requires
        s.ahead.len() > 0,
        s.at() < s.calls.len(),
    ensures
        step(s, LoopEvent::Execution(Ok(said)), setup).ahead == s.ahead.push(
            Place::Settled(said, false),
        ),
        step(s, LoopEvent::Execution(Err(said)), setup).ahead == s.ahead.push(
            Place::Settled(said, true),
        ),
        step(s, LoopEvent::Hook(Some(said)), setup).ahead == s.ahead.push(
            Place::Settled(said, true),
        ),
        step(s, LoopEvent::Preview(Some(Err(said))), setup).ahead == s.ahead.push(
            Place::Settled(said, true),
        ),
        step(s, LoopEvent::Permission(false), setup).ahead == s.ahead.push(
            Place::Settled("permission denied by user"@, true),
        ),
        step(s, LoopEvent::Execution(Ok(said)), setup).results == s.results,
        step(s, LoopEvent::Hook(Some(said)), setup).results == s.results,
{
}

/// Only a shell call has a command that is decided about, and it is the whole of
/// its text.
pub proof fn law_commands_are_decided_about_whole(payload: PermissionPayload)
    ensures
        payload matches PermissionPayload::Command(c) ==> payload.command_spec() == Some(c@),
        !(payload is Command) ==> payload.command_spec() is None,
{
}

/// Calls, batches and outcomes are listed as they are, one for one: an output is
/// no error and an error is one.
pub proof fn law_lists_go_by_their_members(
    calls: Seq<ToolCall>,
    batch: Seq<Errand>,
    done: Seq<Result<String, String>>,
    i: int,
)
    ensures
        calls_view(calls).len() == calls.len(),
        jobs(batch).len() == batch.len(),
        outcomes(done).len() == done.len(),
        0 <= i < calls.len() ==> calls_view(calls)[i] == (Call {
            id: calls[i].id@,
            name: calls[i].name@,
            input: calls[i].input@,
        }),
        0 <= i < batch.len() ==> jobs(batch)[i] == (Job {
            tool: batch[i].tool,
            name: batch[i].name@,
            input: batch[i].input@,
        }),
        0 <= i < done.len() && done[i] is Ok ==> outcomes(done)[i] == (done[i]->Ok_0@, false),
        0 <= i < done.len() && done[i] is Err ==> outcomes(done)[i] == (done[i]->Err_0@, true),
{
}

/// What comes back from a tool is taken as it came: a preview with what it shows,
/// an output as an output, and an error as an error with its whole text.
pub proof fn law_answers_are_taken_as_they_came(payload: PermissionPayload, said: String)
    ensures
        preview_seen(None) is None,
        preview_seen(Some(Ok(payload))) == Some(Ok::<PermissionPayload, Seq<char>>(payload)),
        preview_seen(Some(Err(said))) == Some(Err::<PermissionPayload, Seq<char>>(said@)),
        execution_seen(Ok(said)) == Ok::<Seq<char>, Seq<char>>(said@),
        execution_seen(Err(said)) == Err::<Seq<char>, Seq<char>>(said@),
{
}

} // verus!
