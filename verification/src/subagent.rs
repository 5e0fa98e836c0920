//! Subagents: a tool that hands a task to another agent, which has its own
//! prompt, only reads, and answers with its final text alone.

use vstd::prelude::*;
use crate::cli::PermissionMode;
use crate::context::{AssembledContext, ToolSpec};
use crate::message::{self, Message, Role, Usage};
use crate::permission_policy::{PermissionPolicy, Resolution, SessionGrants};
use crate::runner::{self, reading_tool_names};
use crate::submission::{self, checkpoint_of, Checkpoint};
use crate::text;
use crate::tool_loop::{
    self, LoopAction, LoopEvent, LoopState, PermissionPayload, PermissionRequest, Phase, ToolLoop,
};

verus! {

/// Why a tool call failed.
#[derive(Debug, PartialEq, Eq)]
pub enum ToolError {
    InvalidInput(String),
    ExecutionFailed(String),
}

/// The string under a key of a JSON object, where the text is one and the
/// value is a string.
pub uninterp spec fn json_string_field(json: Seq<char>, key: Seq<char>) -> Option<Seq<char>>;

/// Calls `serde_json::from_str`, and `Value::get` and `Value::as_str` on what
/// it read: the string that stands under `key`, if the text is JSON, an object,
/// and holds a string there. What counts as JSON is only named here.
#[verifier::external_body]
fn string_field(json: &str, key: &str) -> (r: Option<String>)
    ensures
        text::opt_text(r) == json_string_field(json@, key@),
{
    let value: serde_json::Value = serde_json::from_str(json).ok()?;
    value.get(key)?.as_str().map(|s| s.to_string())
}

/// A task for a subagent.
#[derive(Debug, PartialEq, Eq)]
pub struct SubagentCall {
    pub name: String,
    pub task: String,
}

/// The task that two fields name; each must be there.
pub fn subagent_call(name: Option<String>, task: Option<String>) -> (r: Result<
    SubagentCall,
    ToolError,
>)
    ensures
        match (name, task) {
            (Some(n), Some(t)) => r matches Ok(c) && c.name@ == n@ && c.task@ == t@,
            (Some(_), None) => r matches Err(ToolError::InvalidInput(m)) && m@
                == "missing 'task' field"@,
            (None, _) => r matches Err(ToolError::InvalidInput(m)) && m@
                == "missing 'name' field"@,
        },
{
    match name {
        None => Err(ToolError::InvalidInput("missing 'name' field".to_owned())),
        Some(name) => match task {
            None => Err(ToolError::InvalidInput("missing 'task' field".to_owned())),
            Some(task) => Ok(SubagentCall { name, task }),
        },
    }
}

/// Reads a call of the subagent tool from its JSON input.
pub fn parse_subagent_input(input: &str) -> (r: Result<SubagentCall, ToolError>)
    ensures
        match (json_string_field(input@, "name"@), json_string_field(input@, "task"@)) {
            (Some(n), Some(t)) => r matches Ok(c) && c.name@ == n && c.task@ == t,
            (Some(_), None) => r matches Err(ToolError::InvalidInput(m)) && m@
                == "missing 'task' field"@,
            (None, _) => r matches Err(ToolError::InvalidInput(m)) && m@
                == "missing 'name' field"@,
        },
{
    let name = string_field(input, "name");
    let task = string_field(input, "task");
    subagent_call(name, task)
}

/// The error of a subagent whose prompt could not be read.
pub fn prompt_failure(name: &str, error: &str) -> (r: ToolError)
    ensures
        r matches ToolError::ExecutionFailed(m) && m@ == "failed to load subagent '"@ + name@
            + "' prompt: "@ + error@,
{
    let mut m = "failed to load subagent '".to_owned();
    m.append(name);
    m.append("' prompt: ");
    m.append(error);
    ToolError::ExecutionFailed(m)
}

/// The subagent tool as it is advertised.
pub fn subagent_tool_spec() -> (r: ToolSpec)
    ensures
        r.name@ == "subagent"@,
        r.description@
            == "Delegates a task to a named subagent, running it to completion against its own prompt and a read-only tool subset, and returns only its final answer -- never its internal tool calls."@,
        r.input_schema@
            == "{\"properties\":{\"name\":{\"description\":\"Name of the subagent to invoke, matching {config_dir}/agents/{name}.md\",\"type\":\"string\"},\"task\":{\"description\":\"The task to give the subagent\",\"type\":\"string\"}},\"required\":[\"name\",\"task\"],\"type\":\"object\"}"@,
        r.cache_control is None,
{
    ToolSpec {
        name: "subagent".to_owned(),
        description:
            "Delegates a task to a named subagent, running it to completion against its own prompt and a read-only tool subset, and returns only its final answer -- never its internal tool calls.".to_owned(),
        input_schema:
            "{\"properties\":{\"name\":{\"description\":\"Name of the subagent to invoke, matching {config_dir}/agents/{name}.md\",\"type\":\"string\"},\"task\":{\"description\":\"The task to give the subagent\",\"type\":\"string\"}},\"required\":[\"name\",\"task\"],\"type\":\"object\"}".to_owned(),
        cache_control: None,
    }
}

/// The tools of a subagent.
pub fn subagent_tool_names() -> (r: Vec<String>)
    ensures
        text::texts(r@) == runner::reading_tools(),
{
    reading_tool_names()
}

/// The name under which a subagent's tool call is put to the user.
pub open spec fn tagged_name(tool_name: Seq<char>, subagent_name: Seq<char>) -> Seq<char> {
    tool_name + " (subagent: "@ + subagent_name + ")"@
}

/// A permission request that says which subagent it comes from.
pub fn tag_permission_request(request: PermissionRequest, subagent_name: &str) -> (r:
    PermissionRequest)
    ensures
        r.tool_name@ == tagged_name(request.tool_name@, subagent_name@),
        r.payload == request.payload,
{
    let mut tool_name = request.tool_name;
    tool_name.append(" (subagent: ");
    tool_name.append(subagent_name);
    tool_name.append(")");
    PermissionRequest { tool_name, payload: request.payload }
}

/// What is to happen with a subagent's tool call.
#[derive(Debug)]
pub enum SubagentGate {
    /// Run it; nobody is asked.
    Allow,
    /// Refuse it and note the refusal; nobody is asked.
    Deny,
    /// Put this request to the user.
    Prompt(PermissionRequest),
}

/// Decides about a subagent's tool call by the tool's own name and the command
/// it would run, so that what was granted or refused for the session counts
/// for subagents too. Only what
/// is left open is put to the user, under a name that says who asks.
pub fn subagent_gate(
    mode: Option<PermissionMode>,
    request: PermissionRequest,
    subagent_name: &str,
    grants: &SessionGrants,
) -> (r: SubagentGate)
    ensures
        match PermissionPolicy::decision(
            mode,
            request.tool_name@,
            request.payload.command_spec(),
            grants@,
        ) {
            Resolution::Allow => r is Allow,
            Resolution::Deny => r is Deny,
            Resolution::Prompt => r matches SubagentGate::Prompt(q) && q.tool_name@ == tagged_name(
                request.tool_name@,
                subagent_name@,
            ) && q.payload == request.payload,
        },
{
    match PermissionPolicy::resolve(
        mode,
        request.tool_name.as_str(),
        None,
        request.payload.command(),
        grants,
    ) {
        Resolution::Allow => SubagentGate::Allow,
        Resolution::Deny => SubagentGate::Deny,
        Resolution::Prompt => SubagentGate::Prompt(tag_permission_request(request, subagent_name)),
    }
}

// ---------------------------------------------------------------------------
// A subagent's turn
// ---------------------------------------------------------------------------

/// What to do next for a subagent.
pub enum SubagentAction {
    /// Send this request and hand the reply to `on_reply`.
    Send(AssembledContext),
    /// Ask this tool for a preview and hand it to `on_preview`.
    Preview { tool: usize, input: String },
    /// Ask the user and hand the answer to `on_permission`.
    Ask(PermissionRequest),
    /// Keep the checkpoint, execute this tool and hand the result to
    /// `on_execution`.
    Execute { tool: usize, input: String, checkpoint: Option<Checkpoint> },
    /// Nothing to do outside: call `proceed`.
    Continue,
    /// Note that a call was refused unasked, and call `proceed`.
    Refused,
    /// The subagent's final text, and nothing else of what it did.
    Finish(Result<String, ToolError>),
}

/// A subagent at work: its own conversation, without hooks.
pub struct SubagentRun {
    pub name: String,
    pub mode: Option<PermissionMode>,
    /// The session's turn that the subagent works for.
    pub turn_index: usize,
    /// What the user is being asked about.
    pub asked: Option<PermissionPayload>,
    pub turn: ToolLoop,
}

impl SubagentRun {
    /// What every method keeps.
    pub open spec fn wf(self) -> bool {
        &&& self.turn.wf()
        &&& !self.turn.pre_tool_hook
        &&& self.turn.concurrent@.len() == 0
        &&& self.asked is Some == (self.turn@.phase is Asking)
    }

    /// What no method changes.
    pub open spec fn same_setup(self, other: SubagentRun) -> bool {
        &&& self.name == other.name
        &&& self.mode == other.mode
        &&& self.turn_index == other.turn_index
        &&& self.turn.same_setup(other.turn)
    }

    /// A subagent with its prompt and its task; the conversation begins with
    /// the task.
    pub fn new(
        call: SubagentCall,
        prompt: String,
        tools: Vec<ToolSpec>,
        mode: Option<PermissionMode>,
        turn_index: usize,
    ) -> (r: (SubagentRun, SubagentAction))
        ensures
            r.0.wf(),
            r.0.name == call.name,
            r.0.mode == mode,
            r.0.turn_index == turn_index,
            r.0.turn.system_prompt == prompt,
            r.0.turn.repo_map is None,
            r.0.turn.tools == tools,
            r.0.turn@ == (LoopState {
                transcript: seq![message::text_msg(Role::User, call.task@)],
                calls: Seq::empty(),
                results: Seq::empty(),
                ahead: Seq::empty(),
                phase: Phase::Sending,
            }),
            r.1 matches SubagentAction::Send(c) && r.0.turn.is_request(c),
    {
        let mut transcript: Vec<Message> = Vec::new();
        transcript.push(Message::user_text(call.task.as_str()));
        assert(message::msgs(transcript@) =~= seq![message::text_msg(Role::User, call.task@)]);
        let turn = ToolLoop::new(prompt, None, tools, false, transcript);
        let request = turn.request();
        let run = SubagentRun { name: call.name, mode, turn_index, asked: None, turn };
        (run, SubagentAction::Send(request))
    }

    /// Takes the provider's reply. The text of one without tool calls is all
    /// that comes back from the subagent.
    pub fn on_reply(&mut self, reply: Result<(Message, Usage), String>) -> (r: SubagentAction)
        requires
            old(self).wf(),
            old(self).turn@.phase == Phase::Sending,
        ensures
            final(self).wf(),
            final(self).same_setup(*old(self)),
            match reply {
                Err(e) => {
                    &&& final(self).turn@ == old(self).turn@
                    &&& r matches SubagentAction::Finish(end) && (end matches Err(
                        ToolError::ExecutionFailed(m),
                    ) && m@ == e@)
                },
                Ok((m, _)) => {
                    &&& final(self).turn@ == old(self).turn@.after_reply(m@)
                    &&& if tool_loop::tool_uses(m@.content).len() == 0 {
                        r matches SubagentAction::Finish(end) && (end matches Ok(t) && t@
                            == message::text_of(m@.content))
                    } else {
                        r is Continue
                    }
                },
            },
    {
        match reply {
            Err(error) => SubagentAction::Finish(Err(ToolError::ExecutionFailed(error))),
            Ok((message, usage)) => match self.turn.on_reply(message, usage) {
                LoopAction::Finished(last, _) => SubagentAction::Finish(Ok(last.text())),
                _ => SubagentAction::Continue,
            },
        }
    }

    /// Goes on between two tool calls: to the next call, or back to the
    /// provider with all results.
    pub fn proceed(&mut self) -> (r: SubagentAction)
        requires
            old(self).wf(),
            old(self).turn@.phase == Phase::Ready,
        ensures
            final(self).wf(),
            final(self).same_setup(*old(self)),
            final(self).turn@ == tool_loop::step(
                old(self).turn@,
                LoopEvent::Proceed,
                old(self).turn.setup(),
            ),
            if old(self).turn@.answered() {
                &&& final(self).turn@ == old(self).turn@.after_results()
                &&& r matches SubagentAction::Send(c) && final(self).turn.is_request(c)
            } else {
                &&& final(self).turn@ == old(self).turn@.dispatch(old(self).turn.tools@)
                &&& match tool_loop::tool_index(
                    old(self).turn.tools@,
                    old(self).turn@.current().name,
                ) {
                    Some(i) => r matches SubagentAction::Preview { tool, input } && tool == i
                        && input@ == old(self).turn@.current().input,
                    None => r is Continue,
                }
            },
    {
        assert(!self.turn@.closes(text::texts(self.turn.concurrent@))) by {
            if self.turn@.ahead.len() > 0 {
                assert(self.turn@.ahead[0] is Waiting);
            }
        }
        match self.turn.proceed() {
            LoopAction::Send(request) => SubagentAction::Send(request),
            LoopAction::Preview { tool, input } => SubagentAction::Preview { tool, input },
            _ => SubagentAction::Continue,
        }
    }

    /// Takes the tool's preview. What the session has granted or refused counts
    /// here too; only what is left open is put to the user.
    pub fn on_preview(
        &mut self,
        preview: Option<Result<PermissionPayload, String>>,
        grants: &SessionGrants,
    ) -> (r: SubagentAction)
        requires
            old(self).wf(),
            old(self).turn@.phase is Previewing,
        ensures
            final(self).wf(),
            final(self).same_setup(*old(self)),
            ({
                let s = old(self).turn@;
                let t = s.phase->Previewing_0;
                match preview {
                    None => {
                        &&& final(self).turn@ == s.enter(Phase::Executing(t))
                        &&& r matches SubagentAction::Execute { tool, input, checkpoint } && tool
                            == t && input@ == s.current().input && checkpoint is None
                    },
                    Some(Err(e)) => final(self).turn@ == s.record(e@, true) && r is Continue,
                    Some(Ok(p)) => match PermissionPolicy::decision(
                        old(self).mode,
                        s.current().name,
                        p.command_spec(),
                        grants@,
                    ) {
                        Resolution::Allow => {
                            &&& final(self).turn@ == s.enter(Phase::Executing(t))
                            &&& r matches SubagentAction::Execute { tool, input, checkpoint }
                                && tool == t && input@ == s.current().input && checkpoint is None
                        },
                        Resolution::Deny => {
                            &&& final(self).turn@ == s.record("permission denied by user"@, true)
                            &&& r is Refused
                        },
                        Resolution::Prompt => {
                            &&& final(self).turn@ == s.enter(Phase::Asking(t))
                            &&& final(self).asked == Some(p)
                            &&& r matches SubagentAction::Ask(q) && q.payload == p && q.tool_name@
                                == tagged_name(s.current().name, old(self).name@)
                        },
                    },
                }
            }),
    {
        match self.turn.on_preview(preview) {
            LoopAction::Execute { tool, input } => SubagentAction::Execute {
                tool,
                input,
                checkpoint: None,
            },
            LoopAction::AskPermission(request) => {
                let payload = request.payload.clone();
                match subagent_gate(self.mode, request, self.name.as_str(), grants) {
                    SubagentGate::Allow => match self.turn.on_permission(true) {
                        LoopAction::Execute { tool, input } => SubagentAction::Execute {
                            tool,
                            input,
                            checkpoint: None,
                        },
                        _ => SubagentAction::Continue,
                    },
                    SubagentGate::Deny => {
                        let _ = self.turn.on_permission(false);
                        SubagentAction::Refused
                    },
                    SubagentGate::Prompt(tagged) => {
                        self.asked = Some(payload);
                        SubagentAction::Ask(tagged)
                    },
                }
            },
            _ => SubagentAction::Continue,
        }
    }

    /// Takes the user's answer. A refusal is the call's result; before a granted
    /// edit, what the file holds is kept.
    pub fn on_permission(&mut self, granted: bool) -> (r: SubagentAction)
        requires
            old(self).wf(),
            old(self).turn@.phase is Asking,
        ensures
            final(self).wf(),
            final(self).same_setup(*old(self)),
            final(self).turn@ == tool_loop::step(
                old(self).turn@,
                LoopEvent::Permission(granted),
                old(self).turn.setup(),
            ),
            if granted {
                &&& final(self).turn@ == old(self).turn@.enter(
                    Phase::Executing(old(self).turn@.phase->Asking_0),
                )
                &&& r matches SubagentAction::Execute { tool, input, checkpoint } && tool == old(
                    self,
                ).turn@.phase->Asking_0 && input@ == old(self).turn@.current().input
                    && submission::keeps(checkpoint, old(self).asked->0, old(self).turn_index)
            } else {
                &&& final(self).turn@ == old(self).turn@.record(
                    "permission denied by user"@,
                    true,
                )
                &&& r is Continue
            },
    {
        let checkpoint: Option<Checkpoint> = match &self.asked {
            Some(payload) => checkpoint_of(payload, self.turn_index),
            None => None,
        };
        self.asked = None;
        match self.turn.on_permission(granted) {
            LoopAction::Execute { tool, input } => SubagentAction::Execute {
                tool,
                input,
                checkpoint,
            },
            _ => SubagentAction::Continue,
        }
    }

    /// Takes the tool's result.
    pub fn on_execution(&mut self, result: Result<String, String>) -> (r: SubagentAction)
        requires
            old(self).wf(),
            old(self).turn@.phase is Executing,
        ensures
            final(self).wf(),
            final(self).same_setup(*old(self)),
            final(self).turn@ == tool_loop::step(
                old(self).turn@,
                LoopEvent::Execution(tool_loop::execution_seen(result)),
                old(self).turn.setup(),
            ),
            match result {
                Ok(output) => final(self).turn@ == old(self).turn@.record(output@, false),
                Err(e) => final(self).turn@ == old(self).turn@.record(e@, true),
            },
            r is Continue,
    {
        let _ = self.turn.on_execution(result);
        SubagentAction::Continue
    }
}

/// Subagents do not nest: the subagent tool is not among a subagent's tools.
pub proof fn law_subagents_do_not_nest()
    ensures
        !runner::reading_tools().contains("subagent"@),
{
    reveal_strlit("subagent");
    reveal_strlit("read");
    reveal_strlit("glob");
    reveal_strlit("grep");
    reveal_strlit("ls");
    assert("subagent"@.len() == 8);
    assert forall|i: int| 0 <= i < runner::reading_tools().len() implies #[trigger] runner::reading_tools()[i]
        != "subagent"@ by {
        assert(runner::reading_tools()[i].len() < 8);
    }
}

/// A request of a subagent names the tool first and then who asks, so that two
/// different askers of one tool are never put to the user under one name.
pub proof fn law_requests_say_who_asks(tool: Seq<char>, name: Seq<char>, other: Seq<char>)
    ensures
        tagged_name(tool, name) == tool + " (subagent: "@ + name + ")"@,
        name != other ==> tagged_name(tool, name) != tagged_name(tool, other),
{
    let a = tagged_name(tool, name);
    let b = tagged_name(tool, other);
    if a == b {
        let n = (tool + " (subagent: "@).len() as int;
        assert(a.len() == n + name.len() + ")"@.len());
        assert(b.len() == n + other.len() + ")"@.len());
        assert(a.subrange(n, n + name.len()) =~= name);
        assert(b.subrange(n, n + other.len()) =~= other);
    }
}

} // verus!
