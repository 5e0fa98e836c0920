//! One submission from the prompt to the answer, as a state machine: the hooks
//! on the prompt, the tool loop with its hooks and permissions, the hooks at
//! the end, the session log, and the compaction of what has grown too long.
//!
//! Nothing here performs I/O. Each method takes what came back from outside
//! and answers with the next thing to do.

use vstd::prelude::*;
use crate::compaction::{
    self, compact_transcript, compaction_request, CompactionOutcome,
};
use crate::context::{AssembledContext, ToolSpec};
use crate::hooks::{
    self, apply_prompt_hook, inject_context, matching_hook_entries, pre_tool_verdict, HookEntry,
    HookEvent, HookPayload, HookResult,
};
use crate::message::{self, copy_messages, Message, Msg, Role, Usage};
use crate::permission_policy::{PermissionPolicy, Resolution};
use crate::prompt::{PermissionDecision, PromptRequest};
use crate::runner::{
    self, capture_checkpoint_if_granted_diff, concurrent_tool_names, PermissionStep, SessionRunner, TurnEnd, TurnUsage,
};
use crate::text::{self, decimal_of};
use crate::tool_loop::{
    self, Errand, LoopAction, LoopEvent, LoopState, PermissionPayload, Phase, PreToolHookOutcome,
    ToolLoop,
};

verus! {

/// Where a submission stands.
#[derive(Debug, Clone, Copy, PartialEq, Eq, Structural)]
pub enum Stage {
    /// Not begun yet.
    Fresh,
    /// Waiting for that hook on the prompt.
    PromptHook(usize),
    /// In the tool loop, whose own phase says where.
    Looping,
    /// Waiting for that hook on the current tool call.
    PreToolHook(usize),
    /// Waiting for that hook on the tool that has just run.
    PostToolHook(usize),
    /// Waiting for that hook at the end of the turn.
    StopHook(usize),
    /// Waiting to hear whether the conversation is to be compacted.
    Deciding,
    /// Waiting for the summary of the conversation.
    Compacting,
    /// Nothing is left to do.
    Over,
}

/// The contents to keep of a file before a granted edit of it.
#[derive(Debug)]
pub struct Checkpoint {
    pub turn_index: usize,
    pub path: String,
    /// What the file holds; none for a missing or an empty one.
    pub old: Option<String>,
}

/// What to do next.
pub enum SubmissionAction {
    /// Run this hook and hand its result to the method of the stage.
    RunHook { command: String, timeout_ms: u64, payload: HookPayload },
    /// Send this request and hand the reply to `on_reply`.
    Send(AssembledContext),
    /// Ask this tool for a preview and hand it to `on_preview`.
    Preview { tool: usize, input: String },
    /// Ask the user and hand the answer to `on_decision`.
    Ask(PromptRequest),
    /// Keep the checkpoint, execute this tool and hand the result to
    /// `on_execution`.
    Execute { tool: usize, input: String, checkpoint: Option<Checkpoint> },
    /// Execute these tools at the same time and hand all results to
    /// `on_together`, in this order.
    ExecuteTogether(Vec<Errand>),
    /// Nothing to do outside: call `proceed`.
    Continue,
    /// Note that a call was refused unasked, and call `proceed`.
    Refused,
    /// Log the turn, and say by its estimate to `on_choice` whether the
    /// conversation is to be compacted.
    RecordTurn(TurnEnd),
    /// Send this request and hand the reply to `on_summary`.
    Summarize(Vec<Message>),
    /// The answer or the error, and a compaction for the session log.
    Finish { result: Result<String, String>, record: Option<(String, usize)> },
}

/// A tool that has run.
#[derive(Debug)]
pub struct RanTool {
    pub name: String,
    pub input: String,
    pub output: String,
    pub is_error: bool,
}

/// A tool that has run, as mathematical values.
pub struct Ran {
    pub name: Seq<char>,
    pub input: Seq<char>,
    pub output: Seq<char>,
    pub is_error: bool,
}

impl View for RanTool {
    type V = Ran;

    open spec fn view(&self) -> Ran {
        Ran {
            name: self.name@,
            input: self.input@,
            output: self.output@,
            is_error: self.is_error,
        }
    }
}

/// Some tools that have run, as mathematical values.
pub open spec fn rans(v: Seq<RanTool>) -> Seq<Ran> {
    v.map_values(|t: RanTool| t@)
}

/// What has become of some calls that were executed together.
pub open spec fn ran_together(
    jobs: Seq<tool_loop::Job>,
    outcomes: Seq<(Seq<char>, bool)>,
) -> Seq<Ran> {
    Seq::new(
        jobs.len(),
        |i: int|
            Ran {
                name: jobs[i].name,
                input: jobs[i].input,
                output: outcomes[i].0,
                is_error: outcomes[i].1,
            },
    )
}

/// A submission under way.
pub struct Submission {
    pub session: SessionRunner,
    /// The prompt, with its mentions expanded.
    pub prompt: String,
    /// What the hooks have added to the prompt so far.
    pub context: String,
    pub turn: ToolLoop,
    /// Where the turn's own messages begin.
    pub start: usize,
    /// The provider calls made so far, where their number is limited.
    pub sends: u32,
    pub usage: TurnUsage,
    /// What the user is being asked about.
    pub asked: Option<PermissionPayload>,
    /// The tools that have run and whose hooks are still to be told; those of
    /// the first are being told.
    pub ran: Vec<RanTool>,
    /// The text of the final reply.
    pub answer: String,
    pub stage: Stage,
}

// ---------------------------------------------------------------------------
// What the methods say
// ---------------------------------------------------------------------------

/// Whether an action runs that hook.
pub open spec fn runs_hook(a: SubmissionAction, entry: HookEntry) -> bool {
    a matches SubmissionAction::RunHook { command, timeout_ms, .. } && command@ == entry.command@
        && timeout_ms == entry.allowed_ms()
}

/// Whether an action keeps what has to be kept before the payload's edit.
pub open spec fn keeps(c: Option<Checkpoint>, p: PermissionPayload, turn_index: usize) -> bool {
    match runner::pre_image_of(p) {
        Some((path, old)) => c matches Some(k) && k.path@ == path && text::opt_text(k.old) == old
            && k.turn_index == turn_index,
        None => c is None,
    }
}

/// Whether an action goes on with a call that has been looked up.
pub open spec fn looks_up(a: SubmissionAction, s: LoopState, tools: Seq<ToolSpec>) -> bool {
    match tool_loop::tool_index(tools, s.current().name) {
        Some(i) => a matches SubmissionAction::Preview { tool, input } && tool == i && input@
            == s.current().input,
        None => a is Continue,
    }
}

/// Whether an action ends the submission with that error.
pub open spec fn fails_with(a: SubmissionAction, error: Seq<char>) -> bool {
    a matches SubmissionAction::Finish { result, record } && record is None && (result matches Err(
        e,
    ) && e@ == error)
}

/// Whether an action ends the submission with that answer, and nothing was
/// compacted.
pub open spec fn answers_with(a: SubmissionAction, answer: Seq<char>) -> bool {
    a matches SubmissionAction::Finish { result, record } && record is None && (result matches Ok(
        t,
    ) && t@ == answer)
}

/// The error of a submission that would exceed its number of provider calls.
pub open spec fn limit_text(limit: u32) -> Seq<char> {
    "the tool loop reached its limit of "@ + text::decimal(limit as nat) + " provider calls"@
}

impl Submission {
    /// The hooks of an event that concern a tool.
    pub open spec fn hooks(self, event: HookEvent, tool: Option<Seq<char>>) -> Seq<HookEntry> {
        hooks::concerned(self.session.hooks_config@, event.name_spec(), tool)
    }

    /// The hooks on the current tool call.
    pub open spec fn pre_hooks(self) -> Seq<HookEntry> {
        self.hooks(HookEvent::PreToolUse, Some(self.turn@.current().name))
    }

    /// The hooks on a tool that has run.
    pub open spec fn post_hooks(self, name: Seq<char>) -> Seq<HookEntry> {
        self.hooks(HookEvent::PostToolUse, Some(name))
    }

    /// Whether another provider call is allowed.
    pub open spec fn may_send(self) -> bool {
        match self.session.max_iterations {
            Some(limit) => self.sends < limit,
            None => true,
        }
    }

    /// The number of provider calls after one more; it is kept only where it is
    /// limited.
    pub open spec fn counted_sends(self) -> u32 {
        if self.session.max_iterations is Some {
            (self.sends + 1) as u32
        } else {
            self.sends
        }
    }

    /// Whether the turn has only added to the session's conversation.
    pub open spec fn extends(self) -> bool {
        message::msgs(self.session.transcript@).is_prefix_of(self.turn@.transcript)
    }

    /// What every method keeps.
    pub open spec fn wf(self) -> bool {
        &&& self.session.wf()
        &&& self.turn.wf()
        &&& self.turn.pre_tool_hook
        &&& match self.stage {
            Stage::Fresh => self.turn@.phase == Phase::Sending && self.asked is None,
            Stage::PromptHook(i) => {
                &&& self.asked is None
                &&& i < self.hooks(HookEvent::UserPromptSubmit, None).len()
                &&& self.turn@.phase == Phase::Sending
            },
            Stage::Looping => {
                &&& self.turn@.phase != Phase::Done
                &&& self.turn@.phase != Phase::Hooking
                &&& self.asked is Some == (self.turn@.phase is Asking)
            },
            Stage::PreToolHook(i) => {
                &&& self.turn@.phase == Phase::Hooking
                &&& i < self.pre_hooks().len()
                &&& self.asked is None
            },
            Stage::PostToolHook(i) => {
                &&& self.turn@.phase == Phase::Ready
                &&& self.ran@.len() > 0
                &&& i < self.post_hooks(self.ran@[0].name@).len()
                &&& self.asked is None
            },
            Stage::StopHook(i) => {
                &&& self.turn@.phase == Phase::Done
                &&& i < self.hooks(HookEvent::Stop, None).len()
            },
            Stage::Deciding => true,
            Stage::Compacting => compaction::tail_start(message::msgs(self.session.transcript@))
                > 0,
            Stage::Over => true,
        }
        &&& match self.stage {
            Stage::Fresh | Stage::PromptHook(_) => self.session.turn_index < usize::MAX,
            Stage::Looping | Stage::PreToolHook(_) | Stage::PostToolHook(_) | Stage::StopHook(_) =>
            self.session.turn_index < usize::MAX && self.start <= self.turn@.transcript.len()
                && self.extends(),
            _ => true,
        }
    }

    /// Whether the submission has not begun, with that session, prompt and
    /// tools.
    pub open spec fn is_new(
        self,
        session: SessionRunner,
        prompt: String,
        tools: Vec<ToolSpec>,
    ) -> bool {
        &&& self.wf()
        &&& self.stage == Stage::Fresh
        &&& self.session == session
        &&& self.prompt == prompt
        &&& self.context@ == Seq::<char>::empty()
        &&& self.turn.tools == tools
        &&& text::texts(self.turn.concurrent@) == runner::concurrent_tools()
        &&& self.turn.system_prompt@ == session.system_prompt@
        &&& text::opt_text(self.turn.repo_map) == text::opt_text(session.repo_map)
        &&& self.turn@ == (LoopState {
            transcript: Seq::empty(),
            calls: Seq::empty(),
            results: Seq::empty(),
            ahead: Seq::empty(),
            phase: Phase::Sending,
        })
        &&& self.sends == 0
        &&& self.usage.final_call == self.usage.cumulative
        &&& self.usage.cumulative == (Usage {
            input_tokens: 0,
            output_tokens: 0,
            cache_read_tokens: 0,
            cache_write_tokens: 0,
        })
    }

    /// What no method changes before the turn ends.
    pub open spec fn same_turn(self, other: Submission) -> bool {
        &&& self.turn.same_setup(other.turn)
        &&& self.start == other.start
        &&& self.prompt == other.prompt
        &&& self.context == other.context
    }

    /// Whether the submission waits for that hook on its prompt.
    pub open spec fn awaits_prompt_hook(self, i: int, a: SubmissionAction) -> bool {
        &&& 0 <= i < self.hooks(HookEvent::UserPromptSubmit, None).len()
        &&& self.stage == Stage::PromptHook(i as usize)
        &&& runs_hook(a, self.hooks(HookEvent::UserPromptSubmit, None)[i])
        &&& a->payload matches HookPayload::UserPromptSubmit { prompt } && prompt@ == self.prompt@
    }

    /// Whether the submission waits for that hook on the current call.
    pub open spec fn awaits_pre_tool_hook(self, i: int, a: SubmissionAction) -> bool {
        &&& 0 <= i < self.pre_hooks().len()
        &&& self.stage == Stage::PreToolHook(i as usize)
        &&& runs_hook(a, self.pre_hooks()[i])
        &&& a->payload matches HookPayload::PreToolUse { tool_name, tool_input } && tool_name@
            == self.turn@.current().name && tool_input@ == self.turn@.current().input
    }

    /// Whether the submission waits for that hook on the first of the tools
    /// that have run.
    pub open spec fn awaits_post_tool_hook(self, ran: Seq<Ran>, i: int, a: SubmissionAction) -> bool {
        &&& rans(self.ran@) == ran
        &&& 0 <= i < self.post_hooks(ran[0].name).len()
        &&& self.stage == Stage::PostToolHook(i as usize)
        &&& runs_hook(a, self.post_hooks(ran[0].name)[i])
        &&& a->payload matches HookPayload::PostToolUse {
            tool_name,
            tool_input,
            tool_output,
            is_error,
        } && tool_name@ == ran[0].name && tool_input@ == ran[0].input && tool_output@
            == ran[0].output && is_error == ran[0].is_error
    }

    /// Whether the submission goes on with the hooks on the tools that have
    /// run, in their order, from hook number `i` of the first on; where none is
    /// left, it is back in the loop.
    pub open spec fn tells(self, ran: Seq<Ran>, i: int, a: SubmissionAction) -> bool
        decreases ran.len(),
    {
        if ran.len() == 0 {
            self.stage == Stage::Looping && a is Continue
        } else if i < self.post_hooks(ran[0].name).len() {
            self.awaits_post_tool_hook(ran, i, a)
        } else {
            self.tells(ran.skip(1), 0, a)
        }
    }

    /// Whether the submission waits for that hook at the end of its turn.
    pub open spec fn awaits_stop_hook(self, i: int, a: SubmissionAction) -> bool {
        &&& 0 <= i < self.hooks(HookEvent::Stop, None).len()
        &&& self.stage == Stage::StopHook(i as usize)
        &&& runs_hook(a, self.hooks(HookEvent::Stop, None)[i])
        &&& a->payload is Stop
    }

    /// Whether the submission has failed: what was said so far stays in the
    /// conversation, and the turn is not counted.
    pub open spec fn failed(self, before: Submission, error: Seq<char>, a: SubmissionAction) -> bool {
        &&& self.stage == Stage::Over
        &&& message::msgs(self.session.transcript@) == self.turn@.transcript
        &&& self.session.turn_index == before.session.turn_index
        &&& self.session.last_known_usage == before.session.last_known_usage
        &&& self.session.last_turn_usage == before.session.last_turn_usage
        &&& self.session.session_grants == before.session.session_grants
        &&& self.session.same_setup(before.session)
        &&& fails_with(a, error)
    }

    /// Whether the conversation as it stands has been sent, or the number of
    /// provider calls is used up.
    pub open spec fn sent(self, before: Submission, a: SubmissionAction) -> bool {
        if before.may_send() {
            &&& self.stage == Stage::Looping
            &&& self.session == before.session
            &&& self.sends == before.counted_sends()
            &&& a matches SubmissionAction::Send(c) && self.turn.is_request(c)
        } else {
            self.failed(before, limit_text(before.session.max_iterations->0), a)
        }
    }

    /// Whether the turn has been opened: the prompt has joined the
    /// conversation, with the hooks' context, and goes to the provider.
    pub open spec fn opened(self, before: Submission, context: Seq<char>, a: SubmissionAction) -> bool {
        let prompt = message::text_msg(
            Role::User,
            hooks::prompt_with_context(before.prompt@, context),
        );
        let transcript = message::msgs(before.session.transcript@).push(prompt);
        &&& self.turn@ == (LoopState { transcript, ..before.turn@ })
        &&& self.turn.same_setup(before.turn)
        &&& self.start == before.session.transcript@.len()
        &&& message::msgs(self.session.transcript@) == transcript
        &&& self.session.turn_index == before.session.turn_index
        &&& self.session.last_known_usage == before.session.last_known_usage
        &&& self.session.last_turn_usage == before.session.last_turn_usage
        &&& self.session.session_grants == before.session.session_grants
        &&& self.session.same_setup(before.session)
        &&& self.usage == before.usage
        &&& if before.may_send() {
            &&& self.stage == Stage::Looping
            &&& self.sends == before.counted_sends()
            &&& a matches SubmissionAction::Send(c) && self.turn.is_request(c)
        } else {
            &&& self.stage == Stage::Over
            &&& fails_with(a, limit_text(before.session.max_iterations->0))
        }
    }

    /// Whether a turn has ended: it is counted, and all it said goes to the
    /// session log. `session` is the session before, `transcript` the
    /// conversation as the loop left it, and `start` where the turn begins.
    pub open spec fn ended(
        self,
        session: SessionRunner,
        transcript: Seq<Msg>,
        start: usize,
        usage: TurnUsage,
        a: SubmissionAction,
    ) -> bool {
        let call = usage.final_call;
        let known = session.last_known_usage;
        &&& self.stage == Stage::Deciding
        &&& message::msgs(self.session.transcript@) == transcript
        &&& self.session.turn_index == session.turn_index + 1
        &&& self.session.last_turn_usage == Some(usage)
        &&& self.session.last_known_usage == runner::next_known(known, call)
        &&& self.session.session_grants == session.session_grants
        &&& self.session.same_setup(session)
        &&& a matches SubmissionAction::RecordTurn(t) && {
            &&& message::msgs(t.record@) == transcript.skip(start as int)
            &&& t.spent == usage.cumulative
            &&& t.shown == runner::shown_usage(known, call)
            &&& t.estimate == compaction::estimate(call, known, transcript)
        }
    }
}

/// What has only been added to stays so when more is added.
proof fn lemma_prefix_push(a: Seq<Msg>, b: Seq<Msg>, m: Msg)
    requires
        a.is_prefix_of(b),
    ensures
        a.is_prefix_of(b.push(m)),
{
    assert(a =~= b.push(m).subrange(0, a.len() as int)) by {
        assert(a =~= b.subrange(0, a.len() as int));
    }
}

/// What has only been added to twice has only been added to.
proof fn lemma_prefix_trans(a: Seq<Msg>, b: Seq<Msg>, c: Seq<Msg>)
    requires
        a.is_prefix_of(b),
        b.is_prefix_of(c),
    ensures
        a.is_prefix_of(c),
{
    assert(a =~= c.subrange(0, a.len() as int)) by {
        assert(a =~= b.subrange(0, a.len() as int));
        assert(b =~= c.subrange(0, b.len() as int));
    }
}

// ---------------------------------------------------------------------------
// The methods
// ---------------------------------------------------------------------------

/// The action that runs a hook.
fn run_hook(entry: &HookEntry, payload: HookPayload) -> (r: SubmissionAction)
    ensures
        runs_hook(r, *entry),
        r->payload == payload,
{
    SubmissionAction::RunHook { command: entry.command.clone(), timeout_ms: entry.timeout(), payload }
}

/// How a submission starts.
pub enum Opening {
    /// It can begin.
    Ready(Submission),
    /// There is no provider to send it to: the session as it was, and why.
    Unprovided { session: SessionRunner, error: String },
}

/// A submission that has not begun, unless there is no provider: then the
/// reason is handed on as it is, and nothing happens to the session. `prompt`
/// has its mentions expanded, and `tools` are the session's.
pub fn open_submission(
    session: SessionRunner,
    provider: Result<(), String>,
    prompt: String,
    tools: Vec<ToolSpec>,
) -> (r: Opening)
    requires
        session.wf(),
        session.turn_index < usize::MAX,
    ensures
        match provider {
            Ok(_) => r matches Opening::Ready(s) && s.is_new(session, prompt, tools),
            Err(e) => r matches Opening::Unprovided { session: kept, error } && kept == session
                && error == e,
        },
{
    match provider {
        Ok(_) => Opening::Ready(Submission::new(session, prompt, tools)),
        Err(error) => Opening::Unprovided { session, error },
    }
}

/// The checkpoint that a granted call needs.
pub fn checkpoint_of(payload: &PermissionPayload, turn_index: usize) -> (r: Option<Checkpoint>)
    ensures
        keeps(r, *payload, turn_index),
{
    match capture_checkpoint_if_granted_diff(payload) {
        Some((path, old)) => Some(Checkpoint { turn_index, path, old }),
        None => None,
    }
}

impl Submission {
    /// The hook of that number, among those of an event that concern a tool.
    fn entry_at(&self, event: HookEvent, tool: Option<&str>, i: usize) -> (r: Option<&HookEntry>)
        requires
            self.session.wf(),
        ensures
            match r {
                Some(e) => i < self.hooks(event, text::opt_str(tool)).len() && *e == self.hooks(
                    event,
                    text::opt_str(tool),
                )[i as int],
                None => i >= self.hooks(event, text::opt_str(tool)).len(),
            },
            r is Some ==> i < usize::MAX,
    {
        let entries = matching_hook_entries(&self.session.hooks_config, event.name(), tool);
        assert(entries@.unref().len() == entries@.len());
        if i < entries.len() {
            assert(entries@.unref()[i as int] == *entries@[i as int]);
            Some(entries[i])
        } else {
            None
        }
    }

    /// A submission that has not begun. `prompt` has its mentions expanded, and
    /// `tools` are the session's.
    pub fn new(session: SessionRunner, prompt: String, tools: Vec<ToolSpec>) -> (r: Submission)
        requires
            session.wf(),
            session.turn_index < usize::MAX,
        ensures
            r.is_new(session, prompt, tools),
    {
        let repo_map: Option<String> = match &session.repo_map {
            Some(map) => Some(map.clone()),
            None => None,
        };
        assert(text::opt_text(repo_map) == text::opt_text(session.repo_map));
        let none: Vec<Message> = Vec::new();
        assert(message::msgs(none@) =~= Seq::empty());
        let turn = ToolLoop::new(
            session.system_prompt.clone(),
            repo_map,
            tools,
            true,
            none,
        ).overlapping(concurrent_tool_names());
        let r = Submission {
            session,
            prompt,
            context: String::new(),
            turn,
            start: 0,
            sends: 0,
            usage: TurnUsage::start(),
            asked: None,
            ran: Vec::new(),
            answer: String::new(),
            stage: Stage::Fresh,
        };
        assert(r.context@ =~= Seq::<char>::empty());
        r
    }

    /// Begins the submission: with the first hook on the prompt, or with the
    /// turn where there is none.
    pub fn begin(&mut self) -> (r: SubmissionAction)
        requires
            old(self).wf(),
            old(self).stage == Stage::Fresh,
        ensures
            final(self).wf(),
            final(self).prompt == old(self).prompt,
            final(self).context == old(self).context,
            final(self).usage == old(self).usage,
            final(self).turn.same_setup(old(self).turn),
            if old(self).hooks(HookEvent::UserPromptSubmit, None).len() > 0 {
                &&& final(self).awaits_prompt_hook(0, r)
                &&& final(self).session == old(self).session
                &&& final(self).turn == old(self).turn
                &&& final(self).sends == old(self).sends
            } else {
                final(self).opened(*old(self), old(self).context@, r)
            },
    {
        self.next_prompt_hook(0)
    }

    /// Goes on to that hook on the prompt, or opens the turn.
    fn next_prompt_hook(&mut self, i: usize) -> (r: SubmissionAction)
        requires
            old(self).session.wf(),
            old(self).turn.wf(),
            old(self).turn.pre_tool_hook,
            old(self).turn@.phase == Phase::Sending,
            old(self).session.turn_index < usize::MAX,
            old(self).asked is None,
        ensures
            final(self).wf(),
            final(self).prompt == old(self).prompt,
            final(self).context == old(self).context,
            final(self).usage == old(self).usage,
            final(self).asked is None,
            final(self).turn.same_setup(old(self).turn),
            if i < old(self).hooks(HookEvent::UserPromptSubmit, None).len() {
                &&& final(self).awaits_prompt_hook(i as int, r)
                &&& final(self).session == old(self).session
                &&& final(self).turn == old(self).turn
                &&& final(self).sends == old(self).sends
            } else {
                final(self).opened(*old(self), old(self).context@, r)
            },
    {
        let payload = HookPayload::UserPromptSubmit { prompt: self.prompt.clone() };
        let action: Option<SubmissionAction> = match self.entry_at(
            HookEvent::UserPromptSubmit,
            None,
            i,
        ) {
            Some(entry) => Some(run_hook(entry, payload)),
            None => None,
        };
        match action {
            Some(a) => {
                self.stage = Stage::PromptHook(i);
                a
            },
            None => {
                let prompt = inject_context(self.prompt.clone(), self.context.as_str());
                self.start = self.session.begin_turn(prompt.as_str());
                self.turn.transcript = copy_messages(&self.session.transcript);
                proof {
                    let ms = message::msgs(self.session.transcript@);
                    assert(ms =~= ms.subrange(0, ms.len() as int));
                }
                let ghost opened = *self;
                let r = self.send();
                assert(opened.may_send() == old(self).may_send());
                r
            },
        }
    }

    /// Takes a hook's result on the prompt. An objection that counts rejects
    /// the prompt, and the session stays as it was; what a successful hook
    /// printed joins the prompt.
    pub fn on_prompt_hook(&mut self, result: HookResult) -> (r: SubmissionAction)
        requires
            old(self).wf(),
            old(self).stage is PromptHook,
        ensures
            final(self).wf(),
            ({
                let i = old(self).stage->PromptHook_0 as int;
                let entries = old(self).hooks(HookEvent::UserPromptSubmit, None);
                match hooks::veto(entries[i], result) {
                    Some(objection) => {
                        &&& final(self).stage == Stage::Over
                        &&& final(self).session == old(self).session
                        &&& fails_with(r, objection)
                    },
                    None => {
                        let context = hooks::added_context(old(self).context@, result);
                        &&& final(self).prompt == old(self).prompt
                        &&& final(self).usage == old(self).usage
                        &&& final(self).turn.same_setup(old(self).turn)
                        &&& if i + 1 < entries.len() {
                            &&& final(self).awaits_prompt_hook(i + 1, r)
                            &&& final(self).context@ == context
                            &&& final(self).session == old(self).session
                            &&& final(self).turn == old(self).turn
                            &&& final(self).sends == old(self).sends
                        } else {
                            final(self).opened(*old(self), context, r)
                        }
                    },
                }
            }),
    {
        let i: usize = match self.stage {
            Stage::PromptHook(i) => i,
            _ => 0,
        };
        let context = self.context.clone();
        let outcome = match self.entry_at(HookEvent::UserPromptSubmit, None, i) {
            Some(entry) => apply_prompt_hook(context, entry, result),
            None => Ok(context),
        };
        match outcome {
            Err(objection) => {
                self.stage = Stage::Over;
                SubmissionAction::Finish { result: Err(objection), record: None }
            },
            Ok(context) => {
                self.context = context;
                let ghost mid = *self;
                let r = self.next_prompt_hook(i + 1);
                proof {
                    assert(mid.may_send() == old(self).may_send());
                    if i + 1 >= old(self).hooks(HookEvent::UserPromptSubmit, None).len() {
                        assert(self.opened(mid, context@, r));
                        assert(self.opened(*old(self), context@, r));
                    }
                }
                r
            },
        }
    }

    /// Ends the submission with an error: what was said so far stays.
    fn fail(&mut self, error: String) -> (r: SubmissionAction)
        requires
            old(self).session.wf(),
            old(self).turn.wf(),
            old(self).turn.pre_tool_hook,
        ensures
            final(self).wf(),
            final(self).failed(*old(self), error@, r),
            final(self).turn == old(self).turn,
            final(self).usage == old(self).usage,
            final(self).start == old(self).start,
            final(self).prompt == old(self).prompt,
            final(self).context == old(self).context,
            final(self).asked == old(self).asked,
    {
        self.session.transcript = copy_messages(&self.turn.transcript);
        self.stage = Stage::Over;
        SubmissionAction::Finish { result: Err(error), record: None }
    }

    /// Sends the conversation as it stands, unless the number of provider calls
    /// is used up.
    fn send(&mut self) -> (r: SubmissionAction)
        requires
            old(self).session.wf(),
            old(self).turn.wf(),
            old(self).turn.pre_tool_hook,
            old(self).turn@.phase == Phase::Sending,
            old(self).session.turn_index < usize::MAX,
            old(self).start <= old(self).turn@.transcript.len(),
            old(self).extends(),
            old(self).asked is None,
        ensures
            final(self).wf(),
            final(self).sent(*old(self), r),
            final(self).turn == old(self).turn,
            final(self).usage == old(self).usage,
            final(self).same_turn(*old(self)),
            final(self).asked is None,
    {
        match self.session.max_iterations {
            Some(limit) => {
                if self.sends >= limit {
                    let mut error = "the tool loop reached its limit of ".to_owned();
                    error.append(decimal_of(limit as u128).as_str());
                    error.append(" provider calls");
                    return self.fail(error);
                }
                self.sends = self.sends + 1;
            },
            None => {},
        }
        self.stage = Stage::Looping;
        SubmissionAction::Send(self.turn.request())
    }

    /// Takes the provider's reply. One without tool calls is the answer; a
    /// failed call ends the submission.
    pub fn on_reply(&mut self, reply: Result<(Message, Usage), String>) -> (r: SubmissionAction)
        requires
            old(self).wf(),
            old(self).stage == Stage::Looping,
            old(self).turn@.phase == Phase::Sending,
        ensures
            final(self).wf(),
            match reply {
                Err(e) => final(self).failed(*old(self), e@, r) && final(self).turn == old(
                    self,
                ).turn,
                Ok((m, u)) => {
                    let calls = tool_loop::tool_uses(m@.content);
                    &&& final(self).turn.same_setup(old(self).turn)
                    &&& final(self).usage == old(self).usage.plus(u)
                    &&& if calls.len() > 0 {
                        &&& final(self).stage == Stage::Looping
                        &&& final(self).session == old(self).session
                        &&& final(self).turn@ == old(self).turn@.after_reply(m@)
                        &&& final(self).same_turn(*old(self))
                        &&& final(self).sends == old(self).sends
                        &&& r is Continue
                    } else {
                        &&& final(self).answer@ == message::text_of(m@.content)
                        &&& if old(self).hooks(HookEvent::Stop, None).len() > 0 {
                            &&& final(self).awaits_stop_hook(0, r)
                            &&& final(self).session == old(self).session
                            &&& final(self).turn@ == old(self).turn@.after_reply(m@)
                            &&& final(self).same_turn(*old(self))
                        } else {
                            final(self).ended(
                                old(self).session,
                                old(self).turn@.after_reply(m@).transcript,
                                old(self).start,
                                old(self).usage.plus(u),
                                r,
                            )
                        }
                    }
                },
            },
    {
        match reply {
            Err(error) => self.fail(error),
            Ok((message, usage)) => {
                proof {
                    lemma_prefix_push(
                        message::msgs(self.session.transcript@),
                        self.turn@.transcript,
                        message@,
                    );
                }
                self.usage.add_call(usage);
                match self.turn.on_reply(message, usage) {
                    LoopAction::Finished(last, _) => {
                        self.answer = last.text();
                        self.next_stop_hook(0)
                    },
                    _ => SubmissionAction::Continue,
                }
            },
        }
    }

    /// Goes on between two tool calls: to those that were set aside, to the next
    /// call and its hooks, or back to the provider with all results.
    pub fn proceed(&mut self) -> (r: SubmissionAction)
        requires
            old(self).wf(),
            old(self).stage == Stage::Looping,
            old(self).turn@.phase == Phase::Ready,
        ensures
            final(self).wf(),
            final(self).same_turn(*old(self)),
            final(self).usage == old(self).usage,
            if old(self).turn@.answered() {
                &&& final(self).turn@ == old(self).turn@.after_results()
                &&& final(self).sent(*old(self), r)
            } else if old(self).turn@.closes(text::texts(old(self).turn.concurrent@)) {
                &&& final(self).session == old(self).session
                &&& final(self).sends == old(self).sends
                &&& final(self).stage == Stage::Looping
                &&& final(self).turn@ == old(self).turn@.enter(Phase::Together)
                &&& r matches SubmissionAction::ExecuteTogether(batch) && tool_loop::jobs(batch@)
                    == old(self).turn@.aside()
            } else {
                &&& final(self).session == old(self).session
                &&& final(self).sends == old(self).sends
                &&& if old(self).pre_hooks().len() > 0 {
                    &&& final(self).turn@ == old(self).turn@.enter(Phase::Hooking)
                    &&& final(self).awaits_pre_tool_hook(0, r)
                } else {
                    &&& final(self).stage == Stage::Looping
                    &&& final(self).turn@ == old(self).turn@.dispatch(old(self).turn.tools@)
                    &&& looks_up(r, old(self).turn@, old(self).turn.tools@)
                }
            },
    {
        proof {
            lemma_prefix_push(
                message::msgs(self.session.transcript@),
                self.turn@.transcript,
                Msg { role: Role::User, content: self.turn@.results },
            );
        }
        match self.turn.proceed() {
            LoopAction::Send(_) => {
                let ghost mid = *self;
                let r = self.send();
                assert(mid.may_send() == old(self).may_send());
                r
            },
            LoopAction::ExecuteTogether(batch) => SubmissionAction::ExecuteTogether(batch),
            _ => {
                let r = self.next_pre_tool_hook(0);
                proof {
                    let s = old(self).turn@;
                    assert(s.enter(Phase::Hooking).dispatch(self.turn.tools@) == s.dispatch(
                        self.turn.tools@,
                    ));
                }
                r
            },
        }
    }

    /// Goes on to that hook on the current call, or looks the call up.
    fn next_pre_tool_hook(&mut self, i: usize) -> (r: SubmissionAction)
        requires
            old(self).session.wf(),
            old(self).turn.wf(),
            old(self).turn.pre_tool_hook,
            old(self).turn@.phase == Phase::Hooking,
            old(self).session.turn_index < usize::MAX,
            old(self).start <= old(self).turn@.transcript.len(),
            old(self).extends(),
            old(self).asked is None,
        ensures
            final(self).wf(),
            final(self).same_turn(*old(self)),
            final(self).usage == old(self).usage,
            final(self).session == old(self).session,
            final(self).sends == old(self).sends,
            if i < old(self).pre_hooks().len() {
                &&& final(self).turn@ == old(self).turn@
                &&& final(self).awaits_pre_tool_hook(i as int, r)
            } else {
                &&& final(self).stage == Stage::Looping
                &&& final(self).turn@ == old(self).turn@.dispatch(old(self).turn.tools@)
                &&& looks_up(r, old(self).turn@, old(self).turn.tools@)
            },
    {
        let k: usize = self.turn.at();
        assert(self.turn@.calls[k as int] == self.turn.calls@[k as int]@);
        let name = self.turn.calls[k].name.clone();
        let payload = HookPayload::PreToolUse {
            tool_name: name.clone(),
            tool_input: self.turn.calls[k].input.clone(),
        };
        let action: Option<SubmissionAction> = match self.entry_at(
            HookEvent::PreToolUse,
            Some(name.as_str()),
            i,
        ) {
            Some(entry) => Some(run_hook(entry, payload)),
            None => None,
        };
        match action {
            Some(a) => {
                self.stage = Stage::PreToolHook(i);
                a
            },
            None => {
                self.stage = Stage::Looping;
                match self.turn.on_hook(PreToolHookOutcome::Allow) {
                    LoopAction::Preview { tool, input } => SubmissionAction::Preview { tool, input },
                    _ => SubmissionAction::Continue,
                }
            },
        }
    }

    /// Takes a hook's result on the current call. An objection that counts is
    /// the call's result; nobody is asked, and the tool does not run.
    pub fn on_pre_tool_hook(&mut self, result: HookResult) -> (r: SubmissionAction)
        requires
            old(self).wf(),
            old(self).stage is PreToolHook,
        ensures
            final(self).wf(),
            final(self).same_turn(*old(self)),
            final(self).usage == old(self).usage,
            final(self).session == old(self).session,
            final(self).sends == old(self).sends,
            ({
                let i = old(self).stage->PreToolHook_0 as int;
                match hooks::veto(old(self).pre_hooks()[i], result) {
                    Some(objection) => {
                        &&& final(self).stage == Stage::Looping
                        &&& final(self).turn@ == old(self).turn@.record(objection, true)
                        &&& r is Continue
                    },
                    None => if i + 1 < old(self).pre_hooks().len() {
                        &&& final(self).turn@ == old(self).turn@
                        &&& final(self).awaits_pre_tool_hook(i + 1, r)
                    } else {
                        &&& final(self).stage == Stage::Looping
                        &&& final(self).turn@ == old(self).turn@.dispatch(old(self).turn.tools@)
                        &&& looks_up(r, old(self).turn@, old(self).turn.tools@)
                    },
                }
            }),
    {
        let i: usize = match self.stage {
            Stage::PreToolHook(i) => i,
            _ => 0,
        };
        let k: usize = self.turn.at();
        assert(self.turn@.calls[k as int] == self.turn.calls@[k as int]@);
        let name = self.turn.calls[k].name.clone();
        let verdict = match self.entry_at(HookEvent::PreToolUse, Some(name.as_str()), i) {
            Some(entry) => pre_tool_verdict(entry, result),
            None => PreToolHookOutcome::Allow,
        };
        match verdict {
            PreToolHookOutcome::Deny(objection) => {
                self.stage = Stage::Looping;
                let _ = self.turn.on_hook(PreToolHookOutcome::Deny(objection));
                SubmissionAction::Continue
            },
            PreToolHookOutcome::Allow => self.next_pre_tool_hook(i + 1),
        }
    }

    /// Takes the tool's preview: a tool without one runs unasked, or is set
    /// aside where its calls may overlap, and an error is the call's result.
    /// Otherwise the session's grants and its mode decide, or the user is asked.
    pub fn on_preview(&mut self, preview: Option<Result<PermissionPayload, String>>) -> (r:
        SubmissionAction)
        requires
            old(self).wf(),
            old(self).stage == Stage::Looping,
            old(self).turn@.phase is Previewing,
        ensures
            final(self).wf(),
            final(self).stage == Stage::Looping,
            final(self).same_turn(*old(self)),
            final(self).usage == old(self).usage,
            final(self).session == old(self).session,
            final(self).sends == old(self).sends,
            ({
                let s = old(self).turn@;
                let t = s.phase->Previewing_0;
                match preview {
                    None => {
                        let concurrent = text::texts(old(self).turn.concurrent@);
                        &&& final(self).turn@ == s.run_unasked(t, concurrent)
                        &&& if concurrent.contains(s.current().name) {
                            r is Continue
                        } else {
                            r matches SubmissionAction::Execute { tool, input, checkpoint } && tool
                                == t && input@ == s.current().input && checkpoint is None
                        }
                    },
                    Some(Err(e)) => final(self).turn@ == s.record(e@, true) && r is Continue,
                    Some(Ok(p)) => match PermissionPolicy::decision(
                        old(self).session.permission_mode,
                        s.current().name,
                        p.command_spec(),
                        old(self).session.session_grants@,
                    ) {
                        Resolution::Allow => {
                            &&& final(self).turn@ == s.enter(Phase::Executing(t))
                            &&& r matches SubmissionAction::Execute { tool, input, checkpoint }
                                && tool == t && input@ == s.current().input && keeps(
                                checkpoint,
                                p,
                                old(self).session.turn_index,
                            )
                        },
                        Resolution::Deny => {
                            &&& final(self).turn@ == s.record("permission denied by user"@, true)
                            &&& r is Refused
                        },
                        Resolution::Prompt => {
                            &&& final(self).turn@ == s.enter(Phase::Asking(t))
                            &&& final(self).asked == Some(p)
                            &&& r matches SubmissionAction::Ask(q) && q.tool_name@
                                == s.current().name && runner::shows(
                                q.detail,
                                p,
                                old(self).session.mcp_http_origins@,
                            )
                        },
                    },
                }
            }),
    {
        match self.turn.on_preview(preview) {
            LoopAction::Execute { tool, input } => SubmissionAction::Execute {
                tool,
                input,
                checkpoint: None,
            },
            LoopAction::AskPermission(request) => {
                match self.session.request_permission(&request) {
                    PermissionStep::Granted => self.run_granted(&request.payload),
                    PermissionStep::Denied => {
                        let _ = self.turn.on_permission(false);
                        SubmissionAction::Refused
                    },
                    PermissionStep::Ask(q) => {
                        self.asked = Some(request.payload);
                        SubmissionAction::Ask(q)
                    },
                }
            },
            _ => SubmissionAction::Continue,
        }
    }

    /// Runs the current call, which has been granted.
    fn run_granted(&mut self, payload: &PermissionPayload) -> (r: SubmissionAction)
        requires
            old(self).session.wf(),
            old(self).turn.wf(),
            old(self).turn.pre_tool_hook,
            old(self).turn@.phase is Asking,
            old(self).stage == Stage::Looping,
            old(self).session.turn_index < usize::MAX,
            old(self).start <= old(self).turn@.transcript.len(),
            old(self).extends(),
        ensures
            final(self).wf(),
            final(self).stage == Stage::Looping,
            final(self).same_turn(*old(self)),
            final(self).usage == old(self).usage,
            final(self).session == old(self).session,
            final(self).sends == old(self).sends,
            final(self).turn@ == old(self).turn@.enter(
                Phase::Executing(old(self).turn@.phase->Asking_0),
            ),
            r matches SubmissionAction::Execute { tool, input, checkpoint } && tool == old(
                self,
            ).turn@.phase->Asking_0 && input@ == old(self).turn@.current().input && keeps(
                checkpoint,
                *payload,
                old(self).session.turn_index,
            ),
    {
        let checkpoint = checkpoint_of(payload, self.session.turn_index);
        self.asked = None;
        match self.turn.on_permission(true) {
            LoopAction::Execute { tool, input } => SubmissionAction::Execute {
                tool,
                input,
                checkpoint,
            },
            _ => SubmissionAction::Continue,
        }
    }

    /// Takes the user's answer. A refusal is the call's result, and the tool
    /// does not run; an answer to be remembered becomes a grant.
    pub fn on_decision(&mut self, decision: PermissionDecision) -> (r: SubmissionAction)
        requires
            old(self).wf(),
            old(self).stage == Stage::Looping,
            old(self).turn@.phase is Asking,
        ensures
            final(self).wf(),
            final(self).stage == Stage::Looping,
            final(self).same_turn(*old(self)),
            final(self).usage == old(self).usage,
            final(self).sends == old(self).sends,
            final(self).asked is None,
            final(self).session.transcript == old(self).session.transcript,
            final(self).session.turn_index == old(self).session.turn_index,
            final(self).session.last_known_usage == old(self).session.last_known_usage,
            final(self).session.last_turn_usage == old(self).session.last_turn_usage,
            final(self).session.same_setup(old(self).session),
            final(self).turn@ == tool_loop::step(
                old(self).turn@,
                LoopEvent::Permission(decision.lets_through()),
                old(self).turn.setup(),
            ),
            ({
                let s = old(self).turn@;
                let t = s.phase->Asking_0;
                &&& final(self).session.session_grants@ == (if decision
                    == PermissionDecision::AllowAndRemember {
                    old(self).session.session_grants@.insert(s.current().name)
                } else {
                    old(self).session.session_grants@
                })
                &&& if decision.lets_through() {
                    &&& final(self).turn@ == s.enter(Phase::Executing(t))
                    &&& r matches SubmissionAction::Execute { tool, input, checkpoint } && tool == t
                        && input@ == s.current().input && keeps(
                        checkpoint,
                        old(self).asked->0,
                        old(self).session.turn_index,
                    )
                } else {
                    &&& final(self).turn@ == s.record("permission denied by user"@, true)
                    &&& r is Continue
                }
            }),
    {
        let k: usize = self.turn.at();
        assert(self.turn@.calls[k as int] == self.turn.calls@[k as int]@);
        let name = self.turn.calls[k].name.clone();
        let granted = self.session.on_decision(name.as_str(), decision);
        let asked = self.asked.take();
        match asked {
            Some(payload) => {
                if granted {
                    return self.run_granted(&payload);
                }
            },
            None => {},
        }
        let _ = self.turn.on_permission(false);
        SubmissionAction::Continue
    }

    /// Takes the tool's result. The hooks on it are told, and can change
    /// nothing.
    pub fn on_execution(&mut self, result: Result<String, String>) -> (r: SubmissionAction)
        requires
            old(self).wf(),
            old(self).stage == Stage::Looping,
            old(self).turn@.phase is Executing,
        ensures
            final(self).wf(),
            final(self).same_turn(*old(self)),
            final(self).usage == old(self).usage,
            final(self).session == old(self).session,
            final(self).sends == old(self).sends,
            final(self).turn@ == tool_loop::step(
                old(self).turn@,
                LoopEvent::Execution(tool_loop::execution_seen(result)),
                old(self).turn.setup(),
            ),
            ({
                let s = old(self).turn@;
                let (output, is_error) = match result {
                    Ok(o) => (o@, false),
                    Err(e) => (e@, true),
                };
                let call = s.current();
                &&& final(self).turn@ == s.record(output, is_error)
                &&& final(self).tells(
                    seq![Ran { name: call.name, input: call.input, output, is_error }],
                    0,
                    r,
                )
            }),
    {
        let k: usize = self.turn.at();
        assert(self.turn@.calls[k as int] == self.turn.calls@[k as int]@);
        let (output, is_error): (String, bool) = match &result {
            Ok(output) => (output.clone(), false),
            Err(error) => (error.clone(), true),
        };
        let tool = RanTool {
            name: self.turn.calls[k].name.clone(),
            input: self.turn.calls[k].input.clone(),
            output,
            is_error,
        };
        let mut ran: Vec<RanTool> = Vec::new();
        ran.push(tool);
        assert(rans(ran@) =~= seq![tool@]);
        let _ = self.turn.on_execution(result);
        self.ran = ran;
        self.next_post_tool_hook(0)
    }

    /// Takes the results of the calls that were executed together, in their
    /// order. The hooks on each are told, one call after the other.
    pub fn on_together(&mut self, done: Vec<Result<String, String>>) -> (r: SubmissionAction)
        requires
            old(self).wf(),
            old(self).stage == Stage::Looping,
            old(self).turn@.phase == Phase::Together,
            done@.len() == old(self).turn@.aside().len(),
        ensures
            final(self).wf(),
            final(self).same_turn(*old(self)),
            final(self).usage == old(self).usage,
            final(self).session == old(self).session,
            final(self).sends == old(self).sends,
            final(self).turn@ == old(self).turn@.after_together(tool_loop::outcomes(done@)),
            final(self).turn@ == tool_loop::step(
                old(self).turn@,
                LoopEvent::Together(tool_loop::outcomes(done@)),
                old(self).turn.setup(),
            ),
            final(self).tells(
                ran_together(old(self).turn@.aside(), tool_loop::outcomes(done@)),
                0,
                r,
            ),
    {
        let batch = self.turn.batch();
        let ghost jobs = self.turn@.aside();
        let ghost all = ran_together(jobs, tool_loop::outcomes(done@));
        let mut ran: Vec<RanTool> = Vec::new();
        let mut i: usize = 0;
        assert(batch@.len() == tool_loop::jobs(batch@).len());
        while i < batch.len()
            invariant
                i <= batch.len(),
                batch.len() == done.len(),
                jobs == tool_loop::jobs(batch@),
                all == ran_together(jobs, tool_loop::outcomes(done@)),
                rans(ran@) == all.take(i as int),
            decreases batch.len() - i,
        {
            let ghost before = ran@;
            assert(jobs[i as int] == batch@[i as int]@);
            assert(tool_loop::outcomes(done@)[i as int] == tool_loop::outcome(done@[i as int]));
            let (output, is_error): (String, bool) = match &done[i] {
                Ok(output) => (output.clone(), false),
                Err(error) => (error.clone(), true),
            };
            let tool = RanTool {
                name: batch[i].name.clone(),
                input: batch[i].input.clone(),
                output,
                is_error,
            };
            ran.push(tool);
            i += 1;
            assert(rans(ran@) =~= rans(before).push(tool@));
            assert(rans(ran@) =~= all.take(i as int));
        }
        assert(all.take(all.len() as int) =~= all);
        let _ = self.turn.on_together(done);
        self.ran = ran;
        self.next_post_tool_hook(0)
    }

    /// Goes on to that hook on the first of the tools that have run, to the
    /// hooks on the next one, or back to the loop.
    fn next_post_tool_hook(&mut self, i: usize) -> (r: SubmissionAction)
        requires
            old(self).session.wf(),
            old(self).turn.wf(),
            old(self).turn.pre_tool_hook,
            old(self).turn@.phase == Phase::Ready,
            old(self).session.turn_index < usize::MAX,
            old(self).start <= old(self).turn@.transcript.len(),
            old(self).extends(),
            old(self).asked is None,
        ensures
            final(self).wf(),
            final(self).same_turn(*old(self)),
            final(self).usage == old(self).usage,
            final(self).session == old(self).session,
            final(self).sends == old(self).sends,
            final(self).turn == old(self).turn,
            final(self).tells(rans(old(self).ran@), i as int, r),
        decreases old(self).ran@.len(),
    {
        if self.ran.len() == 0 {
            self.stage = Stage::Looping;
            return SubmissionAction::Continue;
        }
        assert(rans(self.ran@)[0] == self.ran@[0]@);
        let payload = HookPayload::PostToolUse {
            tool_name: self.ran[0].name.clone(),
            tool_input: self.ran[0].input.clone(),
            tool_output: self.ran[0].output.clone(),
            is_error: self.ran[0].is_error,
        };
        let name = self.ran[0].name.clone();
        let action: Option<SubmissionAction> = match self.entry_at(
            HookEvent::PostToolUse,
            Some(name.as_str()),
            i,
        ) {
            Some(entry) => Some(run_hook(entry, payload)),
            None => None,
        };
        match action {
            Some(a) => {
                self.stage = Stage::PostToolHook(i);
                a
            },
            None => {
                let ghost before = self.ran@;
                let _ = self.ran.remove(0);
                assert(rans(self.ran@) =~= rans(before).skip(1));
                self.next_post_tool_hook(0)
            },
        }
    }

    /// Goes on after a hook on a tool that has run, whatever came of the hook.
    pub fn on_post_tool_hook(&mut self) -> (r: SubmissionAction)
        requires
            old(self).wf(),
            old(self).stage is PostToolHook,
        ensures
            final(self).wf(),
            final(self).same_turn(*old(self)),
            final(self).usage == old(self).usage,
            final(self).session == old(self).session,
            final(self).sends == old(self).sends,
            final(self).turn == old(self).turn,
            final(self).tells(rans(old(self).ran@), old(self).stage->PostToolHook_0 + 1, r),
    {
        let i: usize = match self.stage {
            Stage::PostToolHook(i) => i,
            _ => 0,
        };
        let name = self.ran[0].name.clone();
        let _ = self.entry_at(HookEvent::PostToolUse, Some(name.as_str()), i);
        self.next_post_tool_hook(i + 1)
    }

    /// Goes on to that hook at the end of the turn, or ends the turn.
    fn next_stop_hook(&mut self, i: usize) -> (r: SubmissionAction)
        requires
            old(self).session.wf(),
            old(self).turn.wf(),
            old(self).turn.pre_tool_hook,
            old(self).turn@.phase == Phase::Done,
            old(self).session.turn_index < usize::MAX,
            old(self).start <= old(self).turn@.transcript.len(),
            old(self).extends(),
        ensures
            final(self).wf(),
            final(self).turn.same_setup(old(self).turn),
            final(self).usage == old(self).usage,
            final(self).answer == old(self).answer,
            if i < old(self).hooks(HookEvent::Stop, None).len() {
                &&& final(self).awaits_stop_hook(i as int, r)
                &&& final(self).same_turn(*old(self))
                &&& final(self).session == old(self).session
                &&& final(self).turn == old(self).turn
            } else {
                final(self).ended(
                    old(self).session,
                    old(self).turn@.transcript,
                    old(self).start,
                    old(self).usage,
                    r,
                )
            },
    {
        let action: Option<SubmissionAction> = match self.entry_at(HookEvent::Stop, None, i) {
            Some(entry) => Some(run_hook(entry, HookPayload::Stop)),
            None => None,
        };
        match action {
            Some(a) => {
                self.stage = Stage::StopHook(i);
                a
            },
            None => {
                let transcript = copy_messages(&self.turn.transcript);
                assert(transcript@.len() == message::msgs(transcript@).len());
                let end = self.session.end_turn(transcript, self.start, self.usage);
                self.stage = Stage::Deciding;
                SubmissionAction::RecordTurn(end)
            },
        }
    }

    /// Goes on after a hook at the end of the turn, whatever came of the hook.
    pub fn on_stop_hook(&mut self) -> (r: SubmissionAction)
        requires
            old(self).wf(),
            old(self).stage is StopHook,
        ensures
            final(self).wf(),
            final(self).answer == old(self).answer,
            ({
                let i = old(self).stage->StopHook_0 as int;
                if i + 1 < old(self).hooks(HookEvent::Stop, None).len() {
                    &&& final(self).awaits_stop_hook(i + 1, r)
                    &&& final(self).same_turn(*old(self))
                    &&& final(self).session == old(self).session
                    &&& final(self).turn == old(self).turn
                    &&& final(self).usage == old(self).usage
                } else {
                    final(self).ended(
                        old(self).session,
                        old(self).turn@.transcript,
                        old(self).start,
                        old(self).usage,
                        r,
                    )
                }
            }),
    {
        let i: usize = match self.stage {
            Stage::StopHook(i) => i,
            _ => 0,
        };
        let _ = self.entry_at(HookEvent::Stop, None, i);
        self.next_stop_hook(i + 1)
    }

    /// Takes the choice whether the conversation is to be compacted. One with
    /// nothing before its last turn is left alone.
    pub fn on_choice(&mut self, compact: bool) -> (r: SubmissionAction)
        requires
            old(self).wf(),
            old(self).stage == Stage::Deciding,
        ensures
            final(self).wf(),
            final(self).session == old(self).session,
            final(self).answer == old(self).answer,
            ({
                let ms = message::msgs(old(self).session.transcript@);
                if compact && compaction::tail_start(ms) > 0 {
                    &&& final(self).stage == Stage::Compacting
                    &&& r matches SubmissionAction::Summarize(q) && message::msgs(q@)
                        == compaction::summary_request(ms)
                } else {
                    &&& final(self).stage == Stage::Over
                    &&& answers_with(r, old(self).answer@)
                }
            }),
    {
        if compact {
            match compaction_request(&self.session.transcript) {
                Some(request) => {
                    self.stage = Stage::Compacting;
                    return SubmissionAction::Summarize(request);
                },
                None => {},
            }
        }
        self.stage = Stage::Over;
        SubmissionAction::Finish { result: Ok(self.answer.clone()), record: None }
    }

    /// Takes the summary. It replaces all but the last turn; where it could not
    /// be had, the conversation stays and the user is told.
    pub fn on_summary(&mut self, reply: Result<Message, String>) -> (r: SubmissionAction)
        requires
            old(self).wf(),
            old(self).stage == Stage::Compacting,
        ensures
            final(self).wf(),
            final(self).stage == Stage::Over,
            final(self).session.turn_index == old(self).session.turn_index,
            final(self).session.last_known_usage == old(self).session.last_known_usage,
            final(self).session.last_turn_usage == old(self).session.last_turn_usage,
            final(self).session.session_grants == old(self).session.session_grants,
            final(self).session.same_setup(old(self).session),
            ({
                let before = message::msgs(old(self).session.transcript@);
                let after = message::msgs(final(self).session.transcript@);
                match reply {
                    Ok(m) => {
                        let summary = message::text_of(m@.content);
                        &&& after == compaction::compacted(before, summary)
                        &&& r matches SubmissionAction::Finish { result, record }
                            && result matches Ok(t) && t@ == old(self).answer@ && match record {
                            Some((kept, through)) => old(self).session.turn_index >= 2 && through
                                == old(self).session.turn_index - 2 && kept@ == summary,
                            None => old(self).session.turn_index < 2,
                        }
                    },
                    Err(e) => {
                        &&& after == before
                        &&& answers_with(
                            r,
                            runner::compaction_failure(e@) + "\n"@ + old(self).answer@,
                        )
                    },
                }
            }),
    {
        let outcome: Result<CompactionOutcome, String> = match reply {
            Ok(message) => {
                let c = compact_transcript(&self.session.transcript, &message);
                proof {
                    let ms = message::msgs(self.session.transcript@);
                    compaction::law_stored_summary_is_the_written_one(
                        ms,
                        message::text_of(message@.content),
                    );
                }
                Ok(c)
            },
            Err(error) => Err(error),
        };
        let end = self.session.end_compaction(outcome);
        self.stage = Stage::Over;
        let answer = self.answer.clone();
        let text: String = match end.notice {
            Some(notice) => {
                let mut t = notice;
                t.append("\n");
                t.append(answer.as_str());
                t
            },
            None => answer,
        };
        SubmissionAction::Finish { result: Ok(text), record: end.record }
    }
}

// ---------------------------------------------------------------------------
// Laws
// ---------------------------------------------------------------------------

/// A submission that fails in the middle loses nothing: what the session held
/// before still stands at the beginning of its conversation, and all that the
/// loop has said since follows.
pub proof fn law_failures_lose_nothing(
    before: Submission,
    after: Submission,
    error: Seq<char>,
    action: SubmissionAction,
)
    requires
        before.wf(),
        before.stage == Stage::Looping,
        before.turn@.transcript.is_prefix_of(after.turn@.transcript),
        after.failed(before, error, action),
    ensures
        message::msgs(before.session.transcript@).is_prefix_of(
            message::msgs(after.session.transcript@),
        ),
        before.turn@.transcript.is_prefix_of(message::msgs(after.session.transcript@)),
        after.session.turn_index == before.session.turn_index,
{
    lemma_prefix_trans(
        message::msgs(before.session.transcript@),
        before.turn@.transcript,
        after.turn@.transcript,
    );
}

/// A turn that ends is counted once, and its conversation begins with what the
/// session held before. `transcript` is the conversation as the loop left it.
pub proof fn law_turns_are_counted_and_only_add(
    before: Submission,
    after: Submission,
    transcript: Seq<Msg>,
    usage: TurnUsage,
    action: SubmissionAction,
)
    requires
        before.wf(),
        before.stage == Stage::Looping || before.stage is StopHook,
        before.turn@.transcript.is_prefix_of(transcript),
        after.ended(before.session, transcript, before.start, usage, action),
    ensures
        message::msgs(before.session.transcript@).is_prefix_of(
            message::msgs(after.session.transcript@),
        ),
        after.session.turn_index == before.session.turn_index + 1,
{
    lemma_prefix_trans(
        message::msgs(before.session.transcript@),
        before.turn@.transcript,
        transcript,
    );
}

/// What is kept before a tool runs is an edit's earlier contents, and nothing
/// is kept for anything else.
pub proof fn law_only_edits_are_kept(
    checkpoint: Option<Checkpoint>,
    payload: PermissionPayload,
    turn_index: usize,
)
    requires
        keeps(checkpoint, payload, turn_index),
    ensures
        checkpoint is Some <==> payload is Diff,
{
}

/// A provider call is made only as long as the number of calls made so far stays
/// below the limit, and is then counted; at the limit the submission fails and
/// says so. Without a limit every call is made.
pub proof fn law_the_limit_bounds_the_calls(before: Submission, after: Submission, a: SubmissionAction)
    requires
        after.sent(before, a),
    ensures
        before.session.max_iterations is None ==> a is Send,
        before.session.max_iterations matches Some(limit) ==> (before.sends < limit <==> a is Send),
        before.session.max_iterations matches Some(limit) ==> (before.sends < limit ==> after.sends
            == before.sends + 1 && after.sends <= limit),
        before.session.max_iterations matches Some(limit) ==> (before.sends >= limit ==> (
        a matches SubmissionAction::Finish { result, record } && record is None && (
        result matches Err(e) && e@ == "the tool loop reached its limit of "@ + text::decimal(
            limit as nat,
        ) + " provider calls"@))),
        a matches SubmissionAction::Send(c) ==> after.turn.is_request(c),
{
}

/// A turn opens with the prompt, and the hooks' context behind it, as one more
/// message of the user; all that was said before stays before it.
pub proof fn law_a_turn_opens_with_the_prompt(
    before: Submission,
    after: Submission,
    context: Seq<char>,
    a: SubmissionAction,
)
    requires
        after.opened(before, context, a),
    ensures
        ({
            let earlier = message::msgs(before.session.transcript@);
            let now = after.turn@.transcript;
            &&& now.len() == earlier.len() + 1
            &&& now.drop_last() == earlier
            &&& now.last().role == Role::User
            &&& message::text_of(now.last().content) == if context.len() == 0 {
                before.prompt@
            } else {
                before.prompt@ + "\n\n"@ + context
            }
            &&& after.start == earlier.len()
            &&& message::msgs(after.session.transcript@) == now
        }),
        a is Send || a is Finish,
        before.session.max_iterations is None ==> a is Send,
        before.session.max_iterations matches Some(limit) ==> (before.sends < limit <==> a is Send),
{
    let earlier = message::msgs(before.session.transcript@);
    let now = after.turn@.transcript;
    assert(now.drop_last() =~= earlier);
    let said = hooks::prompt_with_context(before.prompt@, context);
    let content = now.last().content;
    message::law_plain_messages_hold_their_text(Role::User, said);
    message::law_texts_run_together(content, content, content[0]);
    assert(content =~= seq![content[0]]);
}

/// At the end of a turn all that it said, and nothing else, goes to the session
/// log, with the cost of all its calls.
pub proof fn law_the_whole_turn_is_logged(
    after: Submission,
    session: SessionRunner,
    transcript: Seq<Msg>,
    start: usize,
    usage: TurnUsage,
    a: SubmissionAction,
)
    requires
        start <= transcript.len(),
        after.ended(session, transcript, start, usage, a),
    ensures
        a is RecordTurn,
        transcript.take(start as int) + message::msgs(a->RecordTurn_0.record@) == transcript,
        a->RecordTurn_0.spent == usage.cumulative,
        after.session.turn_index == session.turn_index + 1,
        after.session.last_turn_usage == Some(usage),
        usage.final_call.input_tokens > 0 || usage.final_call.output_tokens > 0
            ==> a->RecordTurn_0.shown == usage.final_call && after.session.last_known_usage == Some(
            usage.final_call,
        ),
{
    assert(transcript.take(start as int) + transcript.skip(start as int) =~= transcript);
}

/// A submission that fails ends with its error, and its turn is neither counted
/// nor charged.
pub proof fn law_failures_are_not_counted(
    before: Submission,
    after: Submission,
    error: Seq<char>,
    a: SubmissionAction,
)
    requires
        after.failed(before, error, a),
    ensures
        after.stage is Over,
        a matches SubmissionAction::Finish { result, record } && record is None && (
        result matches Err(e) && e@ == error),
        message::msgs(after.session.transcript@) == after.turn@.transcript,
        after.session.turn_index == before.session.turn_index,
        after.session.last_turn_usage == before.session.last_turn_usage,
        after.session.session_grants == before.session.session_grants,
{
}

/// The hooks on a call are those configured for calls that name no tool or match
/// the call's, and those on a tool that has run likewise; none is left out.
pub proof fn law_calls_have_all_their_hooks(s: Submission, name: Seq<char>)
    ensures
        ({
            let config = s.session.hooks_config@;
            &&& config.contains_key("PreToolUse"@) ==> s.pre_hooks() == config["PreToolUse"@]@.filter(
                |e: HookEntry|
                    e.matcher is None || hooks::glob(e.matcher->0@, s.turn@.current().name),
            )
            &&& config.contains_key("PostToolUse"@) ==> s.post_hooks(name)
                == config["PostToolUse"@]@.filter(
                |e: HookEntry| e.matcher is None || hooks::glob(e.matcher->0@, name),
            )
            &&& config.contains_key("UserPromptSubmit"@) ==> s.hooks(
                HookEvent::UserPromptSubmit,
                None,
            ) == config["UserPromptSubmit"@]@
            &&& config.contains_key("Stop"@) ==> s.hooks(HookEvent::Stop, None)
                == config["Stop"@]@
        }),
{
    let config = s.session.hooks_config@;
    hooks::law_all_matching_hooks_run(config, "PreToolUse"@, s.turn@.current().name);
    hooks::law_all_matching_hooks_run(config, "PostToolUse"@, name);
    hooks::law_all_matching_hooks_run(config, "UserPromptSubmit"@, name);
    hooks::law_all_matching_hooks_run(config, "Stop"@, name);
}

/// Of several tools that have run together, each has its hooks told, in order:
/// tools without hooks are passed over, and where no tool is left that has any
/// the submission goes on.
pub proof fn law_every_tool_that_ran_is_told(
    s: Submission,
    ran: Seq<Ran>,
    j: int,
    a: SubmissionAction,
)
    requires
        s.tells(ran, 0, a),
        0 <= j <= ran.len(),
        forall|k: int| 0 <= k < j ==> s.post_hooks((#[trigger] ran[k]).name).len() == 0,
    ensures
        j == ran.len() ==> s.stage is Looping && a is Continue,
        j < ran.len() && s.post_hooks(ran[j].name).len() > 0 ==> {
            let entry = s.post_hooks(ran[j].name)[0];
            &&& s.stage == Stage::PostToolHook(0)
            &&& rans(s.ran@) == ran.skip(j)
            &&& a matches SubmissionAction::RunHook { command, timeout_ms, payload } && command@
                == entry.command@ && (payload matches HookPayload::PostToolUse {
                tool_name,
                tool_input,
                tool_output,
                is_error,
            } && tool_name@ == ran[j].name && tool_input@ == ran[j].input && tool_output@
                == ran[j].output && is_error == ran[j].is_error)
        },
    decreases j,
{
    if j > 0 {
        let rest = ran.skip(1);
        assert(s.post_hooks(ran[0].name).len() == 0);
        assert forall|k: int| 0 <= k < j - 1 implies s.post_hooks((#[trigger] rest[k]).name).len()
            == 0 by {
            assert(rest[k] == ran[k + 1]);
        }
        law_every_tool_that_ran_is_told(s, rest, j - 1, a);
        if j < ran.len() {
            assert(rest[j - 1] == ran[j]);
            assert(rest.skip(j - 1) =~= ran.skip(j));
        }
    } else {
        assert(ran.skip(0) =~= ran);
    }
}

/// After a hook on a tool that has run comes the next hook on it, if there is one,
/// and else the hooks of the tools behind it.
pub proof fn law_hooks_of_one_tool_follow_each_other(
    s: Submission,
    ran: Seq<Ran>,
    i: int,
    a: SubmissionAction,
)
    requires
        s.tells(ran, i, a),
        ran.len() > 0,
        0 <= i,
    ensures
        i < s.post_hooks(ran[0].name).len() ==> s.stage == Stage::PostToolHook(i as usize) && runs_hook(
            a,
            s.post_hooks(ran[0].name)[i],
        ),
        i >= s.post_hooks(ran[0].name).len() ==> s.tells(ran.skip(1), 0, a),
{
}

/// A hook before a call is told the tool and its whole input, and a hook on the
/// prompt the whole prompt; each runs its own command for as long as it may.
pub proof fn law_hooks_are_told_what_they_are_about(s: Submission, i: int, a: SubmissionAction)
    ensures
        s.awaits_pre_tool_hook(i, a) ==> {
            &&& 0 <= i < s.pre_hooks().len()
            &&& a matches SubmissionAction::RunHook { command, timeout_ms, payload } && command@
                == s.pre_hooks()[i].command@ && (s.pre_hooks()[i].timeout_ms is None ==> timeout_ms
                == 60_000) && (s.pre_hooks()[i].timeout_ms matches Some(ms) ==> timeout_ms == ms)
                && (payload matches HookPayload::PreToolUse { tool_name, tool_input }
                && tool_name@ == s.turn@.current().name && tool_input@ == s.turn@.current().input)
        },
        s.awaits_prompt_hook(i, a) ==> {
            let all = s.hooks(HookEvent::UserPromptSubmit, None);
            &&& 0 <= i < all.len()
            &&& a matches SubmissionAction::RunHook { command, timeout_ms, payload } && command@
                == all[i].command@ && (payload matches HookPayload::UserPromptSubmit { prompt }
                && prompt@ == s.prompt@)
        },
        s.awaits_stop_hook(i, a) ==> {
            let all = s.hooks(HookEvent::Stop, None);
            &&& 0 <= i < all.len()
            &&& a matches SubmissionAction::RunHook { command, timeout_ms, payload } && command@
                == all[i].command@ && payload is Stop
        },
{
}

/// Each of the calls that ran together keeps its own name, input and outcome.
pub proof fn law_calls_keep_their_own_outcomes(
    jobs: Seq<tool_loop::Job>,
    outcomes: Seq<(Seq<char>, bool)>,
    i: int,
)
    requires
        0 <= i < jobs.len(),
    ensures
        ran_together(jobs, outcomes).len() == jobs.len(),
        ran_together(jobs, outcomes)[i].name == jobs[i].name,
        ran_together(jobs, outcomes)[i].input == jobs[i].input,
        ran_together(jobs, outcomes)[i].output == outcomes[i].0,
        ran_together(jobs, outcomes)[i].is_error == outcomes[i].1,
{
}

/// What is kept before an edit is the file's path, what stood there, and the turn
/// that it belongs to.
pub proof fn law_checkpoints_hold_what_stood_there(
    checkpoint: Option<Checkpoint>,
    payload: PermissionPayload,
    turn_index: usize,
)
    requires
        keeps(checkpoint, payload, turn_index),
        payload is Diff,
    ensures
        checkpoint matches Some(c) && c.path@ == payload->Diff_path@ && c.turn_index == turn_index
            && (payload->Diff_old@.len() > 0 ==> c.old is Some && c.old->0@ == payload->Diff_old@)
            && (payload->Diff_old@.len() == 0 ==> c.old is None),
{
    runner::law_edits_keep_what_stood_there(payload);
}

/// An answer ends the submission with exactly its text, and an error with exactly
/// its message; neither leaves anything else to be logged.
pub proof fn law_submissions_end_with_one_text(a: SubmissionAction, said: Seq<char>)
    ensures
        answers_with(a, said) ==> (a matches SubmissionAction::Finish { result, record } && record
            is None && (result matches Ok(t) && t@ == said)),
        fails_with(a, said) ==> (a matches SubmissionAction::Finish { result, record } && record
            is None && (result matches Err(e) && e@ == said)),
        !(answers_with(a, said) && fails_with(a, said)),
{
}

/// A call goes to the first tool of its name with the call's own input, and to
/// none where no tool has that name.
pub proof fn law_calls_are_looked_up_by_name(
    a: SubmissionAction,
    s: LoopState,
    tools: Seq<ToolSpec>,
    i: int,
)
    requires
        looks_up(a, s, tools),
    ensures
        0 <= i < tools.len() && tools[i].name@ == s.current().name && (forall|j: int|
            0 <= j < i ==> (#[trigger] tools[j]).name@ != s.current().name) ==> (
        a matches SubmissionAction::Preview { tool, input } && tool == i && input@
            == s.current().input),
        (forall|j: int| 0 <= j < tools.len() ==> (#[trigger] tools[j]).name@ != s.current().name)
            ==> a is Continue,
{
    tool_loop::lemma_tool_index(tools, s.current().name);
}

/// A submission begins with its session and prompt as they are, with no context,
/// no calls made and nothing spent.
pub proof fn law_submissions_begin_with_nothing_done(
    s: Submission,
    session: SessionRunner,
    prompt: String,
    tools: Vec<ToolSpec>,
)
    requires
        s.is_new(session, prompt, tools),
    ensures
        s.stage is Fresh,
        s.session == session,
        s.prompt == prompt,
        s.context@.len() == 0,
        s.turn.tools == tools,
        s.turn.system_prompt@ == session.system_prompt@,
        s.turn@.transcript.len() == 0,
        s.turn@.calls.len() == 0,
        s.sends == 0,
        s.usage.cumulative.input_tokens == 0,
        s.usage.cumulative.output_tokens == 0,
        s.usage.cumulative.cache_read_tokens == 0,
        s.usage.cumulative.cache_write_tokens == 0,
        text::texts(s.turn.concurrent@) == seq!["subagent"@],
{
}

} // verus!
