//! One session: its conversation, the permissions given in it, and what
//! happens around each submission, from the prompt to the compaction check.
//!
//! The provider, the tools, the hooks and the session log are outside. A
//! driver performs what the methods here ask for and hands the outcome back.

use vstd::prelude::*;
use crate::cli::{AgentTier, PermissionMode};
use crate::compaction::{
    self, compaction_record, token_estimate, CompactionOutcome, TokenEstimate,
};
use crate::hooks::HookEntry;
use crate::message::{self, copy_messages_from, Message, Role, Usage};
use crate::permission_policy::{PermissionPolicy, Resolution, SessionGrants};
use crate::prompt::{PermissionDecision, PermissionDetail, PromptRequest};
use crate::text::{self, copy_strings, decimal_of};
use crate::text_map::TextMap;
use crate::tool_loop::{PermissionPayload, PermissionRequest};

verus! {

/// What one submission cost: its last provider call, and all of them.
#[derive(Debug, Clone, Copy, PartialEq, Eq, Structural)]
pub struct TurnUsage {
    pub final_call: Usage,
    pub cumulative: Usage,
}

impl TurnUsage {
    /// No call yet.
    pub fn start() -> (r: TurnUsage)
        ensures
            r.final_call == r.cumulative,
            r.cumulative == (Usage {
                input_tokens: 0,
                output_tokens: 0,
                cache_read_tokens: 0,
                cache_write_tokens: 0,
            }),
    {
        TurnUsage { final_call: Usage::default(), cumulative: Usage::default() }
    }

    /// Takes in one more provider call. A sum that cannot be held stays at the
    /// greatest number that can.
    pub fn add_call(&mut self, usage: Usage)
        ensures
            *final(self) == old(self).plus(usage),
    {
        let total = self.cumulative;
        self.final_call = usage;
        self.cumulative =
        Usage {
            input_tokens: total.input_tokens.saturating_add(usage.input_tokens),
            output_tokens: total.output_tokens.saturating_add(usage.output_tokens),
            cache_read_tokens: total.cache_read_tokens.saturating_add(usage.cache_read_tokens),
            cache_write_tokens: total.cache_write_tokens.saturating_add(usage.cache_write_tokens),
        };
    }

    /// One more provider call taken in.
    pub open spec fn plus(self, usage: Usage) -> TurnUsage {
        TurnUsage {
            final_call: usage,
            cumulative: Usage {
                input_tokens: sum_or_max(self.cumulative.input_tokens, usage.input_tokens),
                output_tokens: sum_or_max(self.cumulative.output_tokens, usage.output_tokens),
                cache_read_tokens: sum_or_max(
                    self.cumulative.cache_read_tokens,
                    usage.cache_read_tokens,
                ),
                cache_write_tokens: sum_or_max(
                    self.cumulative.cache_write_tokens,
                    usage.cache_write_tokens,
                ),
            },
        }
    }
}

/// A sum, or the greatest number that can be held.
pub open spec fn sum_or_max(a: u64, b: u64) -> u64 {
    if a + b <= u64::MAX {
        (a + b) as u64
    } else {
        u64::MAX
    }
}

// ---------------------------------------------------------------------------
// Tools
// ---------------------------------------------------------------------------

/// The tools that only read.
pub open spec fn reading_tools() -> Seq<Seq<char>> {
    seq!["read"@, "glob"@, "grep"@, "ls"@]
}

/// The tools of a session: a planning agent only reads; a building agent also
/// gets the shell, the editors, the web, its subagents and the servers' tools.
pub open spec fn session_tools(agent: AgentTier, websearch: bool, mcp: Seq<Seq<char>>) -> Seq<
    Seq<char>,
> {
    match agent {
        AgentTier::Plan => reading_tools(),
        AgentTier::Build => {
            let built_in = reading_tools() + seq![
                "bash"@,
                "write"@,
                "edit"@,
                "webfetch"@,
                "subagent"@,
            ];
            if websearch {
                built_in + seq!["websearch"@] + mcp
            } else {
                built_in + mcp
            }
        },
    }
}

/// The tools whose calls may overlap. A subagent works on its own and only
/// reads, so two of them cannot interfere with each other.
pub open spec fn concurrent_tools() -> Seq<Seq<char>> {
    seq!["subagent"@]
}

/// The names of the tools whose calls may overlap.
pub fn concurrent_tool_names() -> (r: Vec<String>)
    ensures
        text::texts(r@) == concurrent_tools(),
{
    let mut names: Vec<String> = Vec::new();
    names.push("subagent".to_owned());
    assert(text::texts(names@) =~= concurrent_tools());
    names
}

/// The names of the tools that only read.
pub fn reading_tool_names() -> (r: Vec<String>)
    ensures
        text::texts(r@) == reading_tools(),
{
    let mut names: Vec<String> = Vec::new();
    names.push("read".to_owned());
    names.push("glob".to_owned());
    names.push("grep".to_owned());
    names.push("ls".to_owned());
    assert(text::texts(names@) =~= reading_tools());
    names
}

/// The names of a session's tools. `mcp` are the names of the servers' tools.
pub fn session_tool_names(agent: AgentTier, websearch: bool, mcp: &Vec<String>) -> (r: Vec<String>)
    ensures
        text::texts(r@) == session_tools(agent, websearch, text::texts(mcp@)),
{
    let mut names = reading_tool_names();
    let ghost n0 = names@;
    match agent {
        AgentTier::Plan => {},
        AgentTier::Build => {
            names.push("bash".to_owned());
            names.push("write".to_owned());
            names.push("edit".to_owned());
            names.push("webfetch".to_owned());
            names.push("subagent".to_owned());
            if websearch {
                names.push("websearch".to_owned());
            }
            let ghost built_in = names@;
            let mut more = copy_strings(mcp);
            names.append(&mut more);
            assert(text::texts(names@) =~= text::texts(built_in) + text::texts(mcp@));
        },
    }
    assert(text::texts(names@) =~= session_tools(agent, websearch, text::texts(mcp@)));
    names
}

// ---------------------------------------------------------------------------
// Permission
// ---------------------------------------------------------------------------

/// What the prompt for a server's tool shows: the server, the tool, its input
/// and, for a remote server, where the data goes.
pub open spec fn tool_call_text(
    server: Seq<char>,
    tool: Seq<char>,
    input_pretty: Seq<char>,
    origin: Option<Seq<char>>,
) -> Seq<char> {
    let base = "server: "@ + server + "\ntool: "@ + tool + "\ninput: "@ + input_pretty;
    match origin {
        Some(o) => base + "\norigin: "@ + o,
        None => base,
    }
}

/// What the prompt for a server's tool shows.
pub fn format_tool_call_permission_text(
    server: &str,
    tool: &str,
    input_pretty: &str,
    origin: Option<&str>,
) -> (r: String)
    ensures
        r@ == tool_call_text(server@, tool@, input_pretty@, text::opt_str(origin)),
{
    let mut out = "server: ".to_owned();
    out.append(server);
    out.append("\ntool: ");
    out.append(tool);
    out.append("\ninput: ");
    out.append(input_pretty);
    match origin {
        Some(o) => {
            out.append("\norigin: ");
            out.append(o);
        },
        None => {},
    }
    out
}

/// The origin of a remote server.
pub open spec fn origin_of(origins: Map<Seq<char>, String>, server: Seq<char>) -> Option<
    Seq<char>,
> {
    if origins.contains_key(server) {
        Some(origins[server]@)
    } else {
        None
    }
}

/// Whether `detail` shows `payload`.
pub open spec fn shows(
    detail: PermissionDetail,
    payload: PermissionPayload,
    origins: Map<Seq<char>, String>,
) -> bool {
    match payload {
        PermissionPayload::Command(command) => detail matches PermissionDetail::Text(t) && t@
            == command@,
        PermissionPayload::Diff { path, old, new } => detail matches PermissionDetail::Diff {
            old: o,
            new: n,
        } && o@ == old@ && n@ == new@,
        PermissionPayload::ToolCall { server, tool, input_pretty } =>
        detail matches PermissionDetail::Text(t) && t@ == tool_call_text(
            server@,
            tool@,
            input_pretty@,
            origin_of(origins, server@),
        ),
    }
}

/// What a permission prompt shows about a tool call.
pub fn permission_detail(payload: &PermissionPayload, origins: &TextMap<String>) -> (r:
    PermissionDetail)
    requires
        origins.wf(),
    ensures
        shows(r, *payload, origins@),
{
    match payload {
        PermissionPayload::Command(command) => PermissionDetail::Text(command.clone()),
        PermissionPayload::Diff { old, new, .. } => PermissionDetail::Diff {
            old: old.clone(),
            new: new.clone(),
        },
        PermissionPayload::ToolCall { server, tool, input_pretty } => {
            let origin: Option<&str> = match origins.get(server.as_str()) {
                Some(url) => Some(url.as_str()),
                None => None,
            };
            PermissionDetail::Text(
                format_tool_call_permission_text(
                    server.as_str(),
                    tool.as_str(),
                    input_pretty.as_str(),
                    origin,
                ),
            )
        },
    }
}

/// The file contents to keep before a granted edit: the path, and what stood
/// there; an empty file and a missing one are taken for the same.
pub open spec fn pre_image_of(payload: PermissionPayload) -> Option<
    (Seq<char>, Option<Seq<char>>),
> {
    match payload {
        PermissionPayload::Diff { path, old, .. } => Some(
            (
                path@,
                if old@.len() == 0 {
                    None
                } else {
                    Some(old@)
                },
            ),
        ),
        _ => None,
    }
}

/// The file contents to keep once an edit has been granted. Shell commands and
/// servers' tools keep nothing.
pub fn capture_checkpoint_if_granted_diff(payload: &PermissionPayload) -> (r: Option<
    (String, Option<String>),
>)
    ensures
        match r {
            Some((path, old)) => pre_image_of(*payload) == Some((path@, text::opt_text(old))),
            None => pre_image_of(*payload) is None,
        },
{
    match payload {
        PermissionPayload::Diff { path, old, .. } => {
            let kept: Option<String> = if old.as_str().is_empty() {
                None
            } else {
                Some(old.clone())
            };
            Some((path.clone(), kept))
        },
        _ => None,
    }
}

/// How a permission request is to be answered.
#[derive(Debug)]
pub enum PermissionStep {
    /// A grant covers it: run the tool.
    Granted,
    /// Refuse it.
    Denied,
    /// Ask the user and hand the answer to `on_decision`.
    Ask(PromptRequest),
}

// ---------------------------------------------------------------------------
// The session
// ---------------------------------------------------------------------------

/// A session between two submissions.
pub struct SessionRunner {
    pub transcript: Vec<Message>,
    pub system_prompt: String,
    pub repo_map: Option<String>,
    pub last_known_usage: Option<Usage>,
    pub last_turn_usage: Option<TurnUsage>,
    pub turn_index: usize,
    pub session_grants: SessionGrants,
    pub mcp_http_origins: TextMap<String>,
    pub hooks_config: TextMap<Vec<HookEntry>>,
    pub agent: AgentTier,
    /// The mode that decides about tool calls; none in an interactive session,
    /// where the user decides. Subagents go by the same mode.
    pub permission_mode: Option<PermissionMode>,
    /// How many provider calls one submission may make; none for no limit.
    pub max_iterations: Option<u32>,
}

/// What a finished turn leaves to be done.
pub struct TurnEnd {
    /// The messages of this turn, for the session log.
    pub record: Vec<Message>,
    /// What the turn cost, for the session log.
    pub spent: Usage,
    /// The figure that the status line shows.
    pub shown: Usage,
    /// The size that decides about compaction.
    pub estimate: TokenEstimate,
}

/// What a compaction leaves to be done.
pub struct CompactionEnd {
    /// The summary and the last turn it replaces, for the session log.
    pub record: Option<(String, usize)>,
    /// What the user is told.
    pub notice: Option<String>,
}

/// Appends the user's prompt to a conversation.
pub fn accumulate_user_turn(transcript: &mut Vec<Message>, input: &str)
    ensures
        message::msgs(final(transcript)@) == message::msgs(old(transcript)@).push(
            message::text_msg(Role::User, input@),
        ),
{
    let ghost before = transcript@;
    let m = Message::user_text(input);
    transcript.push(m);
    assert(message::msgs(transcript@) =~= message::msgs(before).push(m@));
}

/// The last figure that a provider reported, after a call.
pub open spec fn next_known(known: Option<Usage>, usage: Usage) -> Option<Usage> {
    if usage.reported_spec() {
        Some(usage)
    } else {
        known
    }
}

/// The figure that is shown after a call: its own, or the last one reported.
pub open spec fn shown_usage(known: Option<Usage>, usage: Usage) -> Usage {
    if usage.reported_spec() || known is None {
        usage
    } else {
        known->0
    }
}

/// What the user is told when a compaction failed.
pub open spec fn compaction_failure(error: Seq<char>) -> Seq<char> {
    "[auto-compaction failed, continuing with full history: "@ + error + "]"@
}

impl SessionRunner {
    /// Whether the maps of the session are well-formed.
    pub open spec fn wf(self) -> bool {
        self.mcp_http_origins.wf() && self.hooks_config.wf()
    }

    /// What no submission changes.
    pub open spec fn same_setup(self, other: SessionRunner) -> bool {
        &&& self.system_prompt == other.system_prompt
        &&& self.repo_map == other.repo_map
        &&& self.mcp_http_origins == other.mcp_http_origins
        &&& self.hooks_config == other.hooks_config
        &&& self.agent == other.agent
        &&& self.permission_mode == other.permission_mode
        &&& self.max_iterations == other.max_iterations
    }

    /// What the last submission cost in all; nothing where there was none.
    pub fn total_usage(&self) -> (r: Usage)
        ensures
            r == (match self.last_turn_usage {
                Some(t) => t.cumulative,
                None => Usage {
                    input_tokens: 0,
                    output_tokens: 0,
                    cache_read_tokens: 0,
                    cache_write_tokens: 0,
                },
            }),
    {
        match self.last_turn_usage {
            Some(t) => t.cumulative,
            None => Usage::default(),
        }
    }

    /// Answers a permission request as far as the session's grants and its mode
    /// do; all else is put to the user. A command that only reads a repository
    /// is let through unless the mode refuses it.
    pub fn request_permission(&self, request: &PermissionRequest) -> (r: PermissionStep)
        requires
            self.wf(),
        ensures
            match PermissionPolicy::decision(
                self.permission_mode,
                request.tool_name@,
                request.payload.command_spec(),
                self.session_grants@,
            ) {
                Resolution::Allow => r is Granted,
                Resolution::Deny => r is Denied,
                Resolution::Prompt => r matches PermissionStep::Ask(q) && q.tool_name@
                    == request.tool_name@ && shows(
                    q.detail,
                    request.payload,
                    self.mcp_http_origins@,
                ),
            },
    {
        match PermissionPolicy::resolve(
            self.permission_mode,
            request.tool_name.as_str(),
            None,
            request.payload.command(),
            &self.session_grants,
        ) {
            Resolution::Allow => PermissionStep::Granted,
            Resolution::Deny => PermissionStep::Denied,
            Resolution::Prompt => PermissionStep::Ask(
                PromptRequest {
                    tool_name: request.tool_name.clone(),
                    detail: permission_detail(&request.payload, &self.mcp_http_origins),
                },
            ),
        }
    }

    /// Takes the user's answer; one that is to be remembered becomes a grant.
    pub fn on_decision(&mut self, tool_name: &str, decision: PermissionDecision) -> (r: bool)
        ensures
            r == decision.lets_through(),
            final(self).session_grants@ == (if decision == PermissionDecision::AllowAndRemember {
                old(self).session_grants@.insert(tool_name@)
            } else {
                old(self).session_grants@
            }),
            final(self).transcript == old(self).transcript,
            final(self).last_known_usage == old(self).last_known_usage,
            final(self).last_turn_usage == old(self).last_turn_usage,
            final(self).turn_index == old(self).turn_index,
            final(self).same_setup(*old(self)),
    {
        match decision {
            PermissionDecision::AllowAndRemember => {
                self.session_grants.grant(tool_name);
            },
            _ => {},
        }
        decision.granted()
    }

    /// Begins a turn: the prompt joins the conversation. The answer is where
    /// the turn's own messages start.
    pub fn begin_turn(&mut self, prompt: &str) -> (start: usize)
        ensures
            start == old(self).transcript@.len(),
            message::msgs(final(self).transcript@) == message::msgs(old(self).transcript@).push(
                message::text_msg(Role::User, prompt@),
            ),
            final(self).turn_index == old(self).turn_index,
            final(self).last_known_usage == old(self).last_known_usage,
            final(self).last_turn_usage == old(self).last_turn_usage,
            final(self).session_grants == old(self).session_grants,
            final(self).same_setup(*old(self)),
    {
        let start = self.transcript.len();
        accumulate_user_turn(&mut self.transcript, prompt);
        start
    }

    /// Ends a turn: `transcript` is the conversation as the tool loop left it.
    /// The turn is counted, and everything it said goes to the session log.
    pub fn end_turn(&mut self, transcript: Vec<Message>, start: usize, usage: TurnUsage) -> (r:
        TurnEnd)
        requires
            start <= transcript@.len(),
            old(self).turn_index < usize::MAX,
        ensures
            final(self).transcript == transcript,
            final(self).turn_index == old(self).turn_index + 1,
            final(self).last_turn_usage == Some(usage),
            final(self).last_known_usage == next_known(
                old(self).last_known_usage,
                usage.final_call,
            ),
            final(self).session_grants == old(self).session_grants,
            final(self).same_setup(*old(self)),
            message::msgs(r.record@) == message::msgs(transcript@).skip(start as int),
            r.spent == usage.cumulative,
            r.shown == shown_usage(old(self).last_known_usage, usage.final_call),
            r.estimate == compaction::estimate(
                usage.final_call,
                old(self).last_known_usage,
                message::msgs(transcript@),
            ),
    {
        let record = copy_messages_from(&transcript, start);
        let prior = self.last_known_usage;
        let estimate = token_estimate(usage.final_call, prior, &transcript);
        let shown: Usage = if usage.final_call.reported() {
            self.last_known_usage = Some(usage.final_call);
            usage.final_call
        } else {
            match prior {
                Some(known) => known,
                None => usage.final_call,
            }
        };
        self.transcript = transcript;
        self.turn_index = self.turn_index + 1;
        self.last_turn_usage = Some(usage);
        TurnEnd { record, spent: usage.cumulative, shown, estimate }
    }

    /// Takes what came of a compaction. A failed one leaves the conversation
    /// as it was and tells the user; one that found nothing to do is silent.
    pub fn end_compaction(&mut self, outcome: Result<CompactionOutcome, String>) -> (r:
        CompactionEnd)
        ensures
            match outcome {
                Ok(CompactionOutcome::Compacted(ms)) => {
                    &&& final(self).transcript == ms
                    &&& r.notice is None
                    &&& match r.record {
                        Some((summary, through)) => old(self).turn_index >= 2 && through
                            == old(self).turn_index - 2 && summary@ == compaction::raw_summary(
                            message::msgs(ms@),
                        ),
                        None => old(self).turn_index < 2,
                    }
                },
                Ok(CompactionOutcome::NothingToCompact) => {
                    &&& final(self).transcript == old(self).transcript
                    &&& r.notice is None
                    &&& r.record is None
                },
                Err(e) => {
                    &&& final(self).transcript == old(self).transcript
                    &&& text::opt_text(r.notice) == Some(compaction_failure(e@))
                    &&& r.record is None
                },
            },
            final(self).turn_index == old(self).turn_index,
            final(self).last_known_usage == old(self).last_known_usage,
            final(self).last_turn_usage == old(self).last_turn_usage,
            final(self).session_grants == old(self).session_grants,
            final(self).same_setup(*old(self)),
    {
        match outcome {
            Ok(CompactionOutcome::Compacted(messages)) => {
                let record = compaction_record(&messages, self.turn_index);
                self.transcript = messages;
                CompactionEnd { record, notice: None }
            },
            Ok(CompactionOutcome::NothingToCompact) => CompactionEnd { record: None, notice: None },
            Err(error) => {
                let mut notice =
                    "[auto-compaction failed, continuing with full history: ".to_owned();
                notice.append(error.as_str());
                notice.append("]");
                CompactionEnd { record: None, notice: Some(notice) }
            },
        }
    }
}

// ---------------------------------------------------------------------------
// Time
// ---------------------------------------------------------------------------

/// A point in time as the session log writes it: whole seconds since the
/// epoch, or zero for a clock that stands before it.
pub open spec fn timestamp_text(seconds: Option<u64>) -> Seq<char> {
    match seconds {
        Some(s) => text::decimal(s as nat),
        None => "0"@,
    }
}

/// A point in time as the session log writes it.
pub fn timestamp_of(seconds: Option<u64>) -> (r: String)
    ensures
        r@ == timestamp_text(seconds),
{
    match seconds {
        Some(s) => decimal_of(s as u128),
        None => "0".to_owned(),
    }
}

/// Calls `SystemTime::elapsed` on the epoch, and hands its answer on in whole
/// seconds; none where the clock stands before the epoch. Nothing is claimed of
/// the time itself.
#[verifier::external_body]
fn seconds_since_epoch() -> (r: Option<u64>) {
    std::time::UNIX_EPOCH.elapsed().ok().map(|d| d.as_secs())
}

/// The current time as the session log writes it.
pub fn now_timestamp() -> (r: String)
    ensures
        exists|seconds: Option<u64>| r@ == #[trigger] timestamp_text(seconds),
{
    let seconds = seconds_since_epoch();
    timestamp_of(seconds)
}

// ---------------------------------------------------------------------------
// Laws
// ---------------------------------------------------------------------------

/// Once the user has chosen to remember a tool, its next call is let through
/// without a prompt, whatever it would do, and no other tool is affected.
pub proof fn law_remembered_tools_are_not_asked_about(
    grants: Set<Seq<char>>,
    remembered: Seq<char>,
    tool_name: Seq<char>,
    payload: PermissionPayload,
)
    ensures
        PermissionPolicy::decision(
            None,
            remembered,
            payload.command_spec(),
            grants.insert(remembered),
        ) == Resolution::Allow,
        tool_name != remembered ==> PermissionPolicy::decision(
            None,
            tool_name,
            payload.command_spec(),
            grants.insert(remembered),
        ) == PermissionPolicy::decision(None, tool_name, payload.command_spec(), grants),
{
}

/// A planning agent never gets a tool that changes anything: it has the
/// reading tools and no other, whatever servers there are.
pub proof fn law_planning_agents_only_read(websearch: bool, mcp: Seq<Seq<char>>)
    ensures
        session_tools(AgentTier::Plan, websearch, mcp) == reading_tools(),
{
}

/// A call that reports nothing changes neither the last known figure nor, once
/// there is one, the figure that is shown.
pub proof fn law_silent_calls_change_no_figure(known: Usage, usage: Usage)
    requires
        !usage.reported_spec(),
    ensures
        next_known(Some(known), usage) == Some(known),
        shown_usage(Some(known), usage) == known,
{
}

/// What a submission costs is the sum of all its calls, figure by figure, as far
/// as it can be held; its last call is kept by itself.
pub proof fn law_calls_add_up(spent: TurnUsage, usage: Usage)
    ensures
        spent.plus(usage).final_call == usage,
        spent.cumulative.input_tokens + usage.input_tokens <= 0xffff_ffff_ffff_ffff
            ==> spent.plus(usage).cumulative.input_tokens == spent.cumulative.input_tokens
            + usage.input_tokens,
        spent.cumulative.output_tokens + usage.output_tokens <= 0xffff_ffff_ffff_ffff
            ==> spent.plus(usage).cumulative.output_tokens == spent.cumulative.output_tokens
            + usage.output_tokens,
        spent.cumulative.cache_read_tokens + usage.cache_read_tokens <= 0xffff_ffff_ffff_ffff
            ==> spent.plus(usage).cumulative.cache_read_tokens
            == spent.cumulative.cache_read_tokens + usage.cache_read_tokens,
        spent.cumulative.cache_write_tokens + usage.cache_write_tokens <= 0xffff_ffff_ffff_ffff
            ==> spent.plus(usage).cumulative.cache_write_tokens
            == spent.cumulative.cache_write_tokens + usage.cache_write_tokens,
        spent.plus(usage).cumulative.input_tokens >= spent.cumulative.input_tokens,
        spent.plus(usage).cumulative.output_tokens >= spent.cumulative.output_tokens,
        spent.plus(usage).cumulative.cache_read_tokens >= spent.cumulative.cache_read_tokens,
        spent.plus(usage).cumulative.cache_write_tokens >= spent.cumulative.cache_write_tokens,
{
}

/// A building agent has the reading tools, the shell, the editors, the web and its
/// subagents, the search only where it is set up, and every tool of the servers
/// behind them in its order. Only subagents may overlap.
pub proof fn law_building_agents_have_every_tool(
    websearch: bool,
    a: Seq<Seq<char>>,
    b: Seq<Seq<char>>,
)
    ensures
        session_tools(AgentTier::Build, websearch, a + b) == session_tools(
            AgentTier::Build,
            websearch,
            a,
        ) + b,
        session_tools(AgentTier::Build, false, Seq::empty()) == seq![
            "read"@,
            "glob"@,
            "grep"@,
            "ls"@,
            "bash"@,
            "write"@,
            "edit"@,
            "webfetch"@,
            "subagent"@,
        ],
        session_tools(AgentTier::Build, true, Seq::empty()) == session_tools(
            AgentTier::Build,
            false,
            Seq::empty(),
        ).push("websearch"@),
        session_tools(AgentTier::Plan, websearch, a) == seq!["read"@, "glob"@, "grep"@, "ls"@],
        concurrent_tools() == seq!["subagent"@],
{
    assert(session_tools(AgentTier::Build, websearch, a + b) =~= session_tools(
        AgentTier::Build,
        websearch,
        a,
    ) + b);
    assert(session_tools(AgentTier::Build, false, Seq::empty()) =~= seq![
        "read"@,
        "glob"@,
        "grep"@,
        "ls"@,
        "bash"@,
        "write"@,
        "edit"@,
        "webfetch"@,
        "subagent"@,
    ]);
    assert(session_tools(AgentTier::Build, true, Seq::empty()) =~= session_tools(
        AgentTier::Build,
        false,
        Seq::empty(),
    ).push("websearch"@));
}

/// A prompt shows all there is to decide about: a command as it would run, both
/// sides of an edit, or a server's tool with its whole input, and where the data
/// goes if the server is a remote one.
pub proof fn law_prompts_show_what_would_happen(
    detail: PermissionDetail,
    payload: PermissionPayload,
    origins: Map<Seq<char>, String>,
)
    requires
        shows(detail, payload, origins),
    ensures
        payload matches PermissionPayload::Command(command) ==> (detail matches PermissionDetail::Text(
            t,
        ) && t@ == command@),
        payload matches PermissionPayload::Diff { path, old, new } ==> (
        detail matches PermissionDetail::Diff { old: o, new: n } && o@ == old@ && n@ == new@),
        payload matches PermissionPayload::ToolCall { server, tool, input_pretty } ==> (
        detail matches PermissionDetail::Text(t) && t@ == "server: "@ + server@ + "\ntool: "@ + tool@
            + "\ninput: "@ + input_pretty@ + (if origins.contains_key(server@) {
            "\norigin: "@ + origins[server@]@
        } else {
            Seq::empty()
        })),
{
    if let PermissionPayload::ToolCall { server, tool, input_pretty } = payload {
        let base = "server: "@ + server@ + "\ntool: "@ + tool@ + "\ninput: "@ + input_pretty@;
        assert(base + Seq::<char>::empty() =~= base);
        if origins.contains_key(server@) {
            assert(base + "\norigin: "@ + origins[server@]@ =~= base + ("\norigin: "@
                + origins[server@]@));
        }
    }
}

/// What stood in a file before an edit is kept whole, with its path; for a new
/// file, and for an empty one, only the path is. Nothing else is kept.
pub proof fn law_edits_keep_what_stood_there(payload: PermissionPayload)
    ensures
        pre_image_of(payload) is Some <==> payload is Diff,
        pre_image_of(payload) matches Some((path, kept)) ==> path == payload->Diff_path@ && (
        payload->Diff_old@.len() > 0 ==> kept == Some(payload->Diff_old@)) && (
        payload->Diff_old@.len() == 0 ==> kept is None),
{
}

/// A figure that a call reports is the one that is shown and remembered, whatever
/// was known before; a call that reports nothing, where nothing is known, shows
/// what it has.
pub proof fn law_reported_figures_are_shown(known: Option<Usage>, usage: Usage)
    ensures
        usage.reported_spec() ==> next_known(known, usage) == Some(usage) && shown_usage(
            known,
            usage,
        ) == usage,
        !usage.reported_spec() ==> next_known(known, usage) == known,
        known is None ==> shown_usage(known, usage) == usage,
{
}

/// A point in time is written as its seconds in decimal.
pub proof fn law_times_are_written_in_seconds(s: u64)
    ensures
        timestamp_text(Some(s)) == text::decimal(s as nat),
        timestamp_text(None) == text::decimal(0),
{
    reveal_strlit("0");
    assert("0"@ =~= text::decimal(0));
}

/// A failed compaction is told with its error, whole.
pub proof fn law_failed_compactions_are_told(error: Seq<char>)
    ensures
        compaction_failure(error) == "[auto-compaction failed, continuing with full history: "@
            + error + "]"@,
{
}

} // verus!
