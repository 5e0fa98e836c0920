//! Headless runs: one prompt, no user to ask, one result.

use vstd::prelude::*;
use crate::cli::{AgentTier, OutputFormat, PermissionMode};
use crate::message::{self, Message, Msg, Role, Usage};
use crate::prompt::{PermissionDecision, PermissionDetail};
use crate::result_schema::{self, ResultObject, Subtype, UsageObject};
use crate::text::{self, text_eq, trimmed_end};

verus! {

/// How the program runs.
#[derive(Debug, PartialEq, Eq)]
pub enum Mode {
    /// With a user interface.
    Tui,
    /// Headless, with this prompt.
    Headless(String),
}

/// Whether the prompt is to be read from standard input.
pub fn reads_stdin(print: Option<&str>) -> (r: bool)
    ensures
        r == (text::opt_str(print) == Some("-"@)),
{
    match print {
        Some(prompt) => text_eq(prompt, "-"),
        None => false,
    }
}

impl Mode {
    /// The prompt of a headless run.
    pub open spec fn prompt_spec(self) -> Option<Seq<char>> {
        match self {
            Mode::Tui => None,
            Mode::Headless(prompt) => Some(prompt@),
        }
    }
}

/// The prompt that the print flag gives, if it is there.
pub open spec fn printed_prompt(print: Option<Seq<char>>, stdin: Seq<char>) -> Option<Seq<char>> {
    match print {
        None => None,
        Some(prompt) => if prompt == "-"@ {
            Some(text::trim_end(stdin))
        } else {
            Some(prompt)
        },
    }
}

/// How the program runs, by its print flag. A lone dash stands for what
/// standard input holds, without the white space at its end.
pub fn select_mode(print: Option<&str>, stdin: &str) -> (r: Mode)
    ensures
        r.prompt_spec() == printed_prompt(text::opt_str(print), stdin@),
        match print {
            None => r == Mode::Tui,
            Some(prompt) => r matches Mode::Headless(p) && p@ == (if prompt@ == "-"@ {
                text::trim_end(stdin@)
            } else {
                prompt@
            }),
        },
{
    match print {
        None => Mode::Tui,
        Some(prompt) => if text_eq(prompt, "-") {
            Mode::Headless(trimmed_end(stdin))
        } else {
            Mode::Headless(prompt.to_owned())
        },
    }
}

/// Answers permission prompts where there is no user, by the mode alone, and
/// remembers whether it has refused one.
#[derive(Debug)]
pub struct HeadlessPermissionRequester {
    mode: PermissionMode,
    denied: bool,
}

impl HeadlessPermissionRequester {
    /// The mode that decides.
    pub closed spec fn mode_spec(self) -> PermissionMode {
        self.mode
    }

    /// Whether a prompt has been refused.
    pub closed spec fn denied_spec(self) -> bool {
        self.denied
    }

    /// Whether the mode lets a prompt of this kind through.
    pub open spec fn grants(mode: PermissionMode, detail: PermissionDetail) -> bool {
        match mode {
            PermissionMode::Deny => false,
            PermissionMode::Bypass => true,
            PermissionMode::AcceptEdits => detail is Diff,
        }
    }

    /// Whether a prompt has been refused.
    pub fn denied(&self) -> (r: bool)
        ensures
            r == self.denied_spec(),
    {
        self.denied
    }

    /// Answers a prompt.
    pub fn request(&mut self, detail: &PermissionDetail) -> (r: PermissionDecision)
        ensures
            r == (if Self::grants(old(self).mode_spec(), *detail) {
                PermissionDecision::Allow
            } else {
                PermissionDecision::Deny
            }),
            final(self).mode_spec() == old(self).mode_spec(),
            final(self).denied_spec() == (old(self).denied_spec() || !Self::grants(
                old(self).mode_spec(),
                *detail,
            )),
    {
        let granted = match self.mode {
            PermissionMode::Deny => false,
            PermissionMode::Bypass => true,
            PermissionMode::AcceptEdits => match detail {
                PermissionDetail::Diff { .. } => true,
                _ => false,
            },
        };
        if granted {
            PermissionDecision::Allow
        } else {
            self.denied = true;
            PermissionDecision::Deny
        }
    }

    /// Notes a refusal that was made without a prompt.
    pub fn note_denied(&mut self)
        ensures
            final(self).mode_spec() == old(self).mode_spec(),
            final(self).denied_spec(),
    {
        self.denied = true;
    }
}

/// Whether a mode may be used.
pub open spec fn may_use(mode: PermissionMode, dangerously_skip_permissions: bool) -> bool {
    mode != PermissionMode::Bypass || dangerously_skip_permissions
}

/// Whoever answers the prompts of a headless run. Letting everything through
/// takes an explicit flag.
pub fn build_permission_requester(mode: PermissionMode, dangerously_skip_permissions: bool) -> (r:
    Result<HeadlessPermissionRequester, String>)
    ensures
        r is Ok == may_use(mode, dangerously_skip_permissions),
        match r {
            Ok(q) => (mode != PermissionMode::Bypass || dangerously_skip_permissions)
                && q.mode_spec() == mode && !q.denied_spec(),
            Err(m) => mode == PermissionMode::Bypass && !dangerously_skip_permissions && m@
                == "--permission-mode bypass requires the explicit --dangerously-skip-permissions flag"@,
        },
{
    match mode {
        PermissionMode::Bypass => {
            if !dangerously_skip_permissions {
                return Err(
                    "--permission-mode bypass requires the explicit --dangerously-skip-permissions flag".to_owned(),
                );
            }
        },
        _ => {},
    }
    Ok(HeadlessPermissionRequester { mode, denied: false })
}

/// Why a run did not get as far as a result.
#[derive(Debug, PartialEq, Eq)]
pub enum BootstrapError {
    /// The flags do not fit together.
    CliMisuse(String),
    /// Anything else.
    Other(String),
}

/// The error of a configuration that could not be loaded.
pub fn config_error(error: &str) -> (r: BootstrapError)
    ensures
        r matches BootstrapError::Other(m) && m@ == "failed to initialize config: "@ + error@,
{
    let mut m = "failed to initialize config: ".to_owned();
    m.append(error);
    BootstrapError::Other(m)
}

/// The error of an agent's prompt that could not be read.
pub fn prompt_error(error: &str) -> (r: BootstrapError)
    ensures
        r matches BootstrapError::Other(m) && m@ == "failed to read agent prompt: "@ + error@,
{
    let mut m = "failed to read agent prompt: ".to_owned();
    m.append(error);
    BootstrapError::Other(m)
}

impl BootstrapError {
    /// The exit code of a run that got no result.
    pub open spec fn exit_code_spec(self) -> u8 {
        match self {
            BootstrapError::CliMisuse(_) => 2,
            BootstrapError::Other(_) => 1,
        }
    }

    /// The exit code of a run that got no result.
    pub fn exit_code(&self) -> (r: u8)
        ensures
            r == self.exit_code_spec(),
            r == (if self is CliMisuse {
                2u8
            } else {
                1u8
            }),
    {
        match self {
            BootstrapError::CliMisuse(_) => 2,
            BootstrapError::Other(_) => 1,
        }
    }
}

/// A run's result and its conversation.
#[derive(Debug)]
pub struct HeadlessRunOutcome {
    pub result_object: ResultObject,
    pub transcript: Vec<Message>,
}

/// The flags of a run with their defaults filled in.
#[derive(Debug, Clone, Copy, PartialEq, Eq, Structural)]
pub struct RunOptions {
    pub permission_mode: PermissionMode,
    pub output_format: OutputFormat,
    pub agent: AgentTier,
}

/// Fills in the defaults: refuse, plain text, planning.
pub fn run_options(
    permission_mode: Option<PermissionMode>,
    output_format: Option<OutputFormat>,
    agent: Option<AgentTier>,
) -> (r: RunOptions)
    ensures
        r.permission_mode == (match permission_mode {
            Some(m) => m,
            None => PermissionMode::Deny,
        }),
        r.output_format == (match output_format {
            Some(f) => f,
            None => OutputFormat::Text,
        }),
        r.agent == (match agent {
            Some(a) => a,
            None => AgentTier::Plan,
        }),
{
    RunOptions {
        permission_mode: match permission_mode {
            Some(m) => m,
            None => PermissionMode::Deny,
        },
        output_format: match output_format {
            Some(f) => f,
            None => OutputFormat::Text,
        },
        agent: match agent {
            Some(a) => a,
            None => AgentTier::Plan,
        },
    }
}

/// A piece of context that is added to the system prompt.
#[derive(Debug)]
pub struct MemorySegment {
    pub label: String,
    pub content: String,
}

/// A system prompt followed by pieces of context, each under its heading.
pub open spec fn prompt_with_memory(prompt: Seq<char>, segments: Seq<MemorySegment>) -> Seq<char>
    decreases segments.len(),
{
    if segments.len() == 0 {
        prompt
    } else {
        prompt_with_memory(prompt, segments.drop_last()) + "\n\n"@ + "# "@ + segments.last().label@
            + "\n"@ + segments.last().content@
    }
}

/// A system prompt followed by pieces of context, each under its heading.
pub fn build_system_prompt(prompt: &str, segments: &Vec<MemorySegment>) -> (r: String)
    ensures
        r@ == prompt_with_memory(prompt@, segments@),
{
    let mut out = prompt.to_owned();
    let mut i: usize = 0;
    while i < segments.len()
        invariant
            i <= segments.len(),
            out@ == prompt_with_memory(prompt@, segments@.take(i as int)),
        decreases segments.len() - i,
    {
        out.append("\n\n");
        out.append("# ");
        out.append(segments[i].label.as_str());
        out.append("\n");
        out.append(segments[i].content.as_str());
        i += 1;
        assert(segments@.take(i as int).drop_last() =~= segments@.take(i - 1));
    }
    assert(segments@.take(segments@.len() as int) =~= segments@);
    out
}

/// How a run ended: a refused permission outweighs everything else.
pub open spec fn run_subtype(succeeded: bool, denied: bool) -> Subtype {
    if denied {
        Subtype::ErrorPermission
    } else if succeeded {
        Subtype::Success
    } else {
        Subtype::ErrorMaxTurns
    }
}

/// How many messages of a conversation the assistant wrote.
pub open spec fn assistant_count(ms: Seq<Msg>) -> nat
    decreases ms.len(),
{
    if ms.len() == 0 {
        0
    } else {
        assistant_count(ms.drop_last()) + if ms.last().role == Role::Assistant {
            1nat
        } else {
            0nat
        }
    }
}

/// How many messages of a conversation the assistant wrote.
pub fn count_assistant_turns(transcript: &Vec<Message>) -> (r: usize)
    ensures
        r == assistant_count(message::msgs(transcript@)),
{
    let ghost ms = message::msgs(transcript@);
    let mut n: usize = 0;
    let mut i: usize = 0;
    while i < transcript.len()
        invariant
            i <= transcript.len(),
            ms == message::msgs(transcript@),
            n <= i,
            n == assistant_count(ms.take(i as int)),
        decreases transcript.len() - i,
    {
        if transcript[i].role == Role::Assistant {
            n += 1;
        }
        i += 1;
        proof {
            assert(ms.take(i as int).drop_last() =~= ms.take(i - 1));
            assert(ms.take(i as int).last() == transcript@[i - 1]@);
        }
    }
    assert(ms.take(ms.len() as int) =~= ms);
    n
}

/// The result of a run. `run` is the reply or the error, `denied` whether a
/// permission was refused on the way.
pub fn run_result_object(
    run: Result<String, String>,
    denied: bool,
    session_id: String,
    transcript: Vec<Message>,
    usage: Usage,
    duration_ms: u64,
) -> (r: HeadlessRunOutcome)
    ensures
        r.transcript == transcript,
        r.result_object.subtype == run_subtype(run is Ok, denied),
        r.result_object.is_error == (r.result_object.subtype != Subtype::Success),
        r.result_object.session_id == session_id,
        r.result_object.result@ == (match run {
            Ok(reply) => reply@,
            Err(error) => error@,
        }),
        r.result_object.usage == result_schema::usage_object(usage),
        r.result_object.num_turns == assistant_count(message::msgs(transcript@)) as usize as u32,
        r.result_object.duration_ms == duration_ms,
{
    let (subtype, result): (Subtype, String) = match run {
        Ok(reply) => if denied {
            (Subtype::ErrorPermission, reply)
        } else {
            (Subtype::Success, reply)
        },
        Err(error) => if denied {
            (Subtype::ErrorPermission, error)
        } else {
            (Subtype::ErrorMaxTurns, error)
        },
    };
    let num_turns: u32 = count_assistant_turns(&transcript) as u32;
    HeadlessRunOutcome {
        result_object: ResultObject {
            subtype,
            session_id,
            result,
            is_error: subtype != Subtype::Success,
            usage: UsageObject::from(usage),
            num_turns,
            duration_ms,
        },
        transcript,
    }
}

/// Whether a plain-text result goes to standard output; errors go to standard
/// error.
pub fn text_goes_to_stdout(result: &ResultObject) -> (r: bool)
    ensures
        r == (result.subtype == Subtype::Success),
{
    match result.subtype {
        Subtype::Success => true,
        _ => false,
    }
}

/// The name of a message's event in a stream.
pub fn event_type(role: Role) -> (r: &'static str)
    ensures
        r@ == (match role {
            Role::User => "user"@,
            Role::Assistant => "assistant"@,
            Role::System => "system"@,
        }),
{
    match role {
        Role::User => "user",
        Role::Assistant => "assistant",
        Role::System => "system",
    }
}

/// Whether a prompt has been refused after some more of them.
pub open spec fn denied_after(
    mode: PermissionMode,
    denied: bool,
    details: Seq<PermissionDetail>,
) -> bool
    decreases details.len(),
{
    if details.len() == 0 {
        denied
    } else {
        denied_after(mode, denied, details.drop_last()) || !HeadlessPermissionRequester::grants(
            mode,
            details.last(),
        )
    }
}

/// A refusal is never forgotten: whatever is asked afterwards, the run counts
/// as refused, and its result says so.
pub proof fn law_a_refusal_decides_the_run(
    mode: PermissionMode,
    denied: bool,
    details: Seq<PermissionDetail>,
    succeeded: bool,
)
    ensures
        denied_after(mode, denied, details) == (denied || exists|i: int|
            0 <= i < details.len() && !HeadlessPermissionRequester::grants(
                mode,
                #[trigger] details[i],
            )),
        denied_after(mode, denied, details) ==> run_subtype(
            succeeded,
            denied_after(mode, denied, details),
        ) == Subtype::ErrorPermission,
    decreases details.len(),
{
    if details.len() > 0 {
        let before = details.drop_last();
        law_a_refusal_decides_the_run(mode, denied, before, succeeded);
        assert(details[details.len() - 1] == details.last());
        assert forall|i: int| 0 <= i < before.len() implies #[trigger] before[i] == details[i] by {}
        if exists|i: int|
            0 <= i < before.len() && !HeadlessPermissionRequester::grants(
                mode,
                #[trigger] before[i],
            ) {
            let i = choose|i: int|
                0 <= i < before.len() && !HeadlessPermissionRequester::grants(
                    mode,
                    #[trigger] before[i],
                );
            assert(!HeadlessPermissionRequester::grants(mode, details[i]));
        }
        if exists|i: int|
            0 <= i < details.len() && !HeadlessPermissionRequester::grants(
                mode,
                #[trigger] details[i],
            ) {
            let i = choose|i: int|
                0 <= i < details.len() && !HeadlessPermissionRequester::grants(
                    mode,
                    #[trigger] details[i],
                );
            if i < before.len() {
                assert(before[i] == details[i]);
            }
        }
    }
}

/// Only edits are let through by the mode that accepts edits, and nothing by
/// the one that refuses.
pub proof fn law_modes_let_through_no_more_than_they_say(detail: PermissionDetail)
    ensures
        !HeadlessPermissionRequester::grants(PermissionMode::Deny, detail),
        HeadlessPermissionRequester::grants(PermissionMode::AcceptEdits, detail)
            == (detail is Diff),
        HeadlessPermissionRequester::grants(PermissionMode::Bypass, detail),
{
}

/// Every piece of context stands in the system prompt, under its own heading and
/// in its place: the prompt and the pieces before it, then the heading, then the
/// piece, then all that follow.
pub proof fn law_every_piece_of_context_is_in_the_prompt(
    prompt: Seq<char>,
    before: Seq<MemorySegment>,
    segment: MemorySegment,
    after: Seq<MemorySegment>,
)
    ensures
        prompt_with_memory(prompt, before + seq![segment] + after) == prompt_with_memory(
            prompt_with_memory(prompt, before) + "\n\n# "@ + segment.label@ + "\n"@
                + segment.content@,
            after,
        ),
        prompt_with_memory(prompt, Seq::empty()) == prompt,
    decreases after.len(),
{
    let all = before + seq![segment] + after;
    let head = prompt_with_memory(prompt, before);
    let here = head + "\n\n# "@ + segment.label@ + "\n"@ + segment.content@;
    reveal_strlit("\n\n");
    reveal_strlit("# ");
    reveal_strlit("\n\n# ");
    assert("\n\n"@ + "# "@ =~= "\n\n# "@);
    if after.len() == 0 {
        assert(all.drop_last() =~= before);
        assert(all.last() == segment);
        assert(head + "\n\n"@ + "# "@ =~= head + "\n\n# "@);
    } else {
        assert(all.drop_last() =~= before + seq![segment] + after.drop_last());
        assert(all.last() == after.last());
        law_every_piece_of_context_is_in_the_prompt(prompt, before, segment, after.drop_last());
    }
}

/// A run succeeded if its reply came and nothing was refused on the way; a
/// refusal makes it a permission error, whether there was a reply or not, and all
/// else is a run that went on too long.
pub proof fn law_runs_end_in_one_of_three_ways(succeeded: bool, denied: bool)
    ensures
        run_subtype(succeeded, denied) == Subtype::Success <==> succeeded && !denied,
        run_subtype(succeeded, denied) == Subtype::ErrorPermission <==> denied,
        run_subtype(succeeded, denied) == Subtype::ErrorMaxTurns <==> !succeeded && !denied,
{
}

/// Every message of the assistant is a turn, and no other is.
pub proof fn law_every_reply_is_a_turn(ms: Seq<Msg>)
    ensures
        assistant_count(ms) == ms.filter(|m: Msg| m.role == Role::Assistant).len(),
    decreases ms.len(),
{
    reveal(Seq::filter);
    if ms.len() > 0 {
        law_every_reply_is_a_turn(ms.drop_last());
    }
}

/// Without the flag nothing is printed; a lone dash takes all of standard input
/// but the white space at its end, and any other prompt is taken as it is.
pub proof fn law_the_flag_gives_the_prompt(prompt: Seq<char>, said: Seq<char>, end: Seq<char>)
    requires
        forall|k: int| 0 <= k < end.len() ==> text::white(#[trigger] end[k]),
        said.len() > 0 ==> !text::white(said.last()),
    ensures
        printed_prompt(Some("-"@), said + end) == Some(said),
        prompt != "-"@ ==> printed_prompt(Some(prompt), said + end) == Some(prompt),
        printed_prompt(None, said + end) is None,
{
    let s = said + end;
    text::law_back_trimming_cuts_white_alone(s);
    let j = choose|j: int|
        0 <= j <= s.len() && #[trigger] s.take(j) == text::trim_end(s) && (forall|k: int|
            j <= k < s.len() ==> text::white(#[trigger] s[k])) && (j > 0 ==> !text::white(
            s[j - 1],
        ));
    let n = said.len() as int;
    if j > n {
        assert(s[j - 1] == end[j - 1 - n]);
    }
    if j < n {
        assert(s[n - 1] == said.last());
    }
    assert(s.take(n) =~= said);
}

/// Letting everything through takes the explicit flag, and nothing else does.
pub proof fn law_only_bypassing_takes_the_flag(mode: PermissionMode, flag: bool)
    ensures
        !may_use(mode, flag) <==> mode is Bypass && !flag,
{
}

/// A run without a result never exits with success, and flags that do not fit are
/// told apart from all else.
pub proof fn law_runs_without_a_result_fail(error: BootstrapError, result: ResultObject)
    ensures
        error.exit_code_spec() != 0,
        error is CliMisuse <==> error.exit_code_spec() == 2,
        error is Other <==> error.exit_code_spec() == 1,
        result.exit_code_spec() == 0 <==> result.subtype is Success,
        result.exit_code_spec() != 0 ==> result.exit_code_spec() == 1,
{
}

} // verus!
