//! Hooks: which configured hooks a tool call concerns, and what the exit of a
//! hook's process means.

use vstd::prelude::*;
use crate::text::{self, chars_of, decimal_of_i32, trimmed};
use crate::text_map::TextMap;
use crate::tool_loop::PreToolHookOutcome;

verus! {

/// The moments a hook can attach to.
#[derive(Debug, Clone, Copy, PartialEq, Eq, Structural)]
pub enum HookEvent {
    PreToolUse,
    PostToolUse,
    SessionStart,
    UserPromptSubmit,
    Stop,
    SessionEnd,
}

impl HookEvent {
    /// An event's name in the configuration and in payloads.
    pub open spec fn name_spec(self) -> Seq<char> {
        match self {
            HookEvent::PreToolUse => "PreToolUse"@,
            HookEvent::PostToolUse => "PostToolUse"@,
            HookEvent::SessionStart => "SessionStart"@,
            HookEvent::UserPromptSubmit => "UserPromptSubmit"@,
            HookEvent::Stop => "Stop"@,
            HookEvent::SessionEnd => "SessionEnd"@,
        }
    }

    /// An event's name in the configuration and in payloads.
    pub fn name(self) -> (r: &'static str)
        ensures
            r@ == self.name_spec(),
    {
        match self {
            HookEvent::PreToolUse => "PreToolUse",
            HookEvent::PostToolUse => "PostToolUse",
            HookEvent::SessionStart => "SessionStart",
            HookEvent::UserPromptSubmit => "UserPromptSubmit",
            HookEvent::Stop => "Stop",
            HookEvent::SessionEnd => "SessionEnd",
        }
    }
}

/// What a hook is told on its standard input. `tool_input` is JSON, held as
/// its compact text.
#[derive(Debug)]
pub enum HookPayload {
    PreToolUse { tool_name: String, tool_input: String },
    PostToolUse { tool_name: String, tool_input: String, tool_output: String, is_error: bool },
    SessionStart,
    UserPromptSubmit { prompt: String },
    Stop,
    SessionEnd,
}

impl HookPayload {
    /// The event that a payload belongs to.
    pub open spec fn event_spec(self) -> HookEvent {
        match self {
            HookPayload::PreToolUse { .. } => HookEvent::PreToolUse,
            HookPayload::PostToolUse { .. } => HookEvent::PostToolUse,
            HookPayload::SessionStart => HookEvent::SessionStart,
            HookPayload::UserPromptSubmit { .. } => HookEvent::UserPromptSubmit,
            HookPayload::Stop => HookEvent::Stop,
            HookPayload::SessionEnd => HookEvent::SessionEnd,
        }
    }

    /// The event that a payload belongs to.
    pub fn event(&self) -> (r: HookEvent)
        ensures
            r == self.event_spec(),
    {
        match self {
            HookPayload::PreToolUse { .. } => HookEvent::PreToolUse,
            HookPayload::PostToolUse { .. } => HookEvent::PostToolUse,
            HookPayload::SessionStart => HookEvent::SessionStart,
            HookPayload::UserPromptSubmit { .. } => HookEvent::UserPromptSubmit,
            HookPayload::Stop => HookEvent::Stop,
            HookPayload::SessionEnd => HookEvent::SessionEnd,
        }
    }
}

/// What came of running a hook.
#[derive(Debug, PartialEq, Eq)]
pub enum HookResult {
    /// Exit zero.
    Success { stdout: String },
    /// Exit two: the hook objects.
    Blocked { stderr: String },
    /// Anything else: reported, and otherwise as if the hook had not run.
    NonBlockingFailure { message: String },
}

/// One configured hook. Without a matcher it concerns every tool; `blocking`
/// set to false takes its exit code two for a mere failure.
#[derive(Debug)]
pub struct HookEntry {
    pub matcher: Option<String>,
    pub command: String,
    pub timeout_ms: Option<u64>,
    pub blocking: Option<bool>,
}

/// How long a hook may run where its entry does not say, in milliseconds.
pub const DEFAULT_TIMEOUT_MS: u64 = 60_000;

/// How a hook's process came to its end.
#[derive(Debug)]
pub enum HookEnd {
    /// The payload could not be written as JSON.
    NotSerialized(String),
    /// The process could not be started.
    NotSpawned(String),
    /// Waiting for the process failed.
    NotAwaited(String),
    /// The process ran out of time; the time allowed, in words.
    TimedOut(String),
    /// The process exited, by itself with a code or by a signal without one.
    Exited { code: Option<i32>, stdout: String, stderr: String },
}

/// Whether `pattern` matches the whole of `text`: a star stands for any run of
/// characters, a question mark for exactly one, anything else for itself.
pub open spec fn glob(pattern: Seq<char>, text: Seq<char>) -> bool
    decreases pattern.len() + text.len(),
{
    if pattern.len() == 0 {
        text.len() == 0
    } else if pattern[0] == '*' {
        glob(pattern.skip(1), text) || (text.len() > 0 && glob(pattern, text.skip(1)))
    } else {
        text.len() > 0 && (pattern[0] == '?' || pattern[0] == text[0]) && glob(
            pattern.skip(1),
            text.skip(1),
        )
    }
}

fn glob_match(pattern: &Vec<char>, i: usize, text: &Vec<char>, j: usize) -> (r: bool)
    requires
        i <= pattern.len(),
        j <= text.len(),
    ensures
        r == glob(pattern@.skip(i as int), text@.skip(j as int)),
    decreases (pattern.len() - i) + (text.len() - j),
{
    proof {
        if i < pattern.len() {
            assert(pattern@.skip(i as int).skip(1) =~= pattern@.skip(i + 1));
        }
        if j < text.len() {
            assert(text@.skip(j as int).skip(1) =~= text@.skip(j + 1));
        }
    }
    if i == pattern.len() {
        j == text.len()
    } else if pattern[i] == '*' {
        glob_match(pattern, i + 1, text, j) || (j < text.len() && glob_match(
            pattern,
            i,
            text,
            j + 1,
        ))
    } else {
        j < text.len() && (pattern[i] == '?' || pattern[i] == text[j]) && glob_match(
            pattern,
            i + 1,
            text,
            j + 1,
        )
    }
}

/// Whether `matcher` matches the whole of `tool_name`.
pub fn matches_tool_name(matcher: &str, tool_name: &str) -> (r: bool)
    ensures
        r == glob(matcher@, tool_name@),
{
    let p = chars_of(matcher);
    let t = chars_of(tool_name);
    assert(p@.skip(0) =~= matcher@);
    assert(t@.skip(0) =~= tool_name@);
    glob_match(&p, 0, &t, 0)
}

impl HookEntry {
    /// Whether the hook concerns that tool; events that concern no tool
    /// concern every hook.
    pub open spec fn concerns(self, tool_name: Option<Seq<char>>) -> bool {
        match tool_name {
            Some(tool) => self.matcher is None || glob(self.matcher->0@, tool),
            None => true,
        }
    }

    /// Whether the hook concerns that tool.
    pub fn applies(&self, tool_name: Option<&str>) -> (r: bool)
        ensures
            r == self.concerns(text::opt_str(tool_name)),
    {
        match tool_name {
            Some(tool) => match &self.matcher {
                Some(matcher) => matches_tool_name(matcher.as_str(), tool),
                None => true,
            },
            None => true,
        }
    }

    /// How long the hook may run, in milliseconds.
    pub open spec fn allowed_ms(self) -> u64 {
        match self.timeout_ms {
            Some(ms) => ms,
            None => DEFAULT_TIMEOUT_MS,
        }
    }

    /// How long the hook may run, in milliseconds.
    pub fn timeout(&self) -> (r: u64)
        ensures
            r == self.allowed_ms(),
    {
        match self.timeout_ms {
            Some(ms) => ms,
            None => DEFAULT_TIMEOUT_MS,
        }
    }

    /// Whether the hook's objection counts.
    pub open spec fn objects(self) -> bool {
        self.blocking != Some(false)
    }

    /// Whether the hook's objection counts.
    pub fn counts(&self) -> (r: bool)
        ensures
            r == self.objects(),
    {
        match self.blocking {
            Some(b) => b,
            None => true,
        }
    }
}

/// The hooks configured for an event.
pub open spec fn configured(
    hooks_config: Map<Seq<char>, Vec<HookEntry>>,
    event: Seq<char>,
) -> Seq<HookEntry> {
    if hooks_config.contains_key(event) {
        hooks_config[event]@
    } else {
        Seq::empty()
    }
}

/// The hooks of an event that concern a tool, in the order of the
/// configuration.
pub open spec fn concerned(
    hooks_config: Map<Seq<char>, Vec<HookEntry>>,
    event: Seq<char>,
    tool_name: Option<Seq<char>>,
) -> Seq<HookEntry> {
    configured(hooks_config, event).filter(|e: HookEntry| e.concerns(tool_name))
}

/// The hooks of an event that concern a tool, in the order of the
/// configuration.
pub fn matching_hook_entries<'a>(
    hooks_config: &'a TextMap<Vec<HookEntry>>,
    event: &str,
    tool_name: Option<&str>,
) -> (r: Vec<&'a HookEntry>)
    requires
        hooks_config.wf(),
    ensures
        r@.unref() == concerned(hooks_config@, event@, text::opt_str(tool_name)),
{
    let mut r: Vec<&HookEntry> = Vec::new();
    let ghost tool = text::opt_str(tool_name);
    let ghost pred = |e: HookEntry| e.concerns(tool);
    match hooks_config.get(event) {
        Some(entries) => {
            let mut i: usize = 0;
            assert(r@.unref() =~= entries@.take(0).filter(pred)) by {
                reveal(Seq::filter);
            }
            while i < entries.len()
                invariant
                    i <= entries.len(),
                    tool == text::opt_str(tool_name),
                    pred == (|e: HookEntry| e.concerns(tool)),
                    r@.unref() == entries@.take(i as int).filter(pred),
                decreases entries.len() - i,
            {
                let ghost before = r@;
                if entries[i].applies(tool_name) {
                    r.push(&entries[i]);
                }
                i += 1;
                proof {
                    reveal(Seq::filter);
                    let t = entries@.take(i as int);
                    assert(t.drop_last() =~= entries@.take(i - 1));
                    assert(t.last() == entries@[i - 1]);
                    if entries@[i - 1].concerns(tool) {
                        assert(r@.unref() =~= before.unref().push(entries@[i - 1]));
                    }
                }
            }
            assert(entries@.take(entries@.len() as int) =~= entries@);
        },
        None => {
            assert(r@.unref() =~= Seq::<HookEntry>::empty().filter(pred)) by {
                reveal(Seq::filter);
            }
        },
    }
    r
}

/// What an end of a hook's process means.
pub open spec fn end_result(end: HookEnd) -> (HookResultKind, Seq<char>) {
    match end {
        HookEnd::NotSerialized(e) => (
            HookResultKind::Failure,
            "failed to serialize hook payload: "@ + e@,
        ),
        HookEnd::NotSpawned(e) => (
            HookResultKind::Failure,
            "failed to spawn hook command: "@ + e@,
        ),
        HookEnd::NotAwaited(e) => (
            HookResultKind::Failure,
            "failed waiting for hook process: "@ + e@,
        ),
        HookEnd::TimedOut(allowed) => (
            HookResultKind::Failure,
            "hook timed out after "@ + allowed@,
        ),
        HookEnd::Exited { code, stdout, stderr } => match code {
            Some(0) => (HookResultKind::Success, stdout@),
            Some(2) => (HookResultKind::Blocked, stderr@),
            Some(n) => (
                HookResultKind::Failure,
                "hook exited with status "@ + text::decimal_int(n as int) + " (stderr: "@ + stderr@
                    + ")"@,
            ),
            None => (HookResultKind::Failure, "hook process terminated by signal"@),
        },
    }
}

/// The three kinds of hook results.
#[derive(Debug, Clone, Copy, PartialEq, Eq, Structural)]
pub enum HookResultKind {
    Success,
    Blocked,
    Failure,
}

impl HookResult {
    /// A result's kind and text.
    pub open spec fn parts(self) -> (HookResultKind, Seq<char>) {
        match self {
            HookResult::Success { stdout } => (HookResultKind::Success, stdout@),
            HookResult::Blocked { stderr } => (HookResultKind::Blocked, stderr@),
            HookResult::NonBlockingFailure { message } => (HookResultKind::Failure, message@),
        }
    }
}

fn failure(head: &str, tail: &str) -> (r: HookResult)
    ensures
        r.parts() == (HookResultKind::Failure, head@ + tail@),
{
    let mut message = head.to_owned();
    message.append(tail);
    HookResult::NonBlockingFailure { message }
}

/// The command line that runs a hook: the shell, with the hook's command. What
/// the hook is told goes to its standard input and never into the command line.
pub open spec fn hook_argv(command: Seq<char>) -> Seq<Seq<char>> {
    seq!["sh"@, "-c"@, command]
}

/// The command line that runs a hook.
pub fn hook_command_line(command: &str) -> (r: Vec<String>)
    ensures
        text::texts(r@) == hook_argv(command@),
{
    let mut argv: Vec<String> = Vec::new();
    argv.push("sh".to_owned());
    argv.push("-c".to_owned());
    argv.push(command.to_owned());
    assert(text::texts(argv@) =~= hook_argv(command@));
    argv
}

/// Reads the end of a hook's process: zero is success, two an objection, and
/// everything else a failure that stops nothing.
pub fn interpret_hook_end(end: HookEnd) -> (r: HookResult)
    ensures
        r.parts() == end_result(end),
{
    match end {
        HookEnd::NotSerialized(e) => failure("failed to serialize hook payload: ", e.as_str()),
        HookEnd::NotSpawned(e) => failure("failed to spawn hook command: ", e.as_str()),
        HookEnd::NotAwaited(e) => failure("failed waiting for hook process: ", e.as_str()),
        HookEnd::TimedOut(allowed) => failure("hook timed out after ", allowed.as_str()),
        HookEnd::Exited { code, stdout, stderr } => match code {
            Some(n) => {
                if n == 0 {
                    HookResult::Success { stdout }
                } else if n == 2 {
                    HookResult::Blocked { stderr }
                } else {
                    let mut message = "hook exited with status ".to_owned();
                    message.append(decimal_of_i32(n).as_str());
                    message.append(" (stderr: ");
                    message.append(stderr.as_str());
                    message.append(")");
                    HookResult::NonBlockingFailure { message }
                }
            },
            None => HookResult::NonBlockingFailure {
                message: "hook process terminated by signal".to_owned(),
            },
        },
    }
}

/// What one hook run before a tool call comes to: a denial, or nothing.
pub open spec fn veto(entry: HookEntry, result: HookResult) -> Option<Seq<char>> {
    match result {
        HookResult::Blocked { stderr } => if entry.objects() {
            Some(stderr@)
        } else {
            None
        },
        _ => None,
    }
}

/// What one hook run before a tool call comes to. Only an objection that
/// counts stops the call.
pub fn pre_tool_verdict(entry: &HookEntry, result: HookResult) -> (r: PreToolHookOutcome)
    ensures
        match r {
            PreToolHookOutcome::Deny(m) => veto(*entry, result) == Some(m@),
            PreToolHookOutcome::Allow => veto(*entry, result) is None,
        },
{
    match result {
        HookResult::Blocked { stderr } => {
            if entry.counts() {
                PreToolHookOutcome::Deny(stderr)
            } else {
                PreToolHookOutcome::Allow
            }
        },
        _ => PreToolHookOutcome::Allow,
    }
}

/// The context that a hook run before a prompt adds to what was added before
/// it.
pub open spec fn added_context(context: Seq<char>, result: HookResult) -> Seq<char> {
    match result {
        HookResult::Success { stdout } => if text::trim(stdout@).len() == 0 {
            context
        } else if context.len() == 0 {
            text::trim(stdout@)
        } else {
            context + "\n\n"@ + text::trim(stdout@)
        },
        _ => context,
    }
}

/// Takes one hook run before a prompt: an objection that counts rejects the
/// prompt, and what a successful hook printed is added to the context.
pub fn apply_prompt_hook(context: String, entry: &HookEntry, result: HookResult) -> (r: Result<
    String,
    String,
>)
    ensures
        match r {
            Err(stderr) => veto(*entry, result) == Some(stderr@),
            Ok(next) => veto(*entry, result) is None && next@ == added_context(context@, result),
        },
{
    match result {
        HookResult::Success { stdout } => {
            let added = trimmed(stdout.as_str());
            if added.as_str().is_empty() {
                Ok(context)
            } else if context.as_str().is_empty() {
                Ok(added)
            } else {
                let mut next = context;
                next.append("\n\n");
                next.append(added.as_str());
                Ok(next)
            }
        },
        HookResult::Blocked { stderr } => {
            if entry.counts() {
                Err(stderr)
            } else {
                Ok(context)
            }
        },
        HookResult::NonBlockingFailure { .. } => Ok(context),
    }
}

/// The prompt with the hooks' context behind it.
pub open spec fn prompt_with_context(prompt: Seq<char>, context: Seq<char>) -> Seq<char> {
    if context.len() == 0 {
        prompt
    } else {
        prompt + "\n\n"@ + context
    }
}

/// The prompt with the hooks' context behind it.
pub fn inject_context(prompt: String, context: &str) -> (r: String)
    ensures
        r@ == prompt_with_context(prompt@, context@),
{
    if context.is_empty() {
        prompt
    } else {
        let mut out = prompt;
        out.append("\n\n");
        out.append(context);
        out
    }
}

/// The text of a result that is worth a note, given whether an objection is:
/// that of the objection, or that of a failure.
pub open spec fn noted(result: HookResult, objections: bool) -> Option<Seq<char>> {
    match result {
        HookResult::Success { .. } => None,
        HookResult::Blocked { stderr } => if objections {
            Some(stderr@)
        } else {
            None
        },
        HookResult::NonBlockingFailure { message } => Some(message@),
    }
}

/// What there is to log about a hook that can only observe: nothing for a
/// success, a note that its objection is ignored, or its failure.
pub fn log_observational_hook_outcome(event: &str, result: &HookResult) -> (r: Option<String>)
    ensures
        match noted(*result, true) {
            Some(said) => r is Some && said.is_suffix_of(r->0@) && event@.is_prefix_of(r->0@),
            None => r is None,
        },
        text::opt_text(r) == (match *result {
            HookResult::Success { .. } => None,
            HookResult::Blocked { stderr } => Some(
                event@ + " hook exited 2 (a blocking exit code), but "@ + event@
                    + " is fire-and-observe only and cannot veto anything -- ignoring: "@ + stderr@,
            ),
            HookResult::NonBlockingFailure { message } => Some(
                event@ + " hook failed non-blocking: "@ + message@,
            ),
        }),
{
    match result {
        HookResult::Success { .. } => None,
        HookResult::Blocked { stderr } => {
            let mut note = event.to_owned();
            note.append(" hook exited 2 (a blocking exit code), but ");
            note.append(event);
            note.append(" is fire-and-observe only and cannot veto anything -- ignoring: ");
            note.append(stderr.as_str());
            Some(note)
        },
        HookResult::NonBlockingFailure { message } => {
            let mut note = event.to_owned();
            note.append(" hook failed non-blocking: ");
            note.append(message.as_str());
            Some(note)
        },
    }
}

/// What there is to log about a hook on a prompt that did not stop it: an
/// objection that does not count, or a failure.
pub fn prompt_hook_note(entry: &HookEntry, result: &HookResult) -> (r: Option<String>)
    ensures
        match noted(*result, !entry.objects()) {
            Some(said) => r is Some && said.is_suffix_of(r->0@),
            None => r is None,
        },
        text::opt_text(r) == (match *result {
            HookResult::Success { .. } => None,
            HookResult::Blocked { stderr } => if entry.objects() {
                None
            } else {
                Some(
                    "UserPromptSubmit hook exited 2 but its config entry sets blocking: false, allowing the prompt through: "@
                        + stderr@,
                )
            },
            HookResult::NonBlockingFailure { message } => Some(
                "UserPromptSubmit hook failed non-blocking, continuing without its injected context: "@
                    + message@,
            ),
        }),
{
    match result {
        HookResult::Success { .. } => None,
        HookResult::Blocked { stderr } => if entry.counts() {
            None
        } else {
            let mut note =
                "UserPromptSubmit hook exited 2 but its config entry sets blocking: false, allowing the prompt through: ".to_owned();
            note.append(stderr.as_str());
            Some(note)
        },
        HookResult::NonBlockingFailure { message } => {
            let mut note =
                "UserPromptSubmit hook failed non-blocking, continuing without its injected context: ".to_owned();
            note.append(message.as_str());
            Some(note)
        },
    }
}

/// What there is to log about a hook on a tool call that did not stop it.
pub fn pre_tool_hook_note(entry: &HookEntry, result: &HookResult) -> (r: Option<String>)
    ensures
        match noted(*result, !entry.objects()) {
            Some(said) => r is Some && said.is_suffix_of(r->0@),
            None => r is None,
        },
        text::opt_text(r) == (match *result {
            HookResult::Success { .. } => None,
            HookResult::Blocked { stderr } => if entry.objects() {
                None
            } else {
                Some(
                    "PreToolUse hook exited 2 but its config entry sets blocking: false, allowing the tool call through: "@
                        + stderr@,
                )
            },
            HookResult::NonBlockingFailure { message } => Some(
                "PreToolUse hook failed non-blocking, allowing the tool call through: "@ + message@,
            ),
        }),
{
    match result {
        HookResult::Success { .. } => None,
        HookResult::Blocked { stderr } => if entry.counts() {
            None
        } else {
            let mut note =
                "PreToolUse hook exited 2 but its config entry sets blocking: false, allowing the tool call through: ".to_owned();
            note.append(stderr.as_str());
            Some(note)
        },
        HookResult::NonBlockingFailure { message } => {
            let mut note =
                "PreToolUse hook failed non-blocking, allowing the tool call through: ".to_owned();
            note.append(message.as_str());
            Some(note)
        },
    }
}

/// A lone star matches every name.
pub proof fn law_star_matches_every_name(name: Seq<char>)
    ensures
        glob(seq!['*'], name),
    decreases name.len(),
{
    if name.len() > 0 {
        law_star_matches_every_name(name.skip(1));
    } else {
        assert(glob(seq!['*'].skip(1), name));
    }
}

/// A matcher without wildcards matches exactly the name it spells.
pub proof fn law_plain_matcher_matches_itself_alone(matcher: Seq<char>, name: Seq<char>)
    requires
        !matcher.contains('*'),
        !matcher.contains('?'),
    ensures
        glob(matcher, name) <==> matcher == name,
    decreases matcher.len(),
{
    if matcher.len() > 0 {
        assert(matcher[0] != '*') by {
            if matcher[0] == '*' {
                assert(matcher.contains('*'));
            }
        }
        assert(matcher[0] != '?') by {
            if matcher[0] == '?' {
                assert(matcher.contains('?'));
            }
        }
        let rest = matcher.skip(1);
        assert forall|c: char| rest.contains(c) implies matcher.contains(c) by {
            let i = rest.index_of(c);
            assert(matcher[i + 1] == c);
        }
        if name.len() > 0 {
            law_plain_matcher_matches_itself_alone(rest, name.skip(1));
            assert(matcher =~= seq![matcher[0]] + rest);
            assert(name =~= seq![name[0]] + name.skip(1));
        }
    } else if name.len() == 0 {
        assert(matcher =~= name);
    }
}

/// A matcher that ends in a star after plain characters matches exactly the
/// names that begin with them.
pub proof fn law_trailing_star_matches_prefixes(prefix: Seq<char>, name: Seq<char>)
    requires
        !prefix.contains('*'),
        !prefix.contains('?'),
    ensures
        glob(prefix.push('*'), name) <==> text::starts_with(name, prefix),
    decreases prefix.len(),
{
    let matcher = prefix.push('*');
    if prefix.len() == 0 {
        assert(matcher =~= seq!['*']);
        law_star_matches_every_name(name);
        assert(name.subrange(0, 0) =~= prefix);
    } else {
        assert(prefix[0] != '*') by {
            if prefix[0] == '*' {
                assert(prefix.contains('*'));
            }
        }
        assert(prefix[0] != '?') by {
            if prefix[0] == '?' {
                assert(prefix.contains('?'));
            }
        }
        let rest = prefix.skip(1);
        assert forall|c: char| rest.contains(c) implies prefix.contains(c) by {
            let i = rest.index_of(c);
            assert(prefix[i + 1] == c);
        }
        assert(matcher.skip(1) =~= rest.push('*'));
        if name.len() > 0 {
            law_trailing_star_matches_prefixes(rest, name.skip(1));
            if text::starts_with(name, prefix) {
                assert(name[0] == name.subrange(0, prefix.len() as int)[0]);
                assert(name.skip(1).subrange(0, rest.len() as int) =~= rest) by {
                    assert(name.subrange(0, prefix.len() as int).skip(1) =~= name.skip(1).subrange(
                        0,
                        rest.len() as int,
                    ));
                }
            }
            if name[0] == prefix[0] && text::starts_with(name.skip(1), rest) {
                assert(name.subrange(0, prefix.len() as int) =~= seq![prefix[0]] + rest) by {
                    assert(name.subrange(0, prefix.len() as int).skip(1) =~= name.skip(1).subrange(
                        0,
                        rest.len() as int,
                    ));
                }
                assert(prefix =~= seq![prefix[0]] + rest);
            }
        }
    }
}

/// A hook that is told not to block never stops anything.
pub proof fn law_non_blocking_hooks_never_object(entry: HookEntry, result: HookResult)
    requires
        entry.blocking == Some(false),
    ensures
        veto(entry, result) is None,
{
}

/// A star stands for any run of characters, an empty one too, a question mark for
/// exactly one, any other character for itself, and an empty matcher for nothing;
/// what follows in the matcher has to match what follows in the name.
pub proof fn law_wildcards_stand_for_characters(matcher: Seq<char>, c: char, name: Seq<char>)
    ensures
        glob(seq!['*'] + matcher, name) <==> exists|i: int|
            0 <= i <= name.len() && #[trigger] glob(matcher, name.skip(i)),
        glob(seq!['?'] + matcher, seq![c] + name) <==> glob(matcher, name),
        c != '*' && c != '?' ==> (glob(seq![c] + matcher, name) <==> name.len() > 0 && name[0] == c
            && glob(matcher, name.skip(1))),
        !glob(seq!['?'] + matcher, Seq::empty()),
        glob(Seq::empty(), name) <==> name.len() == 0,
    decreases name.len(),
{
    let star = seq!['*'] + matcher;
    assert(star.skip(1) =~= matcher);
    assert(name.skip(0) =~= name);
    if glob(matcher, name) {
        assert(glob(matcher, name.skip(0)));
    }
    let found = exists|i: int| 0 <= i <= name.len() && #[trigger] glob(matcher, name.skip(i));
    let at = choose|i: int| 0 <= i <= name.len() && #[trigger] glob(matcher, name.skip(i));
    if name.len() > 0 {
        let t = name.skip(1);
        law_wildcards_stand_for_characters(matcher, c, t);
        if found && at > 0 {
            assert(name.skip(at) =~= t.skip(at - 1));
            assert(glob(matcher, t.skip(at - 1)));
        }
        if glob(star, t) {
            let j = choose|j: int| 0 <= j <= t.len() && #[trigger] glob(matcher, t.skip(j));
            assert(name.skip(j + 1) =~= t.skip(j));
            assert(glob(matcher, name.skip(j + 1)));
        }
    }
    let one = seq!['?'] + matcher;
    assert(one.skip(1) =~= matcher);
    assert((seq![c] + name).skip(1) =~= name);
    assert((seq![c] + matcher).skip(1) =~= matcher);
}

/// Of the hooks of an event, those run that name no tool or whose matcher matches
/// it, all of them and in the order of the configuration; where there is no tool,
/// every one. Hooks of other events do not run.
pub proof fn law_all_matching_hooks_run(
    hooks_config: Map<Seq<char>, Vec<HookEntry>>,
    event: Seq<char>,
    tool: Seq<char>,
)
    ensures
        hooks_config.contains_key(event) ==> concerned(hooks_config, event, None)
            == hooks_config[event]@,
        hooks_config.contains_key(event) ==> concerned(hooks_config, event, Some(tool))
            == hooks_config[event]@.filter(
            |e: HookEntry| e.matcher is None || glob(e.matcher->0@, tool),
        ),
        !hooks_config.contains_key(event) ==> concerned(hooks_config, event, None).len() == 0
            && concerned(hooks_config, event, Some(tool)).len() == 0,
{
    reveal(Seq::filter);
    if hooks_config.contains_key(event) {
        lemma_filtering_by_all_keeps_all(
            hooks_config[event]@,
            |e: HookEntry| e.concerns(None::<Seq<char>>),
        );
        let p = |e: HookEntry| e.concerns(Some(tool));
        let q = |e: HookEntry| e.matcher is None || glob(e.matcher->0@, tool);
        assert(p =~= q);
    }
}

proof fn lemma_filtering_by_all_keeps_all(s: Seq<HookEntry>, p: spec_fn(HookEntry) -> bool)
    requires
        forall|e: HookEntry| #[trigger] p(e),
    ensures
        s.filter(p) == s,
    decreases s.len(),
{
    reveal(Seq::filter);
    if s.len() > 0 {
        lemma_filtering_by_all_keeps_all(s.drop_last(), p);
        assert(s =~= s.drop_last().push(s.last()));
    }
}

/// Exit zero is a success with what the hook printed, exit two an objection with
/// what it printed as an error; every other end is a failure that names the exit
/// and keeps the error text.
pub proof fn law_exits_mean_success_objection_or_failure(
    code: Option<i32>,
    stdout: String,
    stderr: String,
)
    ensures
        ({
            let (kind, text) = end_result(HookEnd::Exited { code, stdout, stderr });
            &&& kind is Success <==> code == Some(0i32)
            &&& kind is Blocked <==> code == Some(2i32)
            &&& kind is Success ==> text == stdout@
            &&& kind is Blocked ==> text == stderr@
            &&& kind is Failure ==> match code {
                Some(n) => text == "hook exited with status "@ + text::decimal_int(n as int)
                    + " (stderr: "@ + stderr@ + ")"@,
                None => text == "hook process terminated by signal"@,
            }
        }),
{
}

/// A hook that never came to an exit never objects, and its failure says why.
pub proof fn law_hooks_without_an_exit_fail(why: String)
    ensures
        end_result(HookEnd::NotSerialized(why)) == (
            HookResultKind::Failure,
            "failed to serialize hook payload: "@ + why@,
        ),
        end_result(HookEnd::NotSpawned(why)) == (
            HookResultKind::Failure,
            "failed to spawn hook command: "@ + why@,
        ),
        end_result(HookEnd::NotAwaited(why)) == (
            HookResultKind::Failure,
            "failed waiting for hook process: "@ + why@,
        ),
        end_result(HookEnd::TimedOut(why)) == (
            HookResultKind::Failure,
            "hook timed out after "@ + why@,
        ),
{
}

/// An objection stops what it is about, with the whole of its text, unless the
/// hook is told not to block; nothing else stops anything.
pub proof fn law_only_objections_stop(entry: HookEntry, result: HookResult)
    ensures
        veto(entry, result) is Some <==> result is Blocked && entry.blocking != Some(false),
        veto(entry, result) matches Some(m) ==> m == result->Blocked_stderr@,
{
}

/// A successful hook's text, without the white space around it, goes behind all
/// that was added before, after an empty line; a hook that prints nothing but
/// white space, or does not succeed, adds nothing. In the end all of it goes
/// behind the prompt, after an empty line.
pub proof fn law_hooks_add_to_the_prompt(
    prompt: Seq<char>,
    context: Seq<char>,
    stdout: String,
    stderr: String,
    a: Seq<char>,
    added: Seq<char>,
    b: Seq<char>,
)
    requires
        stdout@ == a + added + b,
        forall|k: int| 0 <= k < a.len() ==> text::white(#[trigger] a[k]),
        forall|k: int| 0 <= k < b.len() ==> text::white(#[trigger] b[k]),
        added.len() > 0 ==> !text::white(added[0]) && !text::white(added.last()),
    ensures
        ({
            let next = added_context(context, HookResult::Success { stdout });
            &&& added.len() == 0 ==> next == context
            &&& added.len() > 0 && context.len() == 0 ==> next == added
            &&& added.len() > 0 && context.len() > 0 ==> next == context + "\n\n"@ + added
            &&& next.len() > 0 ==> prompt_with_context(prompt, next) == prompt + "\n\n"@ + next
        }),
        added_context(context, HookResult::Blocked { stderr }) == context,
        added_context(context, HookResult::NonBlockingFailure { message: stderr }) == context,
        prompt_with_context(prompt, Seq::empty()) == prompt,
{
    text::law_trimming_keeps_what_is_between(a, added, b);
}

/// A hook runs in the shell with its command as it is configured, for the time
/// that its entry allows or else a minute.
pub proof fn law_hooks_run_their_command(entry: HookEntry)
    ensures
        hook_argv(entry.command@) == seq!["sh"@, "-c"@, entry.command@],
        entry.timeout_ms matches Some(ms) ==> entry.allowed_ms() == ms,
        entry.timeout_ms is None ==> entry.allowed_ms() == 60 * 1000,
{
}

/// An event goes by its own name, and a payload belongs to the event whose name
/// its variant has.
pub proof fn law_events_go_by_their_names(payload: HookPayload)
    ensures
        payload.event_spec().name_spec() == match payload {
            HookPayload::PreToolUse { .. } => "PreToolUse"@,
            HookPayload::PostToolUse { .. } => "PostToolUse"@,
            HookPayload::SessionStart => "SessionStart"@,
            HookPayload::UserPromptSubmit { .. } => "UserPromptSubmit"@,
            HookPayload::Stop => "Stop"@,
            HookPayload::SessionEnd => "SessionEnd"@,
        },
{
}

/// A result is told by its kind and its own text.
pub proof fn law_results_keep_their_text(text: String)
    ensures
        (HookResult::Success { stdout: text }).parts() == (HookResultKind::Success, text@),
        (HookResult::Blocked { stderr: text }).parts() == (HookResultKind::Blocked, text@),
        (HookResult::NonBlockingFailure { message: text }).parts() == (
            HookResultKind::Failure,
            text@,
        ),
{
}

/// Every failure is worth a note, with the whole of its message; a success never
/// is, and an objection is where it is not heeded.
pub proof fn law_what_goes_unheeded_is_noted(said: String, objections: bool)
    ensures
        noted(HookResult::Success { stdout: said }, objections) is None,
        noted(HookResult::NonBlockingFailure { message: said }, objections) == Some(said@),
        noted(HookResult::Blocked { stderr: said }, true) == Some(said@),
        noted(HookResult::Blocked { stderr: said }, false) is None,
{
}

} // verus!
